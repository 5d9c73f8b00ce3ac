use std::collections::BTreeMap;

use rpack_opt::codecs::minify_json;
use rpack_opt::filters::is_json_like;
use rpack_opt::pipeline::{validate, Action, Pipeline, Step};
use rpack_opt::shader::strip_shader_comments;
use rpack_opt::stages::{plan_clone, select_files, CopyOp, Transform, TreeEntry};

fn entry(path: &str, is_dir: bool) -> TreeEntry {
    TreeEntry { path: path.to_string(), is_dir }
}

#[test]
fn full_run_without_archive_keeps_minified_files_and_drops_notes() {
    assert_eq!(validate(true, true, "/in", "/out"), Ok(()));
    let mut files: BTreeMap<String, String> = BTreeMap::new();
    files.insert("/in/a/b.json".to_string(), "{\"x\": 1,  \"y\": 2}".to_string());
    files.insert("/in/shader.fsh".to_string(), "vec4 color; // comment\n\n   \nfoo;".to_string());
    files.insert("/in/notes.md".to_string(), "# notes".to_string());
    let tree = vec![
        entry("/in/a", true),
        entry("/in/a/b.json", false),
        entry("/in/shader.fsh", false),
        entry("/in/notes.md", false),
    ];

    let mut work: BTreeMap<String, String> = BTreeMap::new();
    let mut pipeline = Pipeline::new(true, false, true);
    loop {
        match pipeline.next_action() {
            Action::Run(step) => {
                match step {
                    Step::Clone => {
                        for op in plan_clone(&tree, "/in", "/w", true).unwrap() {
                            if let CopyOp::CopyFile(s, d) = op {
                                work.insert(d, files[&s].clone());
                            }
                        }
                    }
                    Step::MinifyJson | Step::StripShaders => {
                        let t = if step == Step::MinifyJson {
                            Transform::MinifyJson
                        } else {
                            Transform::StripShaders
                        };
                        let items: Vec<TreeEntry> =
                            work.keys().map(|k| entry(k, false)).collect();
                        for f in select_files(&items, t) {
                            let text = work[&f].clone();
                            let out = if is_json_like(&f) {
                                minify_json(&text).unwrap()
                            } else {
                                strip_shader_comments(&text)
                            };
                            work.insert(f, out);
                        }
                    }
                    _ => {}
                }
                pipeline.completed();
            }
            Action::Finish => break,
            other => panic!("unexpected action {:?}", other),
        }
    }
    let keys: Vec<&str> = work.keys().map(|k| k.as_str()).collect();
    assert_eq!(keys, vec!["/w/a/b.json", "/w/shader.fsh"]);
    assert_eq!(work["/w/a/b.json"], "{\"x\":1,\"y\":2}");
    assert_eq!(work["/w/shader.fsh"], "vec4 color;\nfoo;");
}
