use rpack_opt::archive::{build_archive, ArchiveEntry};
use rpack_opt::filters::{is_json_like, is_kept_by_clone, is_png_like, is_shader_like, is_yaml_like};
use rpack_opt::paths::{is_within, rebase, relative_path, same_path};
use rpack_opt::stages::{plan_archive, plan_clone, select_files, CopyOp, Transform, TreeEntry};
use std::io::Read;

fn entry(path: &str, is_dir: bool) -> TreeEntry {
    TreeEntry { path: path.to_string(), is_dir }
}

fn sample_tree() -> Vec<TreeEntry> {
    vec![
        entry("/in/a", true),
        entry("/in/a/b.json", false),
        entry("/in/a/empty", true),
        entry("/in/shader.fsh", false),
        entry("/in/img.png", false),
        entry("/in/notes.md", false),
        entry("/in/cfg.yml", false),
        entry("/in/old.old", false),
    ]
}

#[test]
fn filters_match_by_suffix() {
    assert!(is_json_like("a/b.json"));
    assert!(is_json_like("pack.mcmeta"));
    assert!(!is_json_like("a.jsonx"));
    assert!(is_yaml_like("x.yml") && is_yaml_like("x.yaml") && !is_yaml_like("x.yam"));
    assert!(is_shader_like("s.vsh") && is_shader_like("s.fsh") && !is_shader_like("s.glsl"));
    assert!(is_png_like("i.png") && !is_png_like("i.PNG"));
    assert!(!is_kept_by_clone("README.md") && !is_kept_by_clone("x.old"));
    assert!(is_kept_by_clone("x.json") && is_kept_by_clone(""));
}

#[test]
fn relative_paths_are_taken_component_wise() {
    assert_eq!(relative_path("/in/a/b.json", "/in"), Some("a/b.json".to_string()));
    assert_eq!(relative_path("/in", "/in"), Some(String::new()));
    assert_eq!(relative_path("/input/x", "/in"), None);
    assert_eq!(relative_path("/other", "/in"), None);
    assert!(is_within("/in/out", "/in"));
    assert!(!is_within("/inout", "/in"));
}

#[test]
fn rebase_keeps_the_relative_path() {
    let d = rebase("/in/a/b.json", "/in", "/tmp/w").unwrap();
    assert_eq!(d, "/tmp/w/a/b.json");
    assert_eq!(relative_path(&d, "/tmp/w"), relative_path("/in/a/b.json", "/in"));
    assert_eq!(rebase("/in", "/in", "/tmp/w"), Some("/tmp/w".to_string()));
    assert_eq!(rebase("/elsewhere/x", "/in", "/tmp/w"), None);
}

#[test]
fn select_files_picks_the_stage_files_in_order() {
    let t = sample_tree();
    assert_eq!(select_files(&t, Transform::MinifyJson), vec!["/in/a/b.json".to_string()]);
    assert_eq!(select_files(&t, Transform::MinifyYaml), vec!["/in/cfg.yml".to_string()]);
    assert_eq!(select_files(&t, Transform::StripShaders), vec!["/in/shader.fsh".to_string()]);
    assert_eq!(select_files(&t, Transform::RecompressPng), vec!["/in/img.png".to_string()]);
    assert!(Transform::MinifyJson.runs_in_parallel());
    assert!(!Transform::RecompressPng.runs_in_parallel());
}

fn describe(ops: &[CopyOp]) -> Vec<String> {
    ops.iter()
        .map(|o| match o {
            CopyOp::MakeDir(d) => format!("dir {}", d),
            CopyOp::CopyFile(s, d) => format!("copy {} {}", s, d),
        })
        .collect()
}

#[test]
fn clone_plan_drops_docs_and_backups_and_keeps_directories() {
    let ops = plan_clone(&sample_tree(), "/in", "/w", true).unwrap();
    assert_eq!(
        describe(&ops),
        vec![
            "dir /w/a",
            "copy /in/a/b.json /w/a/b.json",
            "dir /w/a/empty",
            "copy /in/shader.fsh /w/shader.fsh",
            "copy /in/img.png /w/img.png",
            "copy /in/cfg.yml /w/cfg.yml",
        ]
    );
    let all = plan_clone(&sample_tree(), "/in", "/w", false).unwrap();
    assert_eq!(all.len(), 8);
    let dirs_named_like_docs = vec![entry("/in/docs.md", true)];
    assert_eq!(describe(&plan_clone(&dirs_named_like_docs, "/in", "/w", true).unwrap()), vec!["dir /w/docs.md"]);
    assert!(plan_clone(&vec![entry("/x/y", false)], "/in", "/w", true).is_none());
}

#[test]
fn archive_plan_lists_files_but_not_the_archive_itself() {
    let mut t = sample_tree();
    t.push(entry("/in/out.zip", false));
    let plan = plan_archive(&t, "/in", "/in/out.zip").unwrap();
    let names: Vec<&str> = plan.iter().map(|p| p.0.as_str()).collect();
    assert_eq!(names, vec!["a/b.json", "shader.fsh", "img.png", "notes.md", "cfg.yml", "old.old"]);
    assert_eq!(plan[0].1, "/in/a/b.json");
    assert!(plan_archive(&vec![entry("/x/y", false)], "/in", "/none").is_none());
}

#[test]
fn archive_holds_exactly_the_given_files() {
    let entries = vec![
        ArchiveEntry { name: "a/b.json".to_string(), contents: b"{\"x\":1}".to_vec() },
        ArchiveEntry { name: "shader.fsh".to_string(), contents: b"foo;".to_vec() },
        ArchiveEntry { name: "empty.txt".to_string(), contents: Vec::new() },
    ];
    let bytes = build_archive(&entries).unwrap();
    let mut zip = zip::ZipArchive::new(std::io::Cursor::new(bytes)).unwrap();
    assert_eq!(zip.len(), 3);
    for e in &entries {
        let mut f = zip.by_name(&e.name).unwrap();
        let mut data = Vec::new();
        f.read_to_end(&mut data).unwrap();
        assert_eq!(data, e.contents);
    }
}

#[test]
fn empty_archive_has_no_entries() {
    let bytes = build_archive(&Vec::new()).unwrap();
    let zip = zip::ZipArchive::new(std::io::Cursor::new(bytes)).unwrap();
    assert_eq!(zip.len(), 0);
}

#[test]
fn trailing_and_repeated_separators_are_ignored() {
    assert_eq!(relative_path("/in//a/b.json", "/in/"), Some("a/b.json".to_string()));
    assert_eq!(relative_path("/in/", "/in"), Some(String::new()));
    assert_eq!(relative_path("in/a", "/in"), None);
    assert_eq!(rebase("/in/a/", "/in/", "/w/"), Some("/w//a".to_string()));
    assert_eq!(relative_path("/w//a", "/w"), Some("a".to_string()));
    assert!(same_path("/in/", "/in"));
    assert!(!same_path("/in/a", "/in"));
    assert_eq!(
        describe(&plan_clone(&vec![entry("/in/x.json", false)], "/in/", "/w", true).unwrap()),
        vec!["copy /in/x.json /w/x.json"]
    );
}

#[test]
fn archive_plan_recognises_the_archive_under_another_spelling() {
    let t = vec![entry("/in/a.txt", false), entry("/in/out.zip", false)];
    let plan = plan_archive(&t, "/in/", "/in//out.zip").unwrap();
    assert_eq!(plan.len(), 1);
    assert_eq!(plan[0].0, "a.txt");
}

#[test]
fn dot_components_are_dropped_from_relative_paths() {
    assert_eq!(relative_path("/in/./a/./b.json", "/in/."), Some("a/b.json".to_string()));
    assert_eq!(relative_path("/in/..", "/in"), Some("..".to_string()));
}
