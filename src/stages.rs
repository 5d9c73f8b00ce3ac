//! What each stage does to a traversed tree: which files it transforms, what the
//! clone copies where, and which files the archive stores under which names.
use vstd::prelude::*;
use crate::filters::{
    is_json_like, is_kept_by_clone, is_png_like, is_shader_like, is_yaml_like, json_like,
    kept_by_clone, png_like, shader_like, yaml_like,
};
use crate::paths::{rebase, rebased, relative_of, relative_path, same_path};

verus! {

/// One entry found by walking a tree: its full path and whether it is a directory.
pub struct TreeEntry {
    pub path: String,
    pub is_dir: bool,
}

/// The in-place transforms, in the order in which the pipeline runs them.
#[derive(Debug, Clone, Copy, PartialEq, Eq, Structural)]
pub enum Transform {
    MinifyJson,
    MinifyYaml,
    StripShaders,
    RecompressPng,
}

/// Whether the transform handles a file at this path.
pub open spec fn handles(t: Transform, p: Seq<char>) -> bool {
    match t {
        Transform::MinifyJson => json_like(p),
        Transform::MinifyYaml => yaml_like(p),
        Transform::StripShaders => shader_like(p),
        Transform::RecompressPng => png_like(p),
    }
}

/// Whether the transform's files may be processed concurrently. Image
/// recompression runs one file at a time: its codec starts threads of its own.
pub open spec fn parallel(t: Transform) -> bool {
    t != Transform::RecompressPng
}

impl Transform {
    /// Whether this transform handles a file at `path`.
    pub fn handles_path(&self, path: &str) -> (r: bool)
        ensures
            r == handles(*self, path@),
    {
        match self {
            Transform::MinifyJson => is_json_like(path),
            Transform::MinifyYaml => is_yaml_like(path),
            Transform::StripShaders => is_shader_like(path),
            Transform::RecompressPng => is_png_like(path),
        }
    }

    /// Whether this transform's files may be processed concurrently.
    pub fn runs_in_parallel(&self) -> (r: bool)
        ensures
            r == parallel(*self),
    {
        match self {
            Transform::RecompressPng => false,
            _ => true,
        }
    }
}

/// The paths of the files among `items` that the transform handles, in order.
pub open spec fn selected(items: Seq<TreeEntry>, t: Transform) -> Seq<Seq<char>>
    decreases items.len(),
{
    if items.len() == 0 {
        Seq::empty()
    } else {
        let r = selected(items.drop_last(), t);
        let e = items.last();
        if !e.is_dir && handles(t, e.path@) {
            r.push(e.path@)
        } else {
            r
        }
    }
}

/// The texts of the strings.
pub open spec fn views_of(v: Seq<String>) -> Seq<Seq<char>> {
    v.map_values(|s: String| s@)
}

/// The files among `items` that transform `t` handles, in traversal order.
pub fn select_files(items: &Vec<TreeEntry>, t: Transform) -> (r: Vec<String>)
    ensures
        views_of(r@) == selected(items@, t),
{
    let mut r: Vec<String> = Vec::new();
    let mut i: usize = 0;
    while i < items.len()
        invariant
            i <= items@.len(),
            views_of(r@) == selected(items@.subrange(0, i as int), t),
        decreases items@.len() - i,
    {
        let e = &items[i];
        assert(items@.subrange(0, i + 1).drop_last() =~= items@.subrange(0, i as int));
        if !e.is_dir && t.handles_path(e.path.as_str()) {
            r.push(e.path.clone());
        }
        i = i + 1;
        assert(views_of(r@) =~= selected(items@.subrange(0, i as int), t));
    }
    assert(items@.subrange(0, items@.len() as int) =~= items@);
    r
}

/// One step of a clone: create a directory, or copy a file from the first path
/// to the second.
pub enum CopyOp {
    MakeDir(String),
    CopyFile(String, String),
}

impl CopyOp {
    /// `(is a directory, source path, destination path)`; a directory's source is empty.
    pub open spec fn view(&self) -> (bool, Seq<char>, Seq<char>) {
        match self {
            CopyOp::MakeDir(d) => (true, Seq::empty(), d@),
            CopyOp::CopyFile(s, d) => (false, s@, d@),
        }
    }
}

/// The views of the steps.
pub open spec fn ops_view(v: Seq<CopyOp>) -> Seq<(bool, Seq<char>, Seq<char>)> {
    v.map_values(|o: CopyOp| o@)
}

/// Whether a clone keeps the entry: every directory, and every file that the
/// exclusion (when applied) does not drop.
pub open spec fn clone_keeps(e: TreeEntry, filtered: bool) -> bool {
    e.is_dir || !filtered || kept_by_clone(e.path@)
}

/// The steps that mirror `items` (found under `source`) under `dest`; `None`
/// when an entry does not lie under `source`.
pub open spec fn clone_plan(
    items: Seq<TreeEntry>,
    source: Seq<char>,
    dest: Seq<char>,
    filtered: bool,
) -> Option<Seq<(bool, Seq<char>, Seq<char>)>>
    decreases items.len(),
{
    if items.len() == 0 {
        Some(Seq::empty())
    } else {
        match clone_plan(items.drop_last(), source, dest, filtered) {
            None => None,
            Some(r) => {
                let e = items.last();
                match rebased(e.path@, source, dest) {
                    None => None,
                    Some(d) => if e.is_dir {
                        Some(r.push((true, Seq::empty(), d)))
                    } else if clone_keeps(e, filtered) {
                        Some(r.push((false, e.path@, d)))
                    } else {
                        Some(r)
                    },
                }
            },
        }
    }
}

/// The steps of a clone of `items`, found under `source`, into `dest`: each
/// directory is created (so that empty ones survive), and each file is copied to
/// the same relative path unless `filtered` is set and the file is documentation
/// or a backup.
pub fn plan_clone(items: &Vec<TreeEntry>, source: &str, dest: &str, filtered: bool) -> (r:
    Option<Vec<CopyOp>>)
    ensures
        match clone_plan(items@, source@, dest@, filtered) {
            Some(p) => r is Some && ops_view(r->Some_0@) == p,
            None => r is None,
        },
{
    let mut r: Vec<CopyOp> = Vec::new();
    let mut i: usize = 0;
    while i < items.len()
        invariant
            i <= items@.len(),
            clone_plan(items@.subrange(0, i as int), source@, dest@, filtered) == Some(
                ops_view(r@),
            ),
        decreases items@.len() - i,
    {
        let e = &items[i];
        assert(items@.subrange(0, i + 1).drop_last() =~= items@.subrange(0, i as int));
        assert(items@.subrange(0, i + 1).last() == items@[i as int]);
        match rebase(e.path.as_str(), source, dest) {
            None => {
                proof {
                    lemma_clone_plan_none_extends(items@, source@, dest@, filtered, i as int + 1);
                }
                return None;
            },
            Some(d) => {
                if e.is_dir {
                    r.push(CopyOp::MakeDir(d));
                } else if !filtered || is_kept_by_clone(e.path.as_str()) {
                    r.push(CopyOp::CopyFile(e.path.clone(), d));
                }
            },
        }
        i = i + 1;
        assert(Some(ops_view(r@)) =~= clone_plan(
            items@.subrange(0, i as int),
            source@,
            dest@,
            filtered,
        ));
    }
    assert(items@.subrange(0, items@.len() as int) =~= items@);
    Some(r)
}

proof fn lemma_clone_plan_none_extends(
    items: Seq<TreeEntry>,
    source: Seq<char>,
    dest: Seq<char>,
    filtered: bool,
    k: int,
)
    requires
        0 < k <= items.len(),
        clone_plan(items.subrange(0, k), source, dest, filtered) is None,
    ensures
        clone_plan(items, source, dest, filtered) is None,
    decreases items.len() - k,
{
    if k < items.len() {
        assert(items.subrange(0, k + 1).drop_last() =~= items.subrange(0, k));
        lemma_clone_plan_none_extends(items, source, dest, filtered, k + 1);
    } else {
        assert(items.subrange(0, k) =~= items);
    }
}

/// The step that a kept entry becomes in a clone.
pub open spec fn op_for(e: TreeEntry, source: Seq<char>, dest: Seq<char>) -> (
    bool,
    Seq<char>,
    Seq<char>,
) {
    (e.is_dir, if e.is_dir {
        Seq::empty()
    } else {
        e.path@
    }, rebased(e.path@, source, dest)->Some_0)
}

/// Whether `op` is the step of some entry that the clone keeps.
pub open spec fn step_of_kept(
    items: Seq<TreeEntry>,
    source: Seq<char>,
    dest: Seq<char>,
    filtered: bool,
    op: (bool, Seq<char>, Seq<char>),
) -> bool {
    exists|k: int|
        0 <= k < items.len() && clone_keeps(#[trigger] items[k], filtered) && op == op_for(
            items[k],
            source,
            dest,
        )
}

/// Whether the plan holds the step `op`.
pub open spec fn has_step(p: Seq<(bool, Seq<char>, Seq<char>)>, op: (bool, Seq<char>, Seq<char>)) -> bool {
    exists|j: int| 0 <= j < p.len() && #[trigger] p[j] == op
}

/// A clone mirrors the tree: every directory, and every file that the exclusion
/// keeps, has a step at the same relative path under `dest`; and every step
/// comes from such an entry.
pub proof fn lemma_clone_mirrors(
    items: Seq<TreeEntry>,
    source: Seq<char>,
    dest: Seq<char>,
    filtered: bool,
)
    requires
        clone_plan(items, source, dest, filtered) is Some,
    ensures
        forall|k: int|
            0 <= k < items.len() ==> rebased(#[trigger] items[k].path@, source, dest) is Some,
        forall|k: int|
            0 <= k < items.len() && clone_keeps(#[trigger] items[k], filtered) ==> has_step(
                clone_plan(items, source, dest, filtered)->Some_0,
                op_for(items[k], source, dest),
            ),
        forall|j: int|
            0 <= j < clone_plan(items, source, dest, filtered)->Some_0.len() ==> step_of_kept(
                items,
                source,
                dest,
                filtered,
                #[trigger] clone_plan(items, source, dest, filtered)->Some_0[j],
            ),
    decreases items.len(),
{
    if items.len() > 0 {
        let q = items.drop_last();
        lemma_clone_mirrors(q, source, dest, filtered);
        let r = clone_plan(q, source, dest, filtered)->Some_0;
        let p = clone_plan(items, source, dest, filtered)->Some_0;
        let e = items.last();
        let n = items.len() - 1;
        assert(items[n] == e);
        assert forall|k: int| 0 <= k < items.len() implies rebased(
            #[trigger] items[k].path@,
            source,
            dest,
        ) is Some by {
            if k < n {
                assert(items[k] == q[k]);
            }
        }
        assert forall|k: int|
            0 <= k < items.len() && clone_keeps(#[trigger] items[k], filtered) implies has_step(
            p,
            op_for(items[k], source, dest),
        ) by {
            if k < n {
                assert(items[k] == q[k]);
                assert(clone_keeps(q[k], filtered));
                assert(has_step(r, op_for(q[k], source, dest)));
                let j = choose|j: int|
                    0 <= j < r.len() && #[trigger] r[j] == op_for(q[k], source, dest);
                assert(p[j] == r[j]);
            } else {
                assert(p[r.len() as int] == op_for(e, source, dest));
            }
        }
        assert forall|j: int| 0 <= j < p.len() implies step_of_kept(
            items,
            source,
            dest,
            filtered,
            #[trigger] p[j],
        ) by {
            if j < r.len() {
                assert(p[j] == r[j]);
                assert(step_of_kept(q, source, dest, filtered, r[j]));
                let k = choose|k: int|
                    0 <= k < q.len() && clone_keeps(#[trigger] q[k], filtered) && r[j] == op_for(
                        q[k],
                        source,
                        dest,
                    );
                assert(items[k] == q[k]);
            } else {
                assert(clone_keeps(items[n], filtered));
            }
        }
    }
}

/// The files that an archive of `items` stores, as (name inside the archive,
/// full path): every file but the archive itself, named by its path relative to
/// `root`; `None` when such a file does not lie under `root`.
pub open spec fn archive_plan(items: Seq<TreeEntry>, root: Seq<char>, archive: Seq<char>) -> Option<
    Seq<(Seq<char>, Seq<char>)>,
>
    decreases items.len(),
{
    if items.len() == 0 {
        Some(Seq::empty())
    } else {
        match archive_plan(items.drop_last(), root, archive) {
            None => None,
            Some(r) => {
                let e = items.last();
                if e.is_dir || relative_of(e.path@, archive) == Some(Seq::<char>::empty()) {
                    Some(r)
                } else {
                    match relative_of(e.path@, root) {
                        None => None,
                        Some(name) => Some(r.push((name, e.path@))),
                    }
                }
            },
        }
    }
}

/// How many of `items` are files other than the archive itself.
pub open spec fn member_count(items: Seq<TreeEntry>, archive: Seq<char>) -> nat
    decreases items.len(),
{
    if items.len() == 0 {
        0
    } else {
        member_count(items.drop_last(), archive) + if items.last().is_dir || relative_of(
            items.last().path@,
            archive,
        ) == Some(Seq::<char>::empty()) {
            0nat
        } else {
            1nat
        }
    }
}

/// The texts of the (name, path) pairs.
pub open spec fn pairs_view(v: Seq<(String, String)>) -> Seq<(Seq<char>, Seq<char>)> {
    v.map_values(|p: (String, String)| (p.0@, p.1@))
}

/// The files to store when archiving `items`, found under `root`: each file
/// other than `archive` itself, paired with its name inside the archive.
pub fn plan_archive(items: &Vec<TreeEntry>, root: &str, archive: &str) -> (r: Option<
    Vec<(String, String)>,
>)
    ensures
        match archive_plan(items@, root@, archive@) {
            Some(p) => r is Some && pairs_view(r->Some_0@) == p,
            None => r is None,
        },
{
    let mut r: Vec<(String, String)> = Vec::new();
    let mut i: usize = 0;
    while i < items.len()
        invariant
            i <= items@.len(),
            archive_plan(items@.subrange(0, i as int), root@, archive@) == Some(pairs_view(r@)),
        decreases items@.len() - i,
    {
        let e = &items[i];
        assert(items@.subrange(0, i + 1).drop_last() =~= items@.subrange(0, i as int));
        assert(items@.subrange(0, i + 1).last() == items@[i as int]);
        if !e.is_dir && !same_path(e.path.as_str(), archive) {
            match relative_path(e.path.as_str(), root) {
                None => {
                    proof {
                        lemma_archive_plan_none_extends(items@, root@, archive@, i as int + 1);
                    }
                    return None;
                },
                Some(name) => {
                    r.push((name, e.path.clone()));
                },
            }
        }
        i = i + 1;
        assert(Some(pairs_view(r@)) =~= archive_plan(items@.subrange(0, i as int), root@, archive@));
    }
    assert(items@.subrange(0, items@.len() as int) =~= items@);
    Some(r)
}

proof fn lemma_archive_plan_none_extends(
    items: Seq<TreeEntry>,
    root: Seq<char>,
    archive: Seq<char>,
    k: int,
)
    requires
        0 < k <= items.len(),
        archive_plan(items.subrange(0, k), root, archive) is None,
    ensures
        archive_plan(items, root, archive) is None,
    decreases items.len() - k,
{
    if k < items.len() {
        assert(items.subrange(0, k + 1).drop_last() =~= items.subrange(0, k));
        lemma_archive_plan_none_extends(items, root, archive, k + 1);
    } else {
        assert(items.subrange(0, k) =~= items);
    }
}

/// An archive stores one entry per file of the tree (directories and the archive
/// itself excepted), each named by the file's path relative to the root.
pub proof fn lemma_archive_members(items: Seq<TreeEntry>, root: Seq<char>, archive: Seq<char>)
    requires
        archive_plan(items, root, archive) is Some,
    ensures
        archive_plan(items, root, archive)->Some_0.len() == member_count(items, archive),
        forall|j: int|
            0 <= j < archive_plan(items, root, archive)->Some_0.len() ==> relative_of(
                #[trigger] archive_plan(items, root, archive)->Some_0[j].1,
                root,
            ) == Some(archive_plan(items, root, archive)->Some_0[j].0),
    decreases items.len(),
{
    if items.len() > 0 {
        let q = items.drop_last();
        lemma_archive_members(q, root, archive);
        let r = archive_plan(q, root, archive)->Some_0;
        let p = archive_plan(items, root, archive)->Some_0;
        assert forall|j: int| 0 <= j < p.len() implies relative_of(#[trigger] p[j].1, root) == Some(
            p[j].0,
        ) by {
            if j < r.len() {
                assert(p[j] == r[j]);
            }
        }
    }
}

} // verus!
