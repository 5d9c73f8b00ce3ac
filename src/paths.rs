//! Paths as `/`-separated text compared by components, and the mapping of an
//! entry under one root to the same relative place under another.
//!
//! Empty components (from repeated or trailing separators) and `.` components
//! are ignored; a
//! leading separator makes a path absolute.
use vstd::prelude::*;
use crate::text::{chars_of, string_of};

verus! {

/// The text split at every `'/'` (an empty text is one empty piece).
pub open spec fn pieces(s: Seq<char>) -> Seq<Seq<char>>
    decreases s.len(),
{
    if s.len() == 0 {
        seq![Seq::empty()]
    } else {
        let r = pieces(s.drop_last());
        if s.last() == '/' {
            r.push(Seq::empty())
        } else {
            r.update(r.len() - 1, r.last().push(s.last()))
        }
    }
}

/// Whether a piece names nothing: it is empty, or `.` (the directory itself).
pub open spec fn skipped(c: Seq<char>) -> bool {
    c.len() == 0 || c == seq!['.']
}

/// The pieces that name something, in order.
pub open spec fn named_only(ps: Seq<Seq<char>>) -> Seq<Seq<char>>
    decreases ps.len(),
{
    if ps.len() == 0 {
        Seq::empty()
    } else if skipped(ps.last()) {
        named_only(ps.drop_last())
    } else {
        named_only(ps.drop_last()).push(ps.last())
    }
}

/// The components of a path.
pub open spec fn components(s: Seq<char>) -> Seq<Seq<char>> {
    named_only(pieces(s))
}

/// Whether the path starts at the root of the file system.
pub open spec fn absolute(s: Seq<char>) -> bool {
    s.len() > 0 && s[0] == '/'
}

/// Components joined with single separators.
pub open spec fn join_components(cs: Seq<Seq<char>>) -> Seq<char>
    decreases cs.len(),
{
    if cs.len() == 0 {
        Seq::empty()
    } else if cs.len() == 1 {
        cs[0]
    } else {
        join_components(cs.drop_last()) + seq!['/'] + cs.last()
    }
}

/// The path of `entry` relative to `root`, if `entry` is `root` itself (`Some` of
/// the empty text) or lies below it, compared component by component.
pub open spec fn relative_of(entry: Seq<char>, root: Seq<char>) -> Option<Seq<char>> {
    let ce = components(entry);
    let cr = components(root);
    if absolute(entry) == absolute(root) && cr.len() <= ce.len() && ce.subrange(0, cr.len() as int)
        == cr {
        Some(join_components(ce.subrange(cr.len() as int, ce.len() as int)))
    } else {
        None
    }
}

/// `rel` joined onto `root`.
pub open spec fn joined(root: Seq<char>, rel: Seq<char>) -> Seq<char> {
    if rel.len() == 0 {
        root
    } else if root.len() == 0 {
        rel
    } else {
        root + seq!['/'] + rel
    }
}

/// Where an entry under `source` goes under `dest`.
pub open spec fn rebased(entry: Seq<char>, source: Seq<char>, dest: Seq<char>) -> Option<
    Seq<char>,
> {
    match relative_of(entry, source) {
        Some(rel) => Some(joined(dest, rel)),
        None => None,
    }
}

/// A component as paths hold it: naming something, without a separator.
pub open spec fn proper(c: Seq<char>) -> bool {
    !skipped(c) && forall|j: int| 0 <= j < c.len() ==> c[j] != '/'
}

/// The texts of the character vectors.
pub open spec fn cviews(v: Seq<Vec<char>>) -> Seq<Seq<char>> {
    v.map_values(|x: Vec<char>| x@)
}

proof fn lemma_named_push(ps: Seq<Seq<char>>, x: Seq<char>)
    ensures
        named_only(ps.push(x)) == (if skipped(x) {
            named_only(ps)
        } else {
            named_only(ps).push(x)
        }),
{
    assert(ps.push(x).drop_last() =~= ps);
}

fn is_skipped(c: &Vec<char>) -> (r: bool)
    ensures
        r == skipped(c@),
{
    if c.len() == 0 {
        return true;
    }
    if c.len() == 1 && c[0] == '.' {
        assert(c@ =~= seq!['.']);
        return true;
    }
    assert(c@.len() != 1 || c@[0] != '.');
    false
}

fn components_exec(v: &Vec<char>) -> (r: Vec<Vec<char>>)
    ensures
        cviews(r@) == components(v@),
{
    let n = v.len();
    let mut out: Vec<Vec<char>> = Vec::new();
    let mut cur: Vec<char> = Vec::new();
    let ghost mut done: Seq<Seq<char>> = Seq::empty();
    let mut i: usize = 0;
    while i < n
        invariant
            n == v@.len(),
            i <= n,
            pieces(v@.subrange(0, i as int)) == done.push(cur@),
            cviews(out@) == named_only(done),
        decreases n - i,
    {
        let c = v[i];
        assert(v@.subrange(0, i + 1).drop_last() =~= v@.subrange(0, i as int));
        if c == '/' {
            proof {
                lemma_named_push(done, cur@);
            }
            if !is_skipped(&cur) {
                out.push(cur);
                assert(cviews(out@) =~= named_only(done.push(cur@)));
            }
            proof {
                done = done.push(cur@);
            }
            cur = Vec::new();
            assert(pieces(v@.subrange(0, i + 1)) =~= done.push(cur@));
        } else {
            let ghost prev = cur@;
            cur.push(c);
            assert(pieces(v@.subrange(0, i + 1)) =~= done.push(cur@)) by {
                assert(done.push(prev).last() == prev);
            }
        }
        i = i + 1;
    }
    assert(v@.subrange(0, n as int) =~= v@);
    proof {
        lemma_named_push(done, cur@);
    }
    if !is_skipped(&cur) {
        let ghost before = out@;
        out.push(cur);
        assert(cviews(out@) =~= cviews(before).push(cur@));
    }
    out
}

fn same_chars(a: &Vec<char>, b: &Vec<char>) -> (r: bool)
    ensures
        r == (a@ == b@),
{
    if a.len() != b.len() {
        return false;
    }
    let mut i: usize = 0;
    while i < a.len()
        invariant
            a@.len() == b@.len(),
            i <= a@.len(),
            forall|j: int| 0 <= j < i ==> a@[j] == b@[j],
        decreases a@.len() - i,
    {
        if a[i] != b[i] {
            return false;
        }
        i = i + 1;
    }
    assert(a@ =~= b@);
    true
}

fn push_all(out: &mut Vec<char>, v: &Vec<char>)
    ensures
        final(out)@ == old(out)@ + v@,
{
    let ghost before = out@;
    let mut k: usize = 0;
    while k < v.len()
        invariant
            k <= v@.len(),
            out@ == before + v@.subrange(0, k as int),
        decreases v@.len() - k,
    {
        out.push(v[k]);
        k = k + 1;
        assert(out@ =~= before + v@.subrange(0, k as int));
    }
    assert(v@.subrange(0, v@.len() as int) =~= v@);
}

proof fn lemma_join_push(cs: Seq<Seq<char>>, y: Seq<char>)
    ensures
        join_components(cs.push(y)) == (if cs.len() == 0 {
            y
        } else {
            join_components(cs) + seq!['/'] + y
        }),
{
    assert(cs.push(y).drop_last() =~= cs);
}

fn relative_chars(e: &Vec<char>, r: &Vec<char>) -> (res: Option<Vec<char>>)
    ensures
        match relative_of(e@, r@) {
            Some(rel) => res is Some && res->Some_0@ == rel,
            None => res is None,
        },
{
    let abs_e = e.len() > 0 && e[0] == '/';
    let abs_r = r.len() > 0 && r[0] == '/';
    if abs_e != abs_r {
        return None;
    }
    let ce = components_exec(e);
    let cr = components_exec(r);
    assert(cviews(ce@).len() == ce@.len() && cviews(cr@).len() == cr@.len());
    if cr.len() > ce.len() {
        return None;
    }
    let mut i: usize = 0;
    while i < cr.len()
        invariant
            cr@.len() <= ce@.len(),
            i <= cr@.len(),
            cviews(ce@) == components(e@),
            cviews(cr@) == components(r@),
            absolute(e@) == absolute(r@),
            forall|j: int| 0 <= j < i ==> ce@[j]@ == cr@[j]@,
        decreases cr@.len() - i,
    {
        if !same_chars(&ce[i], &cr[i]) {
            assert(cviews(ce@).subrange(0, cr@.len() as int)[i as int] != cviews(cr@)[i as int]);
            return None;
        }
        i = i + 1;
    }
    assert(cviews(ce@).subrange(0, cr@.len() as int) =~= cviews(cr@));
    let ghost tail = cviews(ce@).subrange(cr@.len() as int, ce@.len() as int);
    let mut out: Vec<char> = Vec::new();
    let mut k: usize = cr.len();
    while k < ce.len()
        invariant
            cr@.len() <= k <= ce@.len(),
            cviews(ce@) == components(e@),
            cviews(cr@) == components(r@),
            tail == cviews(ce@).subrange(cr@.len() as int, ce@.len() as int),
            out@ == join_components(cviews(ce@).subrange(cr@.len() as int, k as int)),
        decreases ce@.len() - k,
    {
        let ghost sub = cviews(ce@).subrange(cr@.len() as int, k as int);
        proof {
            lemma_join_push(sub, ce@[k as int]@);
        }
        assert(cviews(ce@).subrange(cr@.len() as int, k + 1) =~= sub.push(ce@[k as int]@));
        if k > cr.len() {
            out.push('/');
        }
        push_all(&mut out, &ce[k]);
        k = k + 1;
    }
    Some(out)
}

/// The path of `entry` relative to `root`: `Some("")` when they are the same
/// path, `None` when `entry` does not lie under `root`.
pub fn relative_path(entry: &str, root: &str) -> (res: Option<String>)
    ensures
        match relative_of(entry@, root@) {
            Some(rel) => res is Some && res->Some_0@ == rel,
            None => res is None,
        },
{
    let e = chars_of(entry);
    let r = chars_of(root);
    match relative_chars(&e, &r) {
        Some(v) => Some(string_of(&v)),
        None => None,
    }
}

/// Whether `inner` is `outer` itself or lies below it.
pub fn is_within(inner: &str, outer: &str) -> (r: bool)
    ensures
        r == (relative_of(inner@, outer@) is Some),
{
    let e = chars_of(inner);
    let o = chars_of(outer);
    relative_chars(&e, &o).is_some()
}

/// Whether the two texts name the same path.
pub fn same_path(a: &str, b: &str) -> (r: bool)
    ensures
        r == (relative_of(a@, b@) == Some(Seq::<char>::empty())),
{
    let x = chars_of(a);
    let y = chars_of(b);
    match relative_chars(&x, &y) {
        Some(rel) => {
            if rel.len() == 0 {
                assert(rel@ =~= Seq::<char>::empty());
            }
            rel.len() == 0
        },
        None => false,
    }
}

/// The destination of `entry` (which lies under `source`) under `dest`, at the
/// same relative path; `None` when `entry` does not lie under `source`.
pub fn rebase(entry: &str, source: &str, dest: &str) -> (res: Option<String>)
    ensures
        match rebased(entry@, source@, dest@) {
            Some(p) => res is Some && res->Some_0@ == p,
            None => res is None,
        },
{
    let e = chars_of(entry);
    let s = chars_of(source);
    match relative_chars(&e, &s) {
        None => None,
        Some(rel) => {
            let d = chars_of(dest);
            if rel.len() == 0 {
                return Some(string_of(&d));
            }
            if d.len() == 0 {
                return Some(string_of(&rel));
            }
            let mut out: Vec<char> = Vec::new();
            push_all(&mut out, &d);
            out.push('/');
            push_all(&mut out, &rel);
            Some(string_of(&out))
        },
    }
}

proof fn lemma_pieces_nonempty(s: Seq<char>)
    ensures
        pieces(s).len() >= 1,
    decreases s.len(),
{
    if s.len() > 0 {
        lemma_pieces_nonempty(s.drop_last());
    }
}

proof fn lemma_pieces_concat(x: Seq<char>, y: Seq<char>)
    ensures
        pieces(x + seq!['/'] + y) == pieces(x) + pieces(y),
    decreases y.len(),
{
    let z = x + seq!['/'] + y;
    if y.len() == 0 {
        assert(z.drop_last() =~= x);
        assert(pieces(z) =~= pieces(x) + pieces(y));
    } else {
        let y2 = y.drop_last();
        lemma_pieces_concat(x, y2);
        lemma_pieces_nonempty(y2);
        assert(z.drop_last() =~= x + seq!['/'] + y2);
        assert(z.last() == y.last());
        assert(pieces(z) =~= pieces(x) + pieces(y));
    }
}

proof fn lemma_named_concat(a: Seq<Seq<char>>, b: Seq<Seq<char>>)
    ensures
        named_only(a + b) == named_only(a) + named_only(b),
    decreases b.len(),
{
    if b.len() == 0 {
        assert(a + b =~= a);
        assert(named_only(a) + named_only(b) =~= named_only(a));
    } else {
        lemma_named_concat(a, b.drop_last());
        assert((a + b).drop_last() =~= a + b.drop_last());
        assert((a + b).last() == b.last());
        if skipped(b.last()) {
        } else {
            assert(named_only(a + b) =~= named_only(a) + named_only(b));
        }
    }
}

proof fn lemma_pieces_single(y: Seq<char>)
    requires
        forall|j: int| 0 <= j < y.len() ==> y[j] != '/',
    ensures
        pieces(y) == seq![y],
    decreases y.len(),
{
    if y.len() > 0 {
        let p = y.drop_last();
        assert forall|j: int| 0 <= j < p.len() implies p[j] != '/' by {
            assert(p[j] == y[j]);
        }
        lemma_pieces_single(p);
        assert(y[y.len() - 1] != '/');
        assert(p.push(y.last()) =~= y);
        assert(pieces(y) =~= seq![y]);
    } else {
        assert(y =~= Seq::<char>::empty());
        assert(pieces(y) =~= seq![y]);
    }
}

proof fn lemma_components_empty()
    ensures
        components(Seq::<char>::empty()) == Seq::<Seq<char>>::empty(),
{
    let e = seq![Seq::<char>::empty()];
    assert(pieces(Seq::<char>::empty()) == e);
    assert(e.drop_last() =~= Seq::<Seq<char>>::empty());
    assert(e.last().len() == 0);
    assert(named_only(e) == named_only(e.drop_last()));
}

proof fn lemma_components_single(y: Seq<char>)
    requires
        proper(y),
    ensures
        components(y) == seq![y],
{
    lemma_pieces_single(y);
    assert(seq![y].drop_last() =~= Seq::<Seq<char>>::empty());
    assert(seq![y].last() == y);
    assert(named_only(Seq::<Seq<char>>::empty()) == Seq::<Seq<char>>::empty());
    assert(components(y) =~= seq![y]);
}

proof fn lemma_components_append(x: Seq<char>, y: Seq<char>)
    ensures
        components(x + seq!['/'] + y) == components(x) + components(y),
{
    lemma_pieces_concat(x, y);
    lemma_named_concat(pieces(x), pieces(y));
}

proof fn lemma_components_of_join(cs: Seq<Seq<char>>)
    requires
        forall|k: int| 0 <= k < cs.len() ==> proper(#[trigger] cs[k]),
    ensures
        components(join_components(cs)) == cs,
        cs.len() > 0 ==> join_components(cs).len() > 0 && join_components(cs)[0] != '/',
    decreases cs.len(),
{
    if cs.len() == 0 {
        assert(pieces(Seq::<char>::empty()) =~= seq![Seq::<char>::empty()]);
        lemma_components_empty();
        assert(components(Seq::<char>::empty()) =~= cs);
    } else if cs.len() == 1 {
        assert(proper(cs[0]));
        lemma_components_single(cs[0]);
        assert(seq![cs[0]] =~= cs);
    } else {
        let p = cs.drop_last();
        assert forall|k: int| 0 <= k < p.len() implies proper(#[trigger] p[k]) by {
            assert(p[k] == cs[k]);
        }
        lemma_components_of_join(p);
        assert(proper(cs[cs.len() - 1]));
        lemma_components_single(cs.last());
        lemma_components_append(join_components(p), cs.last());
        assert(p.push(cs.last()) =~= p + seq![cs.last()]);
        assert(p.push(cs.last()) =~= cs);
    }
}

proof fn lemma_pieces_no_sep(s: Seq<char>)
    ensures
        forall|k: int|
            0 <= k < pieces(s).len() ==> forall|j: int|
                0 <= j < (#[trigger] pieces(s)[k]).len() ==> pieces(s)[k][j] != '/',
    decreases s.len(),
{
    if s.len() > 0 {
        lemma_pieces_no_sep(s.drop_last());
        lemma_pieces_nonempty(s.drop_last());
        let r = pieces(s.drop_last());
        assert forall|k: int| 0 <= k < pieces(s).len() implies forall|j: int|
            0 <= j < (#[trigger] pieces(s)[k]).len() ==> pieces(s)[k][j] != '/' by {
            if s.last() != '/' && k == r.len() - 1 {
                assert(pieces(s)[k] == r[k].push(s.last()));
                assert forall|j: int| 0 <= j < pieces(s)[k].len() implies pieces(s)[k][j]
                    != '/' by {
                    if j < r[k].len() {
                        assert(pieces(s)[k][j] == r[k][j]);
                    }
                }
            } else if k < r.len() {
                assert(pieces(s)[k] == r[k]);
            }
        }
    }
}

proof fn lemma_named_proper(ps: Seq<Seq<char>>)
    requires
        forall|k: int|
            0 <= k < ps.len() ==> forall|j: int| 0 <= j < (#[trigger] ps[k]).len() ==> ps[k][j] != '/',
    ensures
        forall|k: int| 0 <= k < named_only(ps).len() ==> proper(#[trigger] named_only(ps)[k]),
    decreases ps.len(),
{
    if ps.len() > 0 {
        let p = ps.drop_last();
        assert forall|k: int| 0 <= k < p.len() implies forall|j: int|
            0 <= j < (#[trigger] p[k]).len() ==> p[k][j] != '/' by {
            assert(p[k] == ps[k]);
        }
        lemma_named_proper(p);
        assert(ps[ps.len() - 1] == ps.last());
        let r = named_only(p);
        if !skipped(ps.last()) {
            assert forall|k: int| 0 <= k < named_only(ps).len() implies proper(
                #[trigger] named_only(ps)[k],
            ) by {
                if k < r.len() {
                    assert(named_only(ps)[k] == r[k]);
                } else {
                    assert(named_only(ps)[k] == ps.last());
                }
            }
        }
    }
}

proof fn lemma_components_proper(s: Seq<char>)
    ensures
        forall|k: int| 0 <= k < components(s).len() ==> proper(#[trigger] components(s)[k]),
{
    lemma_pieces_no_sep(s);
    lemma_named_proper(pieces(s));
}

proof fn lemma_relative_of_joined(root: Seq<char>, tail: Seq<Seq<char>>)
    requires
        forall|k: int| 0 <= k < tail.len() ==> proper(#[trigger] tail[k]),
    ensures
        relative_of(joined(root, join_components(tail)), root) == Some(join_components(tail)),
        components(joined(root, join_components(tail))) == components(root) + tail,
{
    let rel = join_components(tail);
    let j = joined(root, rel);
    lemma_components_of_join(tail);
    let cr = components(root);
    if rel.len() == 0 {
        assert(components(root).subrange(0, cr.len() as int) =~= cr);
        assert(cr.subrange(cr.len() as int, cr.len() as int) =~= Seq::<Seq<char>>::empty());
        if tail.len() > 0 {
            assert(false);
        }
        assert(tail =~= Seq::<Seq<char>>::empty());
        assert(components(root) + tail =~= components(root));
    } else if root.len() == 0 {
        assert(root =~= Seq::<char>::empty());
        lemma_components_empty();
        assert(cr =~= Seq::<Seq<char>>::empty());
        assert(components(j).subrange(0, 0) =~= cr);
        assert(components(j).subrange(0, components(j).len() as int) =~= tail);
        assert(cr + tail =~= tail);
    } else {
        lemma_components_append(root, rel);
        assert(j[0] == root[0]);
        assert(components(j).subrange(0, cr.len() as int) =~= cr);
        assert(components(j).subrange(cr.len() as int, components(j).len() as int) =~= tail);
    }
}

/// The mapping from a source root to a destination root preserves structure:
/// the destination of an entry, read relative to the destination root, is the
/// entry's path relative to the source root; so two entries with the same
/// destination have the same relative path. Nesting is kept: the destination's
/// components are the destination root's followed by the entry's own below the
/// source root.
pub proof fn lemma_rebase_bijective(
    a: Seq<char>,
    b: Seq<char>,
    source: Seq<char>,
    dest: Seq<char>,
)
    requires
        relative_of(a, source) is Some,
        relative_of(b, source) is Some,
    ensures
        relative_of(rebased(a, source, dest)->Some_0, dest) == relative_of(a, source),
        rebased(a, source, dest) == rebased(b, source, dest) ==> relative_of(a, source)
            == relative_of(b, source),
        components(rebased(a, source, dest)->Some_0) == components(dest) + components(a).subrange(
            components(source).len() as int,
            components(a).len() as int,
        ),
{
    lemma_rebased_reads_back(a, source, dest);
    lemma_rebased_reads_back(b, source, dest);
}

proof fn lemma_rebased_reads_back(a: Seq<char>, source: Seq<char>, dest: Seq<char>)
    requires
        relative_of(a, source) is Some,
    ensures
        relative_of(rebased(a, source, dest)->Some_0, dest) == relative_of(a, source),
        components(rebased(a, source, dest)->Some_0) == components(dest) + components(a).subrange(
            components(source).len() as int,
            components(a).len() as int,
        ),
{
    let ce = components(a);
    let cr = components(source);
    let tail = ce.subrange(cr.len() as int, ce.len() as int);
    lemma_components_proper(a);
    assert forall|k: int| 0 <= k < tail.len() implies proper(#[trigger] tail[k]) by {
        assert(tail[k] == ce[cr.len() + k]);
    }
    lemma_relative_of_joined(dest, tail);
}

} // verus!
