//! Line-oriented removal of `//` comments and blank lines from shader sources.
//!
//! The strip is purely lexical: a `//` inside a string literal also starts a
//! comment, and block comments are left alone.
use vstd::prelude::*;
use crate::text::{chars_of, is_white_space, is_white_space_char, string_of};

verus! {

/// Leading white space removed.
pub open spec fn trim_start(l: Seq<char>) -> Seq<char>
    decreases l.len(),
{
    if l.len() > 0 && is_white_space(l[0]) {
        trim_start(l.drop_first())
    } else {
        l
    }
}

/// Trailing white space removed.
pub open spec fn trim_end(l: Seq<char>) -> Seq<char>
    decreases l.len(),
{
    if l.len() > 0 && is_white_space(l.last()) {
        trim_end(l.drop_last())
    } else {
        l
    }
}

/// White space removed from both ends.
pub open spec fn trim(l: Seq<char>) -> Seq<char> {
    trim_end(trim_start(l))
}

/// Whether a line comment opens at position `i` of `l`.
pub open spec fn comment_at(l: Seq<char>, i: int) -> bool {
    0 <= i && i + 1 < l.len() && l[i] == '/' && l[i + 1] == '/'
}

/// The first position at or after `i` where a line comment opens, or `l.len()` if none does.
pub open spec fn comment_start(l: Seq<char>, i: int) -> int
    decreases l.len() - i,
{
    if i < 0 || i + 1 >= l.len() {
        l.len() as int
    } else if comment_at(l, i) {
        i
    } else {
        comment_start(l, i + 1)
    }
}

/// The part of a line before its first `//`.
pub open spec fn code_part(l: Seq<char>) -> Seq<char> {
    l.subrange(0, comment_start(l, 0))
}

/// A line with its comment cut off and the rest trimmed.
pub open spec fn strip_line(l: Seq<char>) -> Seq<char> {
    trim(code_part(l))
}

/// The lines of `s`, split at every `'\n'` (an empty text has one empty line).
pub open spec fn split_lines(s: Seq<char>) -> Seq<Seq<char>>
    decreases s.len(),
{
    if s.len() == 0 {
        seq![Seq::empty()]
    } else {
        let r = split_lines(s.drop_last());
        if s.last() == '\n' {
            r.push(Seq::empty())
        } else {
            r.update(r.len() - 1, r.last().push(s.last()))
        }
    }
}

/// Each line stripped, the lines left empty dropped.
pub open spec fn strip_all(ls: Seq<Seq<char>>) -> Seq<Seq<char>>
    decreases ls.len(),
{
    if ls.len() == 0 {
        Seq::empty()
    } else {
        let r = strip_all(ls.drop_last());
        let t = strip_line(ls.last());
        if t.len() == 0 {
            r
        } else {
            r.push(t)
        }
    }
}

/// The lines joined with single `'\n'` separators, with no trailing newline.
pub open spec fn join_lines(ls: Seq<Seq<char>>) -> Seq<char>
    decreases ls.len(),
{
    if ls.len() == 0 {
        Seq::empty()
    } else if ls.len() == 1 {
        ls[0]
    } else {
        join_lines(ls.drop_last()) + seq!['\n'] + ls.last()
    }
}

/// A shader source with comments and blank lines removed.
pub open spec fn stripped(s: Seq<char>) -> Seq<char> {
    join_lines(strip_all(split_lines(s)))
}

/// The line holds no `'\n'`.
pub open spec fn no_newline(l: Seq<char>) -> bool {
    forall|j: int| 0 <= j < l.len() ==> l[j] != '\n'
}

/// No line comment opens anywhere in the line.
pub open spec fn comment_free(l: Seq<char>) -> bool {
    forall|j: int| !comment_at(l, j)
}

/// A line as the strip leaves it: non-empty, trimmed, one line, without a comment.
pub open spec fn clean_line(l: Seq<char>) -> bool {
    &&& l.len() > 0
    &&& !is_white_space(l[0])
    &&& !is_white_space(l.last())
    &&& no_newline(l)
    &&& comment_free(l)
}

/// Every line of a non-empty text is non-empty and neither starts nor ends with
/// white space.
pub open spec fn no_blank_lines(t: Seq<char>) -> bool {
    t.len() > 0 ==> forall|k: int|
        0 <= k < split_lines(t).len() ==> #[trigger] split_lines(t)[k].len() > 0
            && !is_white_space(split_lines(t)[k][0]) && !is_white_space(
            split_lines(t)[k].last(),
        )
}

proof fn lemma_trim_start_shape(x: Seq<char>)
    ensures
        trim_start(x).len() <= x.len(),
        trim_start(x) == x.subrange(x.len() - trim_start(x).len(), x.len() as int),
        trim_start(x).len() > 0 ==> !is_white_space(trim_start(x)[0]),
    decreases x.len(),
{
    if x.len() > 0 && is_white_space(x[0]) {
        lemma_trim_start_shape(x.drop_first());
        assert(x.drop_first().subrange(
            x.drop_first().len() - trim_start(x).len(),
            x.drop_first().len() as int,
        ) =~= x.subrange(x.len() - trim_start(x).len(), x.len() as int));
    } else {
        assert(x.subrange(0, x.len() as int) =~= x);
    }
}

proof fn lemma_trim_end_shape(x: Seq<char>)
    ensures
        trim_end(x).len() <= x.len(),
        trim_end(x) == x.subrange(0, trim_end(x).len() as int),
        trim_end(x).len() > 0 ==> !is_white_space(trim_end(x).last()),
    decreases x.len(),
{
    if x.len() > 0 && is_white_space(x.last()) {
        lemma_trim_end_shape(x.drop_last());
        assert(x.drop_last().subrange(0, trim_end(x).len() as int) =~= x.subrange(
            0,
            trim_end(x).len() as int,
        ));
    } else {
        assert(x.subrange(0, x.len() as int) =~= x);
    }
}

proof fn lemma_comment_start(l: Seq<char>, i: int)
    requires
        0 <= i <= l.len(),
    ensures
        i <= comment_start(l, i) <= l.len(),
        comment_start(l, i) < l.len() ==> comment_at(l, comment_start(l, i)),
        forall|j: int| i <= j < comment_start(l, i) ==> !comment_at(l, j),
    decreases l.len() - i,
{
    if i + 1 >= l.len() {
    } else if comment_at(l, i) {
    } else {
        lemma_comment_start(l, i + 1);
    }
}

proof fn lemma_comment_free_start(l: Seq<char>, i: int)
    requires
        comment_free(l),
        0 <= i,
    ensures
        comment_start(l, i) == l.len(),
    decreases l.len() - i,
{
    if i + 1 >= l.len() {
    } else {
        assert(!comment_at(l, i));
        lemma_comment_free_start(l, i + 1);
    }
}

proof fn lemma_strip_line_clean(l: Seq<char>)
    requires
        no_newline(l),
    ensures
        strip_line(l).len() > 0 ==> clean_line(strip_line(l)),
{
    let cs = comment_start(l, 0);
    lemma_comment_start(l, 0);
    let code = code_part(l);
    let ts = trim_start(code);
    lemma_trim_start_shape(code);
    lemma_trim_end_shape(ts);
    let t = trim_end(ts);
    let off = code.len() - ts.len();
    if t.len() > 0 {
        assert(t[0] == ts[0]);
        assert forall|j: int| 0 <= j < t.len() implies t[j] == l[off + j] by {
            assert(t[j] == ts[j]);
            assert(ts[j] == code[off + j]);
        }
        assert forall|j: int| !comment_at(t, j) by {
            if comment_at(t, j) {
                assert(t[j] == l[off + j]);
                assert(t[j + 1] == l[off + j + 1]);
                assert(comment_at(l, off + j));
            }
        }
    }
}

proof fn lemma_clean_fixed(y: Seq<char>)
    requires
        clean_line(y),
    ensures
        strip_line(y) == y,
{
    lemma_comment_free_start(y, 0);
    assert(code_part(y) =~= y);
}

proof fn lemma_split_nonempty(s: Seq<char>)
    ensures
        split_lines(s).len() >= 1,
    decreases s.len(),
{
    if s.len() > 0 {
        lemma_split_nonempty(s.drop_last());
    }
}

proof fn lemma_split_no_newline(s: Seq<char>)
    ensures
        forall|k: int| 0 <= k < split_lines(s).len() ==> no_newline(#[trigger] split_lines(s)[k]),
    decreases s.len(),
{
    if s.len() > 0 {
        lemma_split_no_newline(s.drop_last());
        lemma_split_nonempty(s.drop_last());
        let r = split_lines(s.drop_last());
        if s.last() != '\n' {
            assert forall|k: int| 0 <= k < split_lines(s).len() implies no_newline(
                #[trigger] split_lines(s)[k],
            ) by {
                if k == r.len() - 1 {
                    assert(no_newline(r[k]));
                    assert(split_lines(s)[k] == r[k].push(s.last()));
                } else {
                    assert(split_lines(s)[k] == r[k]);
                }
            }
        } else {
            assert forall|k: int| 0 <= k < split_lines(s).len() implies no_newline(
                #[trigger] split_lines(s)[k],
            ) by {
                if k < r.len() {
                    assert(split_lines(s)[k] == r[k]);
                }
            }
        }
    }
}

proof fn lemma_strip_all_clean(ls: Seq<Seq<char>>)
    requires
        forall|k: int| 0 <= k < ls.len() ==> no_newline(#[trigger] ls[k]),
    ensures
        forall|k: int| 0 <= k < strip_all(ls).len() ==> clean_line(#[trigger] strip_all(ls)[k]),
    decreases ls.len(),
{
    if ls.len() > 0 {
        let p = ls.drop_last();
        assert forall|k: int| 0 <= k < p.len() implies no_newline(#[trigger] p[k]) by {
            assert(p[k] == ls[k]);
        }
        lemma_strip_all_clean(p);
        assert(no_newline(ls[ls.len() - 1]));
        lemma_strip_line_clean(ls.last());
        let r = strip_all(p);
        let t = strip_line(ls.last());
        assert(ls.drop_last() == p);
        if t.len() > 0 {
            assert forall|k: int| 0 <= k < strip_all(ls).len() implies clean_line(
                #[trigger] strip_all(ls)[k],
            ) by {
                if k < r.len() {
                    assert(strip_all(ls)[k] == r[k]);
                } else {
                    assert(strip_all(ls)[k] == t);
                }
            }
        }
    }
}

proof fn lemma_strip_all_fixed(ys: Seq<Seq<char>>)
    requires
        forall|k: int| 0 <= k < ys.len() ==> clean_line(#[trigger] ys[k]),
    ensures
        strip_all(ys) == ys,
    decreases ys.len(),
{
    if ys.len() > 0 {
        let p = ys.drop_last();
        assert forall|k: int| 0 <= k < p.len() implies clean_line(#[trigger] p[k]) by {
            assert(p[k] == ys[k]);
        }
        lemma_strip_all_fixed(p);
        assert(clean_line(ys[ys.len() - 1]));
        lemma_clean_fixed(ys.last());
        assert(p.push(ys.last()) =~= ys);
    }
}

proof fn lemma_split_single(y: Seq<char>)
    requires
        no_newline(y),
    ensures
        split_lines(y) == seq![y],
    decreases y.len(),
{
    if y.len() > 0 {
        let p = y.drop_last();
        assert forall|j: int| 0 <= j < p.len() implies p[j] != '\n' by {
            assert(p[j] == y[j]);
        }
        lemma_split_single(p);
        assert(y[y.len() - 1] != '\n');
        assert(p.push(y.last()) =~= y);
        let r = split_lines(p);
        assert(r.len() == 1);
        assert(split_lines(y) == r.update(0, r.last().push(y.last())));
        assert(split_lines(y) =~= seq![y]);
    } else {
        assert(y =~= Seq::<char>::empty());
        assert(split_lines(y) =~= seq![y]);
    }
}

proof fn lemma_split_append(x: Seq<char>, y: Seq<char>)
    requires
        no_newline(y),
    ensures
        split_lines(x + seq!['\n'] + y) == split_lines(x).push(y),
    decreases y.len(),
{
    let z = x + seq!['\n'] + y;
    if y.len() == 0 {
        assert(z.drop_last() =~= x);
        assert(y =~= Seq::<char>::empty());
    } else {
        let y2 = y.drop_last();
        lemma_split_append(x, y2);
        assert(z.drop_last() =~= x + seq!['\n'] + y2);
        assert(z.last() == y.last());
        assert(y2.push(y.last()) =~= y);
        assert(split_lines(z) =~= split_lines(x).push(y));
    }
}

proof fn lemma_split_join(ys: Seq<Seq<char>>)
    requires
        ys.len() > 0,
        forall|k: int| 0 <= k < ys.len() ==> no_newline(#[trigger] ys[k]),
    ensures
        split_lines(join_lines(ys)) == ys,
    decreases ys.len(),
{
    if ys.len() == 1 {
        assert(no_newline(ys[0]));
        lemma_split_single(ys[0]);
        assert(seq![ys[0]] =~= ys);
    } else {
        let p = ys.drop_last();
        assert forall|k: int| 0 <= k < p.len() implies no_newline(#[trigger] p[k]) by {
            assert(p[k] == ys[k]);
        }
        lemma_split_join(p);
        assert(no_newline(ys[ys.len() - 1]));
        lemma_split_append(join_lines(p), ys.last());
        assert(p.push(ys.last()) =~= ys);
    }
}

/// Stripping is idempotent, and its output never holds a blank or white-space-only
/// line, nor a line with white space at either end.
pub proof fn lemma_strip_idempotent(s: Seq<char>)
    ensures
        stripped(stripped(s)) == stripped(s),
        no_blank_lines(stripped(s)),
{
    let ys = strip_all(split_lines(s));
    lemma_split_no_newline(s);
    lemma_strip_all_clean(split_lines(s));
    if ys.len() == 0 {
        assert(split_lines(Seq::<char>::empty()) =~= seq![Seq::<char>::empty()]);
        let e = seq![Seq::<char>::empty()];
        assert(e.drop_last() =~= Seq::<Seq<char>>::empty());
        assert(comment_start(Seq::<char>::empty(), 0) == 0);
        assert(strip_line(Seq::<char>::empty()) =~= Seq::<char>::empty());
        assert(strip_all(e) == strip_all(e.drop_last()));
        assert(stripped(s) =~= Seq::<char>::empty());
    } else {
        assert forall|k: int| 0 <= k < ys.len() implies no_newline(#[trigger] ys[k]) by {
            assert(clean_line(ys[k]));
        }
        lemma_split_join(ys);
        lemma_strip_all_fixed(ys);
        assert(stripped(s) == join_lines(ys));
        assert(split_lines(stripped(s)) == ys);
        assert forall|k: int|
            0 <= k < split_lines(stripped(s)).len() implies #[trigger] split_lines(
            stripped(s),
        )[k].len() > 0 && !is_white_space(split_lines(stripped(s))[k][0]) && !is_white_space(
            split_lines(stripped(s))[k].last(),
        ) by {
            assert(clean_line(ys[k]));
        }
    }
}

fn strip_line_exec(l: &Vec<char>) -> (r: Vec<char>)
    ensures
        r@ == strip_line(l@),
{
    let n = l.len();
    let mut i: usize = 0;
    while i < n && i + 1 < n && !(l[i] == '/' && l[i + 1] == '/')
        invariant
            n == l@.len(),
            i <= n,
            comment_start(l@, 0) == comment_start(l@, i as int),
        decreases n - i,
    {
        i = i + 1;
    }
    let cs: usize = if i < n && i + 1 < n {
        i
    } else {
        n
    };
    assert(cs == comment_start(l@, 0));
    let ghost code = l@.subrange(0, cs as int);
    let mut a: usize = 0;
    while a < cs && is_white_space_char(l[a])
        invariant
            cs <= n == l@.len(),
            a <= cs,
            code == l@.subrange(0, cs as int),
            trim_start(code) == trim_start(l@.subrange(a as int, cs as int)),
        decreases cs - a,
    {
        assert(l@.subrange(a as int, cs as int).drop_first() =~= l@.subrange(
            a + 1,
            cs as int,
        ));
        a = a + 1;
    }
    let ghost ts = l@.subrange(a as int, cs as int);
    assert(trim_start(code) == ts);
    let mut b: usize = cs;
    while b > a && is_white_space_char(l[b - 1])
        invariant
            cs <= n == l@.len(),
            a <= b <= cs,
            ts == l@.subrange(a as int, cs as int),
            trim_end(ts) == trim_end(l@.subrange(a as int, b as int)),
        decreases b - a,
    {
        assert(l@.subrange(a as int, b as int).drop_last() =~= l@.subrange(
            a as int,
            b - 1,
        ));
        b = b - 1;
    }
    let mut r: Vec<char> = Vec::new();
    let mut k: usize = a;
    while k < b
        invariant
            a <= k <= b <= cs <= n == l@.len(),
            r@ == l@.subrange(a as int, k as int),
        decreases b - k,
    {
        r.push(l[k]);
        k = k + 1;
        assert(r@ =~= l@.subrange(a as int, k as int));
    }
    r
}

/// The characters of `l` with white space removed from both ends.
pub fn trim_chars(l: &Vec<char>) -> (r: Vec<char>)
    ensures
        r@ == trim(l@),
{
    let n = l.len();
    let mut a: usize = 0;
    assert(l@.subrange(0, n as int) =~= l@);
    while a < n && is_white_space_char(l[a])
        invariant
            n == l@.len(),
            a <= n,
            trim_start(l@) == trim_start(l@.subrange(a as int, n as int)),
        decreases n - a,
    {
        assert(l@.subrange(a as int, n as int).drop_first() =~= l@.subrange(a + 1, n as int));
        a = a + 1;
    }
    assert(l@.subrange(0, n as int) =~= l@);
    let ghost ts = l@.subrange(a as int, n as int);
    let mut b: usize = n;
    while b > a && is_white_space_char(l[b - 1])
        invariant
            n == l@.len(),
            a <= b <= n,
            ts == l@.subrange(a as int, n as int),
            trim_end(ts) == trim_end(l@.subrange(a as int, b as int)),
        decreases b - a,
    {
        assert(l@.subrange(a as int, b as int).drop_last() =~= l@.subrange(a as int, b - 1));
        b = b - 1;
    }
    let mut r: Vec<char> = Vec::new();
    let mut k: usize = a;
    while k < b
        invariant
            a <= k <= b <= n == l@.len(),
            r@ == l@.subrange(a as int, k as int),
        decreases b - k,
    {
        r.push(l[k]);
        k = k + 1;
        assert(r@ =~= l@.subrange(a as int, k as int));
    }
    r
}

proof fn lemma_strip_all_push(ls: Seq<Seq<char>>, x: Seq<char>)
    ensures
        strip_all(ls.push(x)) == (if strip_line(x).len() == 0 {
            strip_all(ls)
        } else {
            strip_all(ls).push(strip_line(x))
        }),
{
    assert(ls.push(x).drop_last() =~= ls);
}

proof fn lemma_join_push(ys: Seq<Seq<char>>, t: Seq<char>)
    ensures
        join_lines(ys.push(t)) == (if ys.len() == 0 {
            t
        } else {
            join_lines(ys) + seq!['\n'] + t
        }),
{
    assert(ys.push(t).drop_last() =~= ys);
}

/// Appends the stripped form of `line` to `out`, separated by a newline where `out`
/// already holds a line.
fn emit_line(out: &mut Vec<char>, started: &mut bool, line: &Vec<char>, Ghost(done): Ghost<
    Seq<Seq<char>>,
>)
    requires
        old(out)@ == join_lines(strip_all(done)),
        *old(started) == (strip_all(done).len() > 0),
    ensures
        final(out)@ == join_lines(strip_all(done.push(line@))),
        *final(started) == (strip_all(done.push(line@)).len() > 0),
{
    let t = strip_line_exec(line);
    proof {
        lemma_strip_all_push(done, line@);
        lemma_join_push(strip_all(done), t@);
    }
    if t.len() > 0 {
        if *started {
            out.push('\n');
        }
        let ghost before = out@;
        let mut k: usize = 0;
        while k < t.len()
            invariant
                k <= t@.len(),
                out@ == before + t@.subrange(0, k as int),
            decreases t@.len() - k,
        {
            out.push(t[k]);
            k = k + 1;
            assert(out@ =~= before + t@.subrange(0, k as int));
        }
        assert(t@.subrange(0, t@.len() as int) =~= t@);
        *started = true;
        proof {
            if strip_all(done).len() == 0 {
                assert(before =~= Seq::<char>::empty() + t@.subrange(0, 0));
                assert(out@ =~= t@);
            }
        }
    }
}

/// Removes line comments and blank lines from a shader source: each line is cut
/// at its first `//`, trimmed, and dropped if nothing is left; the survivors are
/// joined with `'\n'` and no trailing newline.
pub fn strip_shader_comments(source: &str) -> (r: String)
    ensures
        r@ == stripped(source@),
{
    let s = chars_of(source);
    let n = s.len();
    let mut out: Vec<char> = Vec::new();
    let mut started = false;
    let mut line: Vec<char> = Vec::new();
    let ghost mut done: Seq<Seq<char>> = Seq::empty();
    let mut i: usize = 0;
    while i < n
        invariant
            n == s@.len(),
            i <= n,
            split_lines(s@.subrange(0, i as int)) == done.push(line@),
            out@ == join_lines(strip_all(done)),
            started == (strip_all(done).len() > 0),
        decreases n - i,
    {
        let c = s[i];
        assert(s@.subrange(0, i + 1).drop_last() =~= s@.subrange(0, i as int));
        if c == '\n' {
            emit_line(&mut out, &mut started, &line, Ghost(done));
            proof {
                done = done.push(line@);
            }
            line = Vec::new();
            assert(split_lines(s@.subrange(0, i + 1)) =~= done.push(line@));
        } else {
            let ghost prev = line@;
            line.push(c);
            assert(split_lines(s@.subrange(0, i + 1)) =~= done.push(line@)) by {
                assert(done.push(prev).last() == prev);
            }
        }
        i = i + 1;
    }
    assert(s@.subrange(0, n as int) =~= s@);
    emit_line(&mut out, &mut started, &line, Ghost(done));
    string_of(&out)
}

} // verus!
