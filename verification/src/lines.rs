//! Facts about splitting text into lines ([`pieces`]) and trimming it,
//! used to reason about text that is put together from parts.

use vstd::prelude::*;
use crate::text::{content, content_end, is_space, not_space, pieces, scan_to, trim, trim_end, trim_start};

verus! {

/// One step of [`pieces`]: the lines after one more character.
pub open spec fn add_char(ps: Seq<Seq<char>>, c: char) -> Seq<Seq<char>> {
    if ps.len() == 0 || ps.last().len() == 0 || ps.last().last() == '\n' {
        ps.push(seq![c])
    } else {
        ps.update(ps.len() - 1, ps.last().push(c))
    }
}

/// `pieces` takes one character at a time.
pub proof fn lemma_pieces_step(t: Seq<char>)
    requires
        t.len() > 0,
    ensures
        pieces(t) == add_char(pieces(t.drop_last()), t.last()),
{
}

/// No line feed in `s`.
pub open spec fn no_line_feed(s: Seq<char>) -> bool {
    forall|j: int| 0 <= j < s.len() ==> #[trigger] s[j] != '\n'
}

/// The shape of the lines of a text: none is empty, every one but the
/// last ends with a line feed, none holds a line feed before its end, and
/// the last ends with the last character of the text.
pub open spec fn well_split(t: Seq<char>, ps: Seq<Seq<char>>) -> bool {
    &&& (t.len() == 0 <==> ps.len() == 0)
    &&& forall|i: int| 0 <= i < ps.len() ==> (#[trigger] ps[i]).len() > 0
    &&& forall|i: int| 0 <= i < ps.len() - 1 ==> (#[trigger] ps[i]).last() == '\n'
    &&& forall|i: int| 0 <= i < ps.len() ==> no_line_feed((#[trigger] ps[i]).drop_last())
    &&& (t.len() > 0 ==> ps.last().last() == t.last())
}

/// The lines of every text are well split.
pub proof fn lemma_pieces_shape(t: Seq<char>)
    ensures
        well_split(t, pieces(t)),
    decreases t.len(),
{
    if t.len() > 0 {
        let u = t.drop_last();
        lemma_pieces_shape(u);
        let ps = pieces(u);
        let c = t.last();
        let qs = pieces(t);
        if ps.len() == 0 || ps.last().len() == 0 || ps.last().last() == '\n' {
            assert(qs == ps.push(seq![c]));
            assert forall|i: int| 0 <= i < qs.len() implies no_line_feed((#[trigger] qs[i]).drop_last()) by {
                if i == qs.len() - 1 {
                    assert(qs[i].drop_last() =~= Seq::<char>::empty());
                } else {
                    assert(qs[i] == ps[i]);
                }
            }
        } else {
            assert(qs == ps.update(ps.len() - 1, ps.last().push(c)));
            assert forall|i: int| 0 <= i < qs.len() implies no_line_feed((#[trigger] qs[i]).drop_last()) by {
                if i == qs.len() - 1 {
                    let l = ps.last();
                    assert(qs[i].drop_last() =~= l);
                    assert(no_line_feed(l.drop_last()));
                    assert forall|j: int| 0 <= j < l.len() implies #[trigger] l[j] != '\n' by {
                        if j < l.len() - 1 {
                            assert(l.drop_last()[j] == l[j]);
                        }
                    }
                } else {
                    assert(qs[i] == ps[i]);
                }
            }
        }
    }
}

/// Text that ends a line (or is empty) keeps its lines when more follows.
pub proof fn lemma_pieces_append(a: Seq<char>, b: Seq<char>)
    requires
        a.len() == 0 || a.last() == '\n',
    ensures
        pieces(a + b) == pieces(a) + pieces(b),
    decreases b.len(),
{
    lemma_pieces_shape(a);
    if b.len() == 0 {
        assert(a + b =~= a);
        assert(pieces(a) + pieces(b) =~= pieces(a));
    } else {
        let c = b.last();
        let b1 = b.drop_last();
        assert((a + b).drop_last() =~= a + b1);
        assert((a + b).last() == c);
        lemma_pieces_append(a, b1);
        let p = pieces(a);
        let q = pieces(b1);
        lemma_pieces_step(a + b);
        lemma_pieces_step(b);
        if q.len() == 0 {
            assert(p + q =~= p);
            if p.len() > 0 {
                assert(p.last().last() == '\n');
            }
            assert(p.push(seq![c]) =~= p + seq![seq![c]]);
            assert(add_char(q, c) =~= seq![seq![c]]);
        } else {
            assert((p + q).last() == q.last());
            if q.last().len() == 0 || q.last().last() == '\n' {
                assert((p + q).push(seq![c]) =~= p + q.push(seq![c]));
            } else {
                assert((p + q).update((p + q).len() - 1, q.last().push(c)) =~= p + q.update(
                    q.len() - 1,
                    q.last().push(c),
                ));
            }
        }
    }
}

/// A line: text with a line feed at most at its end.
pub proof fn lemma_pieces_single(x: Seq<char>)
    requires
        x.len() > 0,
        no_line_feed(x.drop_last()),
    ensures
        pieces(x) == seq![x],
    decreases x.len(),
{
    let u = x.drop_last();
    if u.len() == 0 {
        assert(x =~= seq![x.last()]);
        assert(pieces(u) =~= Seq::<Seq<char>>::empty());
    } else {
        assert(no_line_feed(u.drop_last()));
        lemma_pieces_single(u);
        assert(u.last() == u[u.len() - 1]);
        assert(u.last() != '\n');
        assert(u.push(x.last()) =~= x);
        assert(seq![u].update(0, u.push(x.last())) =~= seq![x]);
    }
}

/// A line feed after text that does not end a line ends its last line.
pub proof fn lemma_pieces_push_line_feed(a: Seq<char>)
    requires
        a.len() > 0,
        a.last() != '\n',
    ensures
        pieces(a.push('\n')) == pieces(a).update(pieces(a).len() - 1, pieces(a).last().push('\n')),
{
    lemma_pieces_shape(a);
    assert(a.push('\n').drop_last() =~= a);
    lemma_pieces_step(a.push('\n'));
}

/// Text that does not end a line runs into the first line of what follows.
pub proof fn lemma_pieces_merge(a: Seq<char>, b: Seq<char>)
    requires
        a.len() > 0,
        a.last() != '\n',
        b.len() > 0,
    ensures
        pieces(a + b) == pieces(a).drop_last() + seq![pieces(a).last() + pieces(b)[0]] + pieces(b).drop_first(),
    decreases b.len(),
{
    lemma_pieces_shape(a);
    lemma_pieces_shape(b);
    let p = pieces(a);
    let c = b.last();
    let b1 = b.drop_last();
    assert((a + b).drop_last() =~= a + b1);
    lemma_pieces_step(a + b);
    lemma_pieces_step(b);
    if b1.len() == 0 {
        assert(a + b1 =~= a);
        assert(pieces(b1) =~= Seq::<Seq<char>>::empty());
        assert(pieces(b) =~= seq![seq![c]]);
        assert(p.last().push(c) =~= p.last() + seq![c]);
        assert(seq![seq![c]].drop_first() =~= Seq::<Seq<char>>::empty());
        assert(p.update(p.len() - 1, p.last().push(c)) =~= p.drop_last() + seq![p.last() + seq![c]]
            + seq![seq![c]].drop_first());
    } else {
        lemma_pieces_merge(a, b1);
        lemma_pieces_shape(b1);
        let q = pieces(b1);
        let m = p.drop_last() + seq![p.last() + q[0]] + q.drop_first();
        assert(pieces(a + b1) == m);
        assert(m.last() == (if q.len() == 1 {
            p.last() + q[0]
        } else {
            q.last()
        }));
        if q.len() == 1 {
            assert((p.last() + q[0]).last() == q[0].last());
            if q[0].last() == '\n' {
                assert(m.push(seq![c]) =~= p.drop_last() + seq![p.last() + q.push(seq![c])[0]] + q.push(
                    seq![c],
                ).drop_first());
            } else {
                assert(m.update(m.len() - 1, m.last().push(c)) =~= p.drop_last() + seq![
                    p.last() + q.update(0, q[0].push(c))[0],
                ] + q.update(0, q[0].push(c)).drop_first());
            }
        } else {
            if q.last().last() == '\n' {
                assert(m.push(seq![c]) =~= p.drop_last() + seq![p.last() + q.push(seq![c])[0]] + q.push(
                    seq![c],
                ).drop_first());
            } else {
                assert(m.update(m.len() - 1, m.last().push(c)) =~= p.drop_last() + seq![
                    p.last() + q.update(q.len() - 1, q.last().push(c))[0],
                ] + q.update(q.len() - 1, q.last().push(c)).drop_first());
            }
        }
    }
}

/// Every character of `w` is whitespace.
pub open spec fn all_space(w: Seq<char>) -> bool {
    forall|j: int| 0 <= j < w.len() ==> is_space(#[trigger] w[j])
}

/// Where [`scan_to`] stops: nothing before satisfies `stop`, and what it
/// stops at does.
pub proof fn lemma_scan_to_bounds(s: Seq<char>, i: int, stop: spec_fn(char) -> bool)
    requires
        0 <= i <= s.len(),
    ensures
        i <= scan_to(s, i, stop) <= s.len(),
        forall|k: int| i <= k < scan_to(s, i, stop) ==> !stop(#[trigger] s[k]),
        scan_to(s, i, stop) < s.len() ==> stop(s[scan_to(s, i, stop)]),
    decreases s.len() - i,
{
    if i < s.len() && !stop(s[i]) {
        lemma_scan_to_bounds(s, i + 1, stop);
    }
}

/// [`scan_to`] sees the same prefix of a longer text the same way.
pub proof fn lemma_scan_to_prefix(x: Seq<char>, w: Seq<char>, i: int, stop: spec_fn(char) -> bool)
    requires
        0 <= i <= x.len(),
    ensures
        scan_to(x, i, stop) < x.len() ==> scan_to(x + w, i, stop) == scan_to(x, i, stop),
        scan_to(x, i, stop) == x.len() ==> scan_to(x + w, i, stop) == scan_to(x + w, x.len() as int, stop),
    decreases x.len() - i,
{
    if i < x.len() {
        assert((x + w)[i] == x[i]);
        if !stop(x[i]) {
            lemma_scan_to_prefix(x, w, i + 1, stop);
        }
    }
}

/// Where [`content_end`] stops: only whitespace after it, and no
/// whitespace just before it.
pub proof fn lemma_content_end_bounds(s: Seq<char>, j: int)
    requires
        0 <= j <= s.len(),
    ensures
        0 <= content_end(s, j) <= j,
        forall|k: int| content_end(s, j) <= k < j ==> is_space(#[trigger] s[k]),
        content_end(s, j) > 0 ==> !is_space(s[content_end(s, j) - 1]),
    decreases j,
{
    if j > 0 && is_space(s[j - 1]) {
        lemma_content_end_bounds(s, j - 1);
    }
}

/// [`content_end`] looks only at the characters before `j`.
pub proof fn lemma_content_end_prefix(x: Seq<char>, y: Seq<char>, j: int)
    requires
        0 <= j <= x.len(),
        j <= y.len(),
        x.take(j) == y.take(j),
    ensures
        content_end(x, j) == content_end(y, j),
    decreases j,
{
    if j > 0 {
        assert(x[j - 1] == x.take(j)[j - 1]);
        assert(y[j - 1] == y.take(j)[j - 1]);
        assert(x.take(j - 1) =~= x.take(j).take(j - 1));
        assert(y.take(j - 1) =~= y.take(j).take(j - 1));
        lemma_content_end_prefix(x, y, j - 1);
    }
}

/// Trailing whitespace does not move [`content_end`] past the text before it.
pub proof fn lemma_content_end_spaces(s: Seq<char>, n: int, j: int)
    requires
        0 <= n <= j <= s.len(),
        forall|k: int| n <= k < j ==> is_space(#[trigger] s[k]),
    ensures
        content_end(s, j) == content_end(s, n),
    decreases j,
{
    if j > n {
        lemma_content_end_spaces(s, n, j - 1);
    }
}

/// Whitespace at the end does not change what [`trim`] gives.
pub proof fn lemma_trim_trailing_space(x: Seq<char>, w: Seq<char>)
    requires
        all_space(w),
    ensures
        trim(x + w) == trim(x),
{
    let s = x + w;
    lemma_scan_to_bounds(x, 0, not_space());
    lemma_scan_to_prefix(x, w, 0, not_space());
    let k = scan_to(x, 0, not_space());
    if k < x.len() {
        let z = x.subrange(k, x.len() as int);
        assert(trim_start(s) =~= z + w);
        assert(trim_start(x) == z);
        let zw = z + w;
        lemma_content_end_spaces(zw, z.len() as int, zw.len() as int);
        assert(zw.take(z.len() as int) =~= z.take(z.len() as int));
        lemma_content_end_prefix(zw, z, z.len() as int);
        lemma_content_end_bounds(z, z.len() as int);
        assert(trim_end(zw) =~= trim_end(z));
    } else {
        lemma_scan_to_bounds(s, x.len() as int, not_space());
        assert forall|j: int| x.len() <= j < s.len() implies !not_space()(#[trigger] s[j]) by {
            assert(s[j] == w[j - x.len()]);
        }
        if scan_to(s, x.len() as int, not_space()) < s.len() {
            let m = scan_to(s, x.len() as int, not_space());
            assert(!not_space()(s[m]));
        }
        assert(trim_start(s) =~= Seq::<char>::empty());
        assert(trim_start(x) =~= Seq::<char>::empty());
    }
}

/// A text that ends with a non-space character keeps it last when trimmed.
pub proof fn lemma_trim_last(x: Seq<char>)
    requires
        x.len() > 0,
        !is_space(x.last()),
    ensures
        trim(x).len() > 0,
        trim(x).last() == x.last(),
        trim(x).len() <= x.len(),
{
    lemma_scan_to_bounds(x, 0, not_space());
    let k = scan_to(x, 0, not_space());
    if k == x.len() {
        assert(!not_space()(x[x.len() - 1]));
    }
    let z = x.subrange(k, x.len() as int);
    assert(z.last() == x.last());
    assert(content_end(z, z.len() as int) == z.len());
    assert(trim_end(z) =~= z);
}

/// Trimming never lengthens a text.
pub proof fn lemma_trim_len(x: Seq<char>)
    ensures
        trim(x).len() <= x.len(),
{
    lemma_scan_to_bounds(x, 0, not_space());
    let z = trim_start(x);
    lemma_content_end_bounds(z, z.len() as int);
}

/// The lines of whitespace are whitespace.
pub proof fn lemma_pieces_all_space(w: Seq<char>)
    requires
        all_space(w),
    ensures
        forall|i: int| 0 <= i < pieces(w).len() ==> all_space(#[trigger] pieces(w)[i]),
    decreases w.len(),
{
    if w.len() > 0 {
        let u = w.drop_last();
        assert(all_space(u));
        lemma_pieces_all_space(u);
        lemma_pieces_step(w);
        let ps = pieces(u);
        let c = w.last();
        assert(is_space(c));
        if !(ps.len() == 0 || ps.last().len() == 0 || ps.last().last() == '\n') {
            assert(all_space(ps.last()));
            assert forall|i: int| 0 <= i < pieces(w).len() implies all_space(#[trigger] pieces(w)[i]) by {
                if i == ps.len() - 1 {
                    assert forall|j: int| 0 <= j < pieces(w)[i].len() implies is_space(#[trigger] pieces(w)[i][j]) by {
                        if j < ps.last().len() {
                            assert(pieces(w)[i][j] == ps.last()[j]);
                        }
                    }
                } else {
                    assert(pieces(w)[i] == ps[i]);
                }
            }
        } else {
            assert forall|i: int| 0 <= i < pieces(w).len() implies all_space(#[trigger] pieces(w)[i]) by {
                if i < ps.len() {
                    assert(pieces(w)[i] == ps[i]);
                } else {
                    assert(pieces(w)[i] =~= seq![c]);
                }
            }
        }
    }
}

/// [`trim`] gives a part of its text.
pub proof fn lemma_trim_subrange(x: Seq<char>)
    ensures
        exists|a: int, b: int| 0 <= a <= b <= x.len() && trim(x) == x.subrange(a, b),
{
    lemma_scan_to_bounds(x, 0, not_space());
    let k = scan_to(x, 0, not_space());
    let z = trim_start(x);
    lemma_content_end_bounds(z, z.len() as int);
    let e = content_end(z, z.len() as int);
    assert(trim(x) =~= x.subrange(k, k + e));
}

/// Trimming text without a line feed gives text without one.
pub proof fn lemma_trim_no_line_feed(x: Seq<char>)
    requires
        no_line_feed(x),
    ensures
        no_line_feed(trim(x)),
{
    lemma_trim_subrange(x);
    let (a, b) = choose|a: int, b: int| 0 <= a <= b <= x.len() && trim(x) == x.subrange(a, b);
    assert forall|j: int| 0 <= j < trim(x).len() implies #[trigger] trim(x)[j] != '\n' by {
        assert(trim(x)[j] == x[a + j]);
    }
}

/// The text of a line, without its line feed, holds no line feed.
pub proof fn lemma_content_no_line_feed(t: Seq<char>, i: int)
    requires
        0 <= i < pieces(t).len(),
    ensures
        no_line_feed(content(pieces(t)[i])),
{
    lemma_pieces_shape(t);
    let p = pieces(t)[i];
    assert(no_line_feed(p.drop_last()));
    if !(p.last() == '\n') {
        assert forall|j: int| 0 <= j < p.len() implies #[trigger] p[j] != '\n' by {
            if j < p.len() - 1 {
                assert(p.drop_last()[j] == p[j]);
            }
        }
    }
}

/// Joining texts without line feeds by a separator without one gives
/// text without one.
pub proof fn lemma_join_no_line_feed(xs: Seq<Seq<char>>, sep: Seq<char>)
    requires
        no_line_feed(sep),
        forall|i: int| 0 <= i < xs.len() ==> no_line_feed(#[trigger] xs[i]),
    ensures
        no_line_feed(crate::text::join_seq(xs, sep)),
    decreases xs.len(),
{
    if xs.len() > 1 {
        let ys = xs.drop_last();
        assert forall|i: int| 0 <= i < ys.len() implies no_line_feed(#[trigger] ys[i]) by {
            assert(ys[i] == xs[i]);
        }
        lemma_join_no_line_feed(ys, sep);
        let a = crate::text::join_seq(ys, sep);
        assert(no_line_feed(xs[xs.len() - 1]));
        let r = a + sep + xs.last();
        assert forall|j: int| 0 <= j < r.len() implies #[trigger] r[j] != '\n' by {
            if j < a.len() {
                assert(r[j] == a[j]);
            } else if j < a.len() + sep.len() {
                assert(r[j] == sep[j - a.len()]);
            } else {
                assert(r[j] == xs.last()[j - a.len() - sep.len()]);
            }
        }
    } else if xs.len() == 1 {
        assert(no_line_feed(xs[0]));
    }
}

} // verus!
