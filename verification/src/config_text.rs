//! Layout of the serialized `c3pg.toml`: every `[dependencies.NAME]`
//! subtable that the TOML writer produces is folded into one inline table
//! `NAME = { .. }` under a single `[dependencies]` heading.

use vstd::prelude::*;
use crate::lines::{
    all_space, lemma_content_end_bounds, lemma_content_no_line_feed, lemma_join_no_line_feed,
    lemma_pieces_all_space, lemma_pieces_append, lemma_pieces_merge, lemma_pieces_push_line_feed,
    lemma_pieces_shape, lemma_pieces_single, lemma_trim_last, lemma_trim_len, lemma_trim_no_line_feed,
    lemma_trim_trailing_space, no_line_feed, well_split,
};
use crate::text::{
    append_chars, char_views, contains, content, content_end, is_space, join_seq, join_strings,
    occurs_at, pieces, split_pieces, starts_with_chars, str_chars, str_contains, string_from_chars,
    strings_view, sub_chars, trim, trim_chars, trimmed_end, trim_end,
};

verus! {

// ---------------------------------------------------------------------------
// The text as lines
// ---------------------------------------------------------------------------

/// The text of a line with surrounding whitespace removed.
pub open spec fn line_text(p: Seq<char>) -> Seq<char> {
    trim(content(p))
}

/// `[dependencies]`
pub open spec fn deps_heading() -> Seq<char> {
    seq!['[', 'd', 'e', 'p', 'e', 'n', 'd', 'e', 'n', 'c', 'i', 'e', 's', ']']
}

/// `[dependencies.`, the start of a dependency subtable header.
pub open spec fn subtable_prefix() -> Seq<char> {
    seq!['[', 'd', 'e', 'p', 'e', 'n', 'd', 'e', 'n', 'c', 'i', 'e', 's', '.']
}

/// A line that opens a table: its text starts with `[`.
pub open spec fn opens_table(p: Seq<char>) -> bool {
    line_text(p).len() > 0 && line_text(p)[0] == '['
}

/// A line `[dependencies.NAME]`.
pub open spec fn is_subtable_header(p: Seq<char>) -> bool {
    let s = line_text(p);
    s.len() >= 15 && s.take(14) == subtable_prefix() && s.last() == ']'
}

/// `NAME` of a header line `[dependencies.NAME]`.
pub open spec fn subtable_name(p: Seq<char>) -> Seq<char> {
    let s = line_text(p);
    s.subrange(14, s.len() - 1)
}

/// Whether line `i` lies in a dependency subtable: the last line at or
/// before it that opens a table is a subtable header.
pub open spec fn in_subtable(ps: Seq<Seq<char>>, i: int) -> bool
    decreases i + 1,
{
    if i < 0 || i >= ps.len() {
        false
    } else if opens_table(ps[i]) {
        is_subtable_header(ps[i])
    } else {
        in_subtable(ps, i - 1)
    }
}

/// The non-empty line texts from line `k` up to the next line that opens a
/// table: the key/value pairs of a subtable whose header precedes `k`.
pub open spec fn subtable_pairs(ps: Seq<Seq<char>>, k: int) -> Seq<Seq<char>>
    decreases ps.len() - k,
{
    if k < 0 || k >= ps.len() || opens_table(ps[k]) {
        seq![]
    } else if line_text(ps[k]).len() == 0 {
        subtable_pairs(ps, k + 1)
    } else {
        seq![line_text(ps[k])] + subtable_pairs(ps, k + 1)
    }
}

/// `NAME = { k1 = v1, k2 = v2 }` for the subtable whose header is line `h`.
pub open spec fn inline_entry(ps: Seq<Seq<char>>, h: int) -> Seq<char> {
    subtable_name(ps[h]) + seq![' ', '=', ' ', '{', ' '] + join_seq(
        subtable_pairs(ps, h + 1),
        seq![',', ' '],
    ) + seq![' ', '}']
}

/// The inline entries, one per line, of the subtable headers from line `k` on.
pub open spec fn inline_entries(ps: Seq<Seq<char>>, k: int) -> Seq<char>
    decreases ps.len() - k,
{
    if k < 0 || k >= ps.len() {
        seq![]
    } else {
        (if is_subtable_header(ps[k]) {
            inline_entry(ps, k).push('\n')
        } else {
            seq![]
        }) + inline_entries(ps, k + 1)
    }
}

/// The lines from `k` on that lie in no subtable, joined.
pub open spec fn kept_lines(ps: Seq<Seq<char>>, k: int) -> Seq<char>
    decreases ps.len() - k,
{
    if k < 0 || k >= ps.len() {
        seq![]
    } else {
        (if in_subtable(ps, k) {
            seq![]
        } else {
            ps[k]
        }) + kept_lines(ps, k + 1)
    }
}

/// Lines `k..f` joined.
pub open spec fn joined_lines(ps: Seq<Seq<char>>, k: int, f: int) -> Seq<char>
    decreases f - k,
{
    if k < 0 || k >= f || k >= ps.len() {
        seq![]
    } else {
        ps[k] + joined_lines(ps, k + 1, f)
    }
}

/// The first subtable header at or after line `k`, or the number of lines.
pub open spec fn first_subtable(ps: Seq<Seq<char>>, k: int) -> int
    decreases ps.len() - k,
{
    if k < 0 || k >= ps.len() {
        ps.len() as int
    } else if is_subtable_header(ps[k]) {
        k
    } else {
        first_subtable(ps, k + 1)
    }
}

/// `s` without the line feeds at its end (`trim_end_matches('\n')`).
pub open spec fn strip_line_feeds(s: Seq<char>) -> Seq<char>
    decreases s.len(),
{
    if s.len() > 0 && s.last() == '\n' {
        strip_line_feeds(s.drop_last())
    } else {
        s
    }
}

/// The serialized configuration `t` with its dependency subtables folded
/// into inline tables.
///
/// Without a `[dependencies.NAME]` line, `t` is returned unchanged.
/// Otherwise the subtables (from their header up to the next line that
/// opens a table) are taken out, and their inline entries are written, one
/// per line and in the order of the headers, where the first subtable
/// stood: after the text before it (with its trailing line feeds replaced
/// by one) and a `[dependencies]` heading when that text has none, followed
/// by an empty line. When the first subtable opens the text, the entries
/// go at the end instead, after a `[dependencies]` heading if the remaining
/// text has none. Trailing whitespace is then replaced by one line feed.
pub open spec fn inlined_dependency_tables(t: Seq<char>) -> Seq<char> {
    let ps = pieces(t);
    let f = first_subtable(ps, 0);
    if f >= ps.len() {
        t
    } else {
        let entries = inline_entries(ps, 0);
        let kept = kept_lines(ps, f);
        let body = if f > 0 {
            let pre = strip_line_feeds(joined_lines(ps, 0, f)).push('\n');
            let heading = if !contains(pre, seq!['\n'] + deps_heading() + seq!['\n']) && !occurs_at(
                pre,
                deps_heading().push('\n'),
                0,
            ) {
                deps_heading().push('\n')
            } else {
                seq![]
            };
            pre + heading + entries + seq!['\n'] + kept
        } else {
            kept + (if !contains(kept, deps_heading()) {
                seq!['\n'] + deps_heading() + seq!['\n']
            } else {
                seq![]
            }) + entries
        };
        trim_end(body).push('\n')
    }
}

/// With no subtable header at or after line `k`, the search for one runs
/// off the end.
pub proof fn lemma_no_subtable_from(ps: Seq<Seq<char>>, k: int)
    requires
        0 <= k <= ps.len(),
        forall|i: int| k <= i < ps.len() ==> !is_subtable_header(#[trigger] ps[i]),
    ensures
        first_subtable(ps, k) == ps.len(),
    decreases ps.len() - k,
{
    if k < ps.len() {
        lemma_no_subtable_from(ps, k + 1);
    }
}

/// A text without any `[dependencies.NAME]` line is left unchanged.
pub proof fn lemma_inline_without_subtables(t: Seq<char>)
    requires
        forall|i: int| 0 <= i < pieces(t).len() ==> !is_subtable_header(#[trigger] pieces(t)[i]),
    ensures
        inlined_dependency_tables(t) == t,
{
    lemma_no_subtable_from(pieces(t), 0);
}

/// No line of `s` is a `[dependencies.NAME]` header.
pub open spec fn no_header(s: Seq<char>) -> bool {
    forall|i: int| 0 <= i < pieces(s).len() ==> !is_subtable_header(#[trigger] pieces(s)[i])
}

/// Two texts without headers, the first ending a line, make one.
proof fn lemma_no_header_cat(a: Seq<char>, b: Seq<char>)
    requires
        a.len() == 0 || a.last() == '\n',
        no_header(a),
        no_header(b),
    ensures
        no_header(a + b),
{
    lemma_pieces_append(a, b);
    let pa = pieces(a);
    let pb = pieces(b);
    assert forall|i: int| 0 <= i < pieces(a + b).len() implies !is_subtable_header(#[trigger] pieces(a + b)[i]) by {
        if i < pa.len() {
            assert(pieces(a + b)[i] == pa[i]);
        } else {
            assert(pieces(a + b)[i] == pb[i - pa.len()]);
        }
    }
}

/// The first part of a text without headers, ending a line, has none.
proof fn lemma_no_header_front(a: Seq<char>, b: Seq<char>)
    requires
        a.len() == 0 || a.last() == '\n',
        no_header(a + b),
    ensures
        no_header(a),
{
    lemma_pieces_append(a, b);
    assert forall|i: int| 0 <= i < pieces(a).len() implies !is_subtable_header(#[trigger] pieces(a)[i]) by {
        assert(pieces(a + b)[i] == pieces(a)[i]);
    }
}

/// A single line `x` and its line feed is no header when its text is
/// short or does not end with `]`.
proof fn lemma_single_line_no_header(x: Seq<char>)
    requires
        no_line_feed(x),
        x.len() < 15 || (x.len() > 0 && !is_space(x.last()) && x.last() != ']'),
    ensures
        no_header(x.push('\n')),
{
    let l = x.push('\n');
    assert(l.drop_last() =~= x);
    lemma_pieces_single(l);
    assert(content(l) == x);
    if x.len() < 15 {
        lemma_trim_len(x);
    } else {
        lemma_trim_last(x);
    }
    assert(!is_subtable_header(pieces(l)[0]));
}

/// A line of a text is no header when it lies in no subtable.
proof fn lemma_header_in_subtable(ps: Seq<Seq<char>>, i: int)
    requires
        0 <= i < ps.len(),
        is_subtable_header(ps[i]),
    ensures
        in_subtable(ps, i),
{
    let s = line_text(ps[i]);
    assert(s[0] == s.take(14)[0]);
}

/// [`first_subtable`] finds the first header at or after `k`.
proof fn lemma_first_subtable(ps: Seq<Seq<char>>, k: int)
    requires
        0 <= k <= ps.len(),
    ensures
        k <= first_subtable(ps, k) <= ps.len(),
        forall|i: int| k <= i < first_subtable(ps, k) ==> !is_subtable_header(#[trigger] ps[i]),
        first_subtable(ps, k) < ps.len() ==> is_subtable_header(ps[first_subtable(ps, k)]),
    decreases ps.len() - k,
{
    if k < ps.len() && !is_subtable_header(ps[k]) {
        lemma_first_subtable(ps, k + 1);
    }
}

/// A line of `t` on its own has the lines it is.
proof fn lemma_line_alone(t: Seq<char>, i: int)
    requires
        0 <= i < pieces(t).len(),
    ensures
        pieces(pieces(t)[i]) == seq![pieces(t)[i]],
{
    lemma_pieces_shape(t);
    lemma_pieces_single(pieces(t)[i]);
}

/// The text of a line of `t` holds no line feed.
proof fn lemma_line_text_no_line_feed(t: Seq<char>, i: int)
    requires
        0 <= i < pieces(t).len(),
    ensures
        no_line_feed(line_text(pieces(t)[i])),
{
    lemma_content_no_line_feed(t, i);
    lemma_trim_no_line_feed(content(pieces(t)[i]));
}

/// The pairs of a subtable hold no line feed.
proof fn lemma_pairs_no_line_feed(t: Seq<char>, k: int)
    ensures
        forall|i: int|
            0 <= i < subtable_pairs(pieces(t), k).len() ==> no_line_feed(#[trigger] subtable_pairs(pieces(t), k)[i]),
    decreases pieces(t).len() - k,
{
    let ps = pieces(t);
    if !(k < 0 || k >= ps.len() || opens_table(ps[k])) {
        lemma_pairs_no_line_feed(t, k + 1);
        if line_text(ps[k]).len() != 0 {
            lemma_line_text_no_line_feed(t, k);
            let r = subtable_pairs(ps, k + 1);
            assert forall|i: int|
                0 <= i < subtable_pairs(ps, k).len() implies no_line_feed(#[trigger] subtable_pairs(ps, k)[i]) by {
                if i > 0 {
                    assert(subtable_pairs(ps, k)[i] == r[i - 1]);
                }
            }
        }
    }
}

/// The inline entry of a subtable is one line ending with `}`.
proof fn lemma_entry_line(t: Seq<char>, h: int)
    requires
        0 <= h < pieces(t).len(),
        is_subtable_header(pieces(t)[h]),
    ensures
        no_line_feed(inline_entry(pieces(t), h)),
        inline_entry(pieces(t), h).len() > 0,
        inline_entry(pieces(t), h).last() == '}',
{
    let ps = pieces(t);
    lemma_line_text_no_line_feed(t, h);
    let lt = line_text(ps[h]);
    let name = subtable_name(ps[h]);
    assert forall|j: int| 0 <= j < name.len() implies #[trigger] name[j] != '\n' by {
        assert(name[j] == lt[j + 14]);
    }
    lemma_pairs_no_line_feed(t, h + 1);
    let sep = seq![',', ' '];
    assert(no_line_feed(sep));
    lemma_join_no_line_feed(subtable_pairs(ps, h + 1), sep);
    let j = join_seq(subtable_pairs(ps, h + 1), sep);
    let mid = seq![' ', '=', ' ', '{', ' '];
    let end = seq![' ', '}'];
    let e = name + mid + j + end;
    assert(e == inline_entry(ps, h));
    assert forall|q: int| 0 <= q < e.len() implies #[trigger] e[q] != '\n' by {
        if q < name.len() {
            assert(e[q] == name[q]);
        } else if q < name.len() + 5 {
            assert(e[q] == mid[q - name.len()]);
        } else if q < name.len() + 5 + j.len() {
            assert(e[q] == j[q - name.len() - 5]);
        } else {
            assert(e[q] == end[q - name.len() - 5 - j.len()]);
        }
    }
}

/// The inline entries are lines without headers.
proof fn lemma_entries_no_header(t: Seq<char>, k: int)
    requires
        0 <= k,
    ensures
        no_header(inline_entries(pieces(t), k)),
        inline_entries(pieces(t), k).len() == 0 || inline_entries(pieces(t), k).last() == '\n',
    decreases pieces(t).len() - k,
{
    let ps = pieces(t);
    if k < ps.len() {
        lemma_entries_no_header(t, k + 1);
        let rest = inline_entries(ps, k + 1);
        if is_subtable_header(ps[k]) {
            lemma_entry_line(t, k);
            let e = inline_entry(ps, k);
            assert(!is_space(e.last()));
            lemma_single_line_no_header(e);
            lemma_no_header_cat(e.push('\n'), rest);
            if rest.len() == 0 {
                assert(e.push('\n') + rest =~= e.push('\n'));
            } else {
                assert((e.push('\n') + rest).last() == rest.last());
            }
        } else {
            assert(seq![] + rest =~= rest);
        }
    } else {
        assert(pieces(Seq::<char>::empty()) =~= Seq::<Seq<char>>::empty());
    }
}

/// The lines kept outside the subtables are no headers.
proof fn lemma_kept_no_header(t: Seq<char>, k: int)
    requires
        0 <= k,
    ensures
        no_header(kept_lines(pieces(t), k)),
    decreases pieces(t).len() - k,
{
    let ps = pieces(t);
    lemma_pieces_shape(t);
    if k < ps.len() {
        lemma_kept_no_header(t, k + 1);
        let rest = kept_lines(ps, k + 1);
        if in_subtable(ps, k) {
            assert(seq![] + rest =~= rest);
        } else {
            let p = ps[k];
            if is_subtable_header(p) {
                lemma_header_in_subtable(ps, k);
            }
            lemma_line_alone(t, k);
            assert(no_header(p));
            if p.last() == '\n' {
                lemma_no_header_cat(p, rest);
            } else {
                assert(k == ps.len() - 1);
                assert(rest =~= Seq::<char>::empty());
                assert(p + rest =~= p);
            }
        }
    } else {
        assert(pieces(Seq::<char>::empty()) =~= Seq::<Seq<char>>::empty());
    }
}

/// Lines `k..f`, none a header and none the last line, joined.
proof fn lemma_joined_no_header(t: Seq<char>, k: int, f: int)
    requires
        0 <= k,
        f < pieces(t).len(),
        forall|i: int| k <= i < f ==> !is_subtable_header(#[trigger] pieces(t)[i]),
    ensures
        no_header(joined_lines(pieces(t), k, f)),
        joined_lines(pieces(t), k, f).len() == 0 || joined_lines(pieces(t), k, f).last() == '\n',
    decreases f - k,
{
    let ps = pieces(t);
    lemma_pieces_shape(t);
    if k < f {
        lemma_joined_no_header(t, k + 1, f);
        let p = ps[k];
        let rest = joined_lines(ps, k + 1, f);
        lemma_line_alone(t, k);
        assert(p.last() == '\n');
        lemma_no_header_cat(p, rest);
        if rest.len() == 0 {
            assert(p + rest =~= p);
        } else {
            assert((p + rest).last() == rest.last());
        }
    } else {
        assert(pieces(Seq::<char>::empty()) =~= Seq::<Seq<char>>::empty());
    }
}

/// Dropping the trailing line feeds and ending with one keeps a text free
/// of headers.
proof fn lemma_strip_no_header(x: Seq<char>)
    requires
        x.len() == 0 || x.last() == '\n',
        no_header(x),
    ensures
        no_header(strip_line_feeds(x).push('\n')),
    decreases x.len(),
{
    if x.len() == 0 {
        lemma_single_line_no_header(x);
    } else {
        let y = x.drop_last();
        assert(x =~= y + seq!['\n']);
        if y.len() == 0 || y.last() == '\n' {
            lemma_no_header_front(y, seq!['\n']);
            lemma_strip_no_header(y);
        } else {
            assert(strip_line_feeds(y) == y);
            assert(y.push('\n') =~= x);
        }
    }
}

/// Trimming trailing whitespace and ending with one line feed keeps a text
/// free of headers.
proof fn lemma_trim_end_no_header(s: Seq<char>)
    requires
        no_header(s),
    ensures
        no_header(trim_end(s).push('\n')),
{
    let n = s.len() as int;
    lemma_content_end_bounds(s, n);
    let e = content_end(s, n);
    let x = s.take(e);
    let w = s.skip(e);
    assert(s =~= x + w);
    assert(all_space(w)) by {
        assert forall|j: int| 0 <= j < w.len() implies is_space(#[trigger] w[j]) by {
            assert(w[j] == s[e + j]);
        }
    }
    if e == 0 {
        assert(trim_end(s) =~= Seq::<char>::empty());
        lemma_single_line_no_header(Seq::<char>::empty());
    } else {
        assert(trim_end(s) == x);
        assert(x.last() == s[e - 1]);
        assert(x.last() != '\n');
        lemma_pieces_shape(x);
        lemma_pieces_push_line_feed(x);
        let p = pieces(x);
        let l = p.last();
        let r = pieces(x.push('\n'));
        assert(l.last() != '\n');
        assert(line_text(l.push('\n')) == trim(l)) by {
            assert(content(l.push('\n')) =~= l);
        }
        if w.len() == 0 {
            assert(s =~= x);
            assert forall|i: int| 0 <= i < r.len() implies !is_subtable_header(#[trigger] r[i]) by {
                if i < p.len() - 1 {
                    assert(r[i] == p[i]);
                } else {
                    assert(content(l) == l);
                    assert(line_text(r[i]) == line_text(p[i]));
                    assert(!is_subtable_header(pieces(s)[i]));
                }
            }
        } else {
            lemma_pieces_merge(x, w);
            lemma_pieces_shape(w);
            lemma_pieces_all_space(w);
            let q = pieces(w);
            let q0 = q[0];
            let ps = pieces(s);
            assert(ps == p.drop_last() + seq![l + q0] + q.drop_first());
            assert(all_space(q0));
            assert(ps[p.len() - 1] == l + q0);
            assert(line_text(l + q0) == trim(l)) by {
                if q0.last() == '\n' {
                    assert((l + q0).drop_last() =~= l + q0.drop_last());
                    assert(all_space(q0.drop_last()));
                    lemma_trim_trailing_space(l, q0.drop_last());
                } else {
                    lemma_trim_trailing_space(l, q0);
                }
            }
            assert forall|i: int| 0 <= i < r.len() implies !is_subtable_header(#[trigger] r[i]) by {
                if i < p.len() - 1 {
                    assert(r[i] == p[i]);
                    assert(ps[i] == p[i]);
                } else {
                    assert(!is_subtable_header(ps[p.len() - 1]));
                }
            }
        }
    }
}

/// The folded text before its trailing whitespace is trimmed, when the
/// first subtable `f` follows other lines.
pub open spec fn body_after_lines(ps: Seq<Seq<char>>, f: int) -> Seq<char> {
    let entries = inline_entries(ps, 0);
    let kept = kept_lines(ps, f);
    let pre = strip_line_feeds(joined_lines(ps, 0, f)).push('\n');
    let heading = if !contains(pre, seq!['\n'] + deps_heading() + seq!['\n']) && !occurs_at(
        pre,
        deps_heading().push('\n'),
        0,
    ) {
        deps_heading().push('\n')
    } else {
        seq![]
    };
    pre + heading + entries + seq!['\n'] + kept
}

/// The folded text before its trailing whitespace is trimmed, when a
/// subtable opens the text.
pub open spec fn body_at_start(ps: Seq<Seq<char>>, f: int) -> Seq<char> {
    let entries = inline_entries(ps, 0);
    let kept = kept_lines(ps, f);
    kept + (if !contains(kept, deps_heading()) {
        seq!['\n'] + deps_heading() + seq!['\n']
    } else {
        seq![]
    }) + entries
}

/// The heading line and an empty line are no headers.
proof fn lemma_heading_no_header()
    ensures
        no_header(deps_heading().push('\n')),
        no_header(seq!['\n']),
{
    let hd = deps_heading();
    assert(no_line_feed(hd));
    lemma_single_line_no_header(hd);
    lemma_single_line_no_header(Seq::<char>::empty());
    assert(Seq::<char>::empty().push('\n') =~= seq!['\n']);
}

#[verifier::spinoff_prover]
proof fn lemma_body_after_lines(t: Seq<char>, f: int)
    requires
        0 < f < pieces(t).len(),
        forall|i: int| 0 <= i < f ==> !is_subtable_header(#[trigger] pieces(t)[i]),
    ensures
        no_header(body_after_lines(pieces(t), f)),
{
    let ps = pieces(t);
    let entries = inline_entries(ps, 0);
    let kept = kept_lines(ps, f);
    lemma_entries_no_header(t, 0);
    lemma_kept_no_header(t, f);
    lemma_heading_no_header();
    let joined = joined_lines(ps, 0, f);
    lemma_joined_no_header(t, 0, f);
    lemma_strip_no_header(joined);
    let pre = strip_line_feeds(joined).push('\n');
    let heading = if !contains(pre, seq!['\n'] + deps_heading() + seq!['\n']) && !occurs_at(
        pre,
        deps_heading().push('\n'),
        0,
    ) {
        deps_heading().push('\n')
    } else {
        seq![]
    };
    assert(no_header(heading)) by {
        if heading.len() == 0 {
            assert(pieces(heading) =~= Seq::<Seq<char>>::empty());
        }
    }
    let a1 = pre + heading;
    lemma_no_header_cat(pre, heading);
    assert(a1.last() == '\n') by {
        if heading.len() == 0 {
            assert(a1 =~= pre);
        }
    }
    let a2 = a1 + entries;
    lemma_no_header_cat(a1, entries);
    assert(a2.last() == '\n') by {
        if entries.len() == 0 {
            assert(a2 =~= a1);
        }
    }
    let a3 = a2 + seq!['\n'];
    lemma_no_header_cat(a2, seq!['\n']);
    lemma_no_header_cat(a3, kept);
    assert(body_after_lines(ps, f) == a3 + kept);
}

#[verifier::spinoff_prover]
proof fn lemma_body_at_start(t: Seq<char>)
    requires
        0 < pieces(t).len(),
        is_subtable_header(pieces(t)[0]),
    ensures
        no_header(body_at_start(pieces(t), 0)),
{
    let ps = pieces(t);
    let entries = inline_entries(ps, 0);
    let kept = kept_lines(ps, 0);
    lemma_entries_no_header(t, 0);
    lemma_kept_no_header(t, 0);
    lemma_heading_no_header();
    let hd = deps_heading();
    let extra = if !contains(kept, deps_heading()) {
        seq!['\n'] + deps_heading() + seq!['\n']
    } else {
        seq![]
    };
    let tail = extra + entries;
    assert(no_header(extra)) by {
        if extra.len() == 0 {
            assert(pieces(extra) =~= Seq::<Seq<char>>::empty());
        } else {
            assert(extra =~= seq!['\n'] + hd.push('\n'));
            lemma_no_header_cat(seq!['\n'], hd.push('\n'));
        }
    }
    assert(extra.len() == 0 || extra.last() == '\n');
    lemma_no_header_cat(extra, entries);
    assert(body_at_start(ps, 0) == kept + tail);
    lemma_entry_line(t, 0);
    let e = inline_entry(ps, 0);
    let e0 = e.push('\n');
    let rest = inline_entries(ps, 1);
    assert(entries == e0 + rest);
    if kept.len() == 0 || kept.last() == '\n' {
        lemma_no_header_cat(kept, tail);
    } else {
        lemma_pieces_shape(kept);
        lemma_pieces_merge(kept, tail);
        let kp = pieces(kept);
        let l = kp.last();
        let tp = pieces(tail);
        let bp = pieces(kept + tail);
        assert(l.last() != '\n');
        assert(!is_subtable_header(kp[kp.len() - 1]));
        assert(!is_subtable_header(l + tp[0])) by {
            if extra.len() > 0 {
                lemma_pieces_append(seq!['\n'], hd.push('\n') + entries);
                assert(tail =~= seq!['\n'] + (hd.push('\n') + entries));
                lemma_pieces_single(seq!['\n']);
                assert(tp[0] == seq!['\n']);
                assert(content(l + seq!['\n']) =~= l);
                assert(content(l) == l);
            } else {
                assert(tail =~= e0 + rest);
                lemma_pieces_append(e0, rest);
                assert(e0.drop_last() =~= e);
                lemma_pieces_single(e0);
                assert(tp[0] == e0);
                assert(content(l + e0) =~= l + e);
                lemma_trim_last(l + e);
            }
        }
        assert forall|i: int| 0 <= i < bp.len() implies !is_subtable_header(#[trigger] bp[i]) by {
            if i < kp.len() - 1 {
                assert(bp[i] == kp[i]);
            } else if i == kp.len() - 1 {
                assert(bp[i] == l + tp[0]);
            } else {
                assert(bp[i] == tp[i - kp.len() + 1]);
            }
        }
    }
}

/// After folding, no line is a `[dependencies.NAME]` header.
pub proof fn lemma_inlined_has_no_subtables(t: Seq<char>)
    ensures
        no_header(inlined_dependency_tables(t)),
{
    let ps = pieces(t);
    let f = first_subtable(ps, 0);
    lemma_first_subtable(ps, 0);
    if f < ps.len() {
        if f > 0 {
            assert(inlined_dependency_tables(t) == trim_end(body_after_lines(ps, f)).push('\n'));
            lemma_body_after_lines(t, f);
            lemma_trim_end_no_header(body_after_lines(ps, f));
        } else {
            assert(inlined_dependency_tables(t) == trim_end(body_at_start(ps, f)).push('\n'));
            lemma_body_at_start(t);
            lemma_trim_end_no_header(body_at_start(ps, f));
        }
    }
}

/// Folding twice gives the same text as folding once.
pub proof fn lemma_inline_idempotent(t: Seq<char>)
    ensures
        inlined_dependency_tables(inlined_dependency_tables(t)) == inlined_dependency_tables(t),
{
    lemma_inlined_has_no_subtables(t);
    lemma_inline_without_subtables(inlined_dependency_tables(t));
}

// ---------------------------------------------------------------------------
// Computing it
// ---------------------------------------------------------------------------

/// The text of a line: without its line feed and surrounding whitespace.
fn line_text_of(p: &Vec<char>) -> (r: Vec<char>)
    ensures
        r@ == line_text(p@),
{
    let n = if p.len() > 0 && p[p.len() - 1] == '\n' {
        p.len() - 1
    } else {
        p.len()
    };
    let c = sub_chars(p, 0, n);
    assert(c@ =~= content(p@));
    trim_chars(&c)
}

fn is_header_text(t: &Vec<char>) -> (r: bool)
    ensures
        r == (t@.len() >= 15 && t@.take(14) == subtable_prefix() && t@.last() == ']'),
{
    let prefix = str_chars("[dependencies.");
    proof {
        reveal_strlit("[dependencies.");
        assert(prefix@ =~= subtable_prefix());
    }
    if t.len() < 15 || t[t.len() - 1] != ']' {
        return false;
    }
    let r = starts_with_chars(t, &prefix);
    assert(r == (t@.take(14) == subtable_prefix())) by {
        if r {
            assert(t@.take(14) =~= t@.subrange(0, 14));
        } else if t@.take(14) == subtable_prefix() {
            assert(t@.take(14) =~= t@.subrange(0, 14));
        }
    }
    r
}

/// The pairs of the subtable whose body starts at line `from`.
fn collect_pairs(
    texts: &Vec<Vec<char>>,
    opens: &Vec<bool>,
    from: usize,
    Ghost(psv): Ghost<Seq<Seq<char>>>,
) -> (r: Vec<String>)
    requires
        texts@.len() == psv.len(),
        opens@.len() == psv.len(),
        from <= psv.len(),
        forall|k: int| 0 <= k < psv.len() ==> (#[trigger] texts@[k])@ == line_text(psv[k]),
        forall|k: int| 0 <= k < psv.len() ==> #[trigger] opens@[k] == opens_table(psv[k]),
    ensures
        strings_view(r@) == subtable_pairs(psv, from as int),
{
    let mut acc: Vec<String> = Vec::new();
    let mut k = from;
    while k < texts.len() && !opens[k]
        invariant
            texts@.len() == psv.len(),
            opens@.len() == psv.len(),
            from <= k <= psv.len(),
            forall|j: int| 0 <= j < psv.len() ==> (#[trigger] texts@[j])@ == line_text(psv[j]),
            forall|j: int| 0 <= j < psv.len() ==> #[trigger] opens@[j] == opens_table(psv[j]),
            strings_view(acc@) + subtable_pairs(psv, k as int) == subtable_pairs(psv, from as int),
        decreases psv.len() - k,
    {
        let ghost before = acc@;
        if texts[k].len() > 0 {
            acc.push(string_from_chars(&texts[k]));
            assert(strings_view(acc@) =~= strings_view(before).push(line_text(psv[k as int])));
            assert(strings_view(acc@) + subtable_pairs(psv, k + 1) =~= strings_view(before) + (seq![
                line_text(psv[k as int]),
            ] + subtable_pairs(psv, k + 1)));
        }
        k += 1;
    }
    assert(strings_view(acc@) + subtable_pairs(psv, k as int) =~= strings_view(acc@));
    acc
}

/// Folds the `[dependencies.NAME]` subtables of a serialized configuration
/// into inline tables under one `[dependencies]` heading (see
/// [`inlined_dependency_tables`]).
pub fn inline_dependency_subtables(toml_str: &str) -> (r: String)
    ensures
        r@ == inlined_dependency_tables(toml_str@),
{
    let cs = str_chars(toml_str);
    let ps = split_pieces(&cs);
    let ghost psv = char_views(ps@);
    let n = ps.len();
    let mut texts: Vec<Vec<char>> = Vec::new();
    let mut opens: Vec<bool> = Vec::new();
    let mut heads: Vec<bool> = Vec::new();
    assert(psv == pieces(toml_str@));
    let mut i: usize = 0;
    while i < n
        invariant
            n == ps@.len(),
            psv == char_views(ps@),
            i <= n,
            texts@.len() == i,
            opens@.len() == i,
            heads@.len() == i,
            forall|k: int| 0 <= k < i ==> (#[trigger] texts@[k])@ == line_text(psv[k]),
            forall|k: int| 0 <= k < i ==> #[trigger] opens@[k] == opens_table(psv[k]),
            forall|k: int| 0 <= k < i ==> #[trigger] heads@[k] == is_subtable_header(psv[k]),
        decreases n - i,
    {
        let t = line_text_of(&ps[i]);
        opens.push(t.len() > 0 && t[0] == '[');
        heads.push(is_header_text(&t));
        texts.push(t);
        i += 1;
    }
    // The first subtable header.
    let mut f: usize = 0;
    while f < n && !heads[f]
        invariant
            n == psv.len(),
            heads@.len() == n,
            f <= n,
            forall|k: int| 0 <= k < n ==> #[trigger] heads@[k] == is_subtable_header(psv[k]),
            first_subtable(psv, 0) == first_subtable(psv, f as int),
        decreases n - f,
    {
        f += 1;
    }
    assert(first_subtable(psv, f as int) == f);
    if f == n {
        return String::from_str(toml_str);
    }
    // The inline entries, in the order of the headers.
    let mut entries: Vec<char> = Vec::new();
    let mut k: usize = 0;
    while k < n
        invariant
            n == psv.len(),
            texts@.len() == n,
            opens@.len() == n,
            heads@.len() == n,
            k <= n,
            forall|j: int| 0 <= j < n ==> (#[trigger] texts@[j])@ == line_text(psv[j]),
            forall|j: int| 0 <= j < n ==> #[trigger] opens@[j] == opens_table(psv[j]),
            forall|j: int| 0 <= j < n ==> #[trigger] heads@[j] == is_subtable_header(psv[j]),
            entries@ + inline_entries(psv, k as int) == inline_entries(psv, 0),
        decreases n - k,
    {
        let ghost before = entries@;
        if heads[k] {
            let t = &texts[k];
            let name = sub_chars(t, 14, t.len() - 1);
            let pairs = collect_pairs(&texts, &opens, k + 1, Ghost(psv));
            let joined = join_strings(&pairs, ", ");
            let joined_chars = str_chars(joined.as_str());
            let open_brace = str_chars(" = { ");
            let close_brace = str_chars(" }");
            proof {
                reveal_strlit(", ");
                reveal_strlit(" = { ");
                reveal_strlit(" }");
                assert(", "@ =~= seq![',', ' ']);
                assert(open_brace@ =~= seq![' ', '=', ' ', '{', ' ']);
                assert(close_brace@ =~= seq![' ', '}']);
            }
            append_chars(&mut entries, &name);
            append_chars(&mut entries, &open_brace);
            append_chars(&mut entries, &joined_chars);
            append_chars(&mut entries, &close_brace);
            entries.push('\n');
            proof {
                assert(entries@ =~= before + inline_entry(psv, k as int).push('\n'));
            }
        }
        proof {
            assert(entries@ + inline_entries(psv, k + 1) =~= before + inline_entries(psv, k as int));
        }
        k += 1;
    }
    assert(entries@ =~= inline_entries(psv, 0));
    // Whether line `f - 1` lies in a subtable (it does not: no header precedes `f`).
    let mut in_tbl = false;
    let mut k: usize = 0;
    while k < f
        invariant
            n == psv.len(),
            opens@.len() == n,
            heads@.len() == n,
            k <= f < n,
            forall|j: int| 0 <= j < n ==> #[trigger] opens@[j] == opens_table(psv[j]),
            forall|j: int| 0 <= j < n ==> #[trigger] heads@[j] == is_subtable_header(psv[j]),
            in_tbl == in_subtable(psv, k - 1),
        decreases f - k,
    {
        if opens[k] {
            in_tbl = heads[k];
        }
        k += 1;
    }
    // The lines after the first header that lie in no subtable.
    let mut kept: Vec<char> = Vec::new();
    let mut k: usize = f;
    while k < n
        invariant
            n == psv.len(),
            n == ps@.len(),
            psv == char_views(ps@),
            opens@.len() == n,
            heads@.len() == n,
            f <= k <= n,
            forall|j: int| 0 <= j < n ==> #[trigger] opens@[j] == opens_table(psv[j]),
            forall|j: int| 0 <= j < n ==> #[trigger] heads@[j] == is_subtable_header(psv[j]),
            in_tbl == in_subtable(psv, k - 1),
            kept@ + kept_lines(psv, k as int) == kept_lines(psv, f as int),
        decreases n - k,
    {
        let ghost before = kept@;
        if opens[k] {
            in_tbl = heads[k];
        }
        if !in_tbl {
            append_chars(&mut kept, &ps[k]);
        }
        proof {
            assert(kept@ + kept_lines(psv, k + 1) =~= before + kept_lines(psv, k as int));
        }
        k += 1;
    }
    assert(kept@ =~= kept_lines(psv, f as int));
    let heading = str_chars("[dependencies]");
    proof {
        reveal_strlit("[dependencies]");
        assert(heading@ =~= deps_heading());
    }
    let mut body: Vec<char> = Vec::new();
    if f > 0 {
        let mut pre: Vec<char> = Vec::new();
        let mut k: usize = 0;
        while k < f
            invariant
                n == psv.len(),
                n == ps@.len(),
                psv == char_views(ps@),
                k <= f < n,
                pre@ + joined_lines(psv, k as int, f as int) == joined_lines(psv, 0, f as int),
            decreases f - k,
        {
            let ghost before = pre@;
            append_chars(&mut pre, &ps[k]);
            proof {
                assert(pre@ + joined_lines(psv, k + 1, f as int) =~= before + joined_lines(
                    psv,
                    k as int,
                    f as int,
                ));
            }
            k += 1;
        }
        assert(pre@ =~= joined_lines(psv, 0, f as int));
        let ghost joined = pre@;
        while pre.len() > 0 && pre[pre.len() - 1] == '\n'
            invariant
                strip_line_feeds(pre@) == strip_line_feeds(joined),
            decreases pre.len(),
        {
            let ghost before = pre@;
            pre.pop();
            assert(pre@ =~= before.drop_last());
        }
        assert(strip_line_feeds(pre@) == pre@);
        pre.push('\n');
        let pre_s = string_from_chars(&pre);
        let has_heading = str_contains(pre_s.as_str(), "\n[dependencies]\n");
        let heading_line = str_chars("[dependencies]\n");
        proof {
            reveal_strlit("\n[dependencies]\n");
            reveal_strlit("[dependencies]\n");
            assert("\n[dependencies]\n"@ =~= seq!['\n'] + deps_heading() + seq!['\n']);
            assert(heading_line@ =~= deps_heading().push('\n'));
        }
        let opens_with = starts_with_chars(&pre, &heading_line);
        append_chars(&mut body, &pre);
        if !has_heading && !opens_with {
            append_chars(&mut body, &heading_line);
        }
        append_chars(&mut body, &entries);
        body.push('\n');
        append_chars(&mut body, &kept);
        proof {
            let hd = if !has_heading && !opens_with {
                deps_heading().push('\n')
            } else {
                seq![]
            };
            assert(body@ =~= pre@ + hd + entries@ + seq!['\n'] + kept@);
        }
    } else {
        let kept_s = string_from_chars(&kept);
        let has_heading = str_contains(kept_s.as_str(), "[dependencies]");
        append_chars(&mut body, &kept);
        if !has_heading {
            let heading_block = str_chars("\n[dependencies]\n");
            proof {
                reveal_strlit("\n[dependencies]\n");
                assert(heading_block@ =~= seq!['\n'] + deps_heading() + seq!['\n']);
            }
            append_chars(&mut body, &heading_block);
        }
        append_chars(&mut body, &entries);
        proof {
            let hd = if !has_heading {
                seq!['\n'] + deps_heading() + seq!['\n']
            } else {
                seq![]
            };
            assert(body@ =~= kept@ + hd + entries@);
        }
    }
    let e = trimmed_end(&body);
    let mut out = sub_chars(&body, 0, e);
    out.push('\n');
    proof {
        assert(body@.take(e as int) =~= body@.subrange(0, e as int));
    }
    string_from_chars(&out)
}

} // verus!
