//! The `CMakeLists.txt` of a project: its targets (declared in `c3pg.toml`,
//! or by convention one executable built from `src/`) and a GoogleTest
//! suite made of the test sources.
//!
//! What lies on disk (the files under `src/`, the test directory and the
//! source directories of the targets) is handed in by the caller.

use vstd::prelude::*;
use crate::cmake::{standard_number, standard_text};
use crate::cmake_core::{
    DiscoverMode, EmitError, LibType, Project, Scope, Target, TargetKind, TestEntry, TestFramework,
    TestSuite, Value,
};
use crate::config::{
    reports_first_problem, targets_valid, validate_targets, BinConfig, Config, EffectiveTarget,
    LibConfig, TargetError, TargetType,
};
use crate::text::{
    lemma_seq_lt_asymmetric, lemma_seq_lt_irreflexive, lemma_seq_lt_total, lemma_seq_lt_transitive,
    clone_strings, owned, push_char, push_str, seq_lt, str_chars, str_eq, str_lt, strings_view,
};

verus! {

// ---------------------------------------------------------------------------
// Paths
// ---------------------------------------------------------------------------

/// The number of segments of `p` between `/` that are neither empty nor
/// `.`: the components that `Path::components` keeps besides a root and a
/// leading `.`.
pub open spec fn real_segments(p: Seq<char>) -> nat
    decreases p.len(),
{
    if p.len() == 0 {
        0
    } else {
        let k = last_index_of(p, '/', p.len() as int);
        let seg = p.subrange(k + 1, p.len() as int);
        let here: nat = if seg.len() > 0 && seg != seq!['.'] {
            1
        } else {
            0
        };
        if k < 0 {
            here
        } else {
            proof {
                lemma_last_index_of_bounds(p, '/', p.len() as int);
            }
            real_segments(p.take(k)) + here
        }
    }
}

/// The number of components of a portable path (`Path::components`):
/// repeated `/` and `.` components are normalized away, except for a
/// leading `.`; a leading `/` is a root component.
pub open spec fn component_count(p: Seq<char>) -> nat {
    let root: nat = if p.len() > 0 && p[0] == '/' {
        1
    } else {
        0
    };
    let cur_dir: nat = if p.len() > 0 && p[0] == '.' && (p.len() == 1 || p[1] == '/') {
        1
    } else {
        0
    };
    root + cur_dir + real_segments(p)
}

/// The number of components of a path (`Path::components().count()`); on
/// a portable path, [`component_count`].
#[verifier::external_body]
fn path_component_count(p: &str) -> (n: usize)
    ensures
        portable_path(p@) ==> n == component_count(p@),
{
    std::path::Path::new(p).components().count()
}

/// `..` repeated `d` times, joined by `/`.
pub open spec fn parent_steps(d: nat) -> Seq<char>
    decreases d,
{
    if d == 0 {
        seq![]
    } else if d == 1 {
        seq!['.', '.']
    } else {
        parent_steps((d - 1) as nat) + seq!['/', '.', '.']
    }
}

/// `${CMAKE_CURRENT_LIST_DIR}/` followed by `d` steps up.
pub open spec fn root_ref_of_depth(d: nat) -> Seq<char> {
    "${CMAKE_CURRENT_LIST_DIR}/"@ + parent_steps(d)
}

/// `root_ref` leads from the cache directory `cache_dir` back to the
/// project root.
pub open spec fn root_ref_for(cache_dir: Seq<char>, root_ref: Seq<char>) -> bool {
    exists|d: nat|
        root_ref == root_ref_of_depth(d) && (portable_path(cache_dir) ==> d == component_count(cache_dir))
}

/// The reference to the project root from a directory `depth` levels below it.
pub fn root_ref_for_depth(depth: usize) -> (r: String)
    ensures
        r@ == root_ref_of_depth(depth as nat),
{
    let mut r = owned("${CMAKE_CURRENT_LIST_DIR}/");
    let mut i: usize = 0;
    while i < depth
        invariant
            i <= depth,
            r@ == root_ref_of_depth(i as nat),
        decreases depth - i,
    {
        if i == 0 {
            push_str(&mut r, "..");
            proof {
                reveal_strlit("..");
            }
        } else {
            push_str(&mut r, "/..");
            proof {
                reveal_strlit("/..");
            }
        }
        i += 1;
    }
    r
}

/// The prefix `${CMAKE_CURRENT_LIST_DIR}/..` (one `..` per component of
/// `cache_dir`) that leads from the generated `CMakeLists.txt`, which lives
/// in the cache directory, back to the project root.
pub fn cmake_project_root_ref(cache_dir: &str) -> (r: String)
    ensures
        root_ref_for(cache_dir@, r@),
{
    let depth = path_component_count(cache_dir);
    root_ref_for_depth(depth)
}

/// `root_ref/path`
pub open spec fn rooted(root_ref: Seq<char>, path: Seq<char>) -> Seq<char> {
    root_ref + seq!['/'] + path
}

/// `v` is the raw argument `t`.
pub open spec fn raw_is(v: Value, t: Seq<char>) -> bool {
    v matches Value::Raw(s) && s@ == t
}

/// `v` is the plain argument `t`.
pub open spec fn str_is(v: Value, t: Seq<char>) -> bool {
    v matches Value::Str(s) && s@ == t
}

/// A project file seen from the generated `CMakeLists.txt`: `root_ref/path`,
/// emitted as given.
pub fn project_root_value(project_root_ref: &str, path: &str) -> (r: Value)
    ensures
        raw_is(r, rooted(project_root_ref@, path@)),
{
    let mut s = owned(project_root_ref);
    push_char(&mut s, '/');
    push_str(&mut s, path);
    assert(s@ =~= rooted(project_root_ref@, path@));
    Value::Raw(s)
}

// ---------------------------------------------------------------------------
// Identifiers
// ---------------------------------------------------------------------------

/// What `char::is_alphanumeric` says of `c` (Unicode `Alphabetic` or `Numeric`).
pub uninterp spec fn unicode_alphanumeric(c: char) -> bool;

/// `char::is_alphanumeric`; on ASCII these are the letters and digits.
#[verifier::external_body]
fn is_alphanumeric(c: char) -> (r: bool)
    ensures
        r == unicode_alphanumeric(c),
        c <= '\u{7f}' ==> (r <==> (('a' <= c && c <= 'z') || ('A' <= c && c <= 'Z') || ('0' <= c && c <= '9'))),
{
    c.is_alphanumeric()
}

/// A character kept in an identifier, or `_` in its place.
pub open spec fn identifier_char(c: char) -> char {
    if unicode_alphanumeric(c) || c == '_' {
        c
    } else {
        '_'
    }
}

/// `s` as an identifier: every character that is neither alphanumeric nor
/// `_` becomes `_`, and `_` is put in front of a leading ASCII digit.
pub open spec fn c_identifier(s: Seq<char>) -> Seq<char> {
    let m = s.map_values(|c: char| identifier_char(c));
    if m.len() > 0 && '0' <= m[0] && m[0] <= '9' {
        seq!['_'] + m
    } else {
        m
    }
}

/// [`c_identifier`] gives an identifier: it does not start with an ASCII
/// digit, every character is alphanumeric or `_`, and it is at most one
/// character longer than the input.
pub proof fn lemma_c_identifier_valid(s: Seq<char>)
    ensures
        c_identifier(s).len() > 0 ==> !('0' <= c_identifier(s)[0] && c_identifier(s)[0] <= '9'),
        forall|i: int|
            0 <= i < c_identifier(s).len() ==> unicode_alphanumeric(#[trigger] c_identifier(s)[i])
                || c_identifier(s)[i] == '_',
        c_identifier(s).len() == s.len() || c_identifier(s).len() == s.len() + 1,
{
    let m = s.map_values(|c: char| identifier_char(c));
    assert forall|i: int| 0 <= i < c_identifier(s).len() implies unicode_alphanumeric(#[trigger] c_identifier(s)[i])
        || c_identifier(s)[i] == '_' by {
        if m.len() > 0 && '0' <= m[0] && m[0] <= '9' {
            if i > 0 {
                assert(c_identifier(s)[i] == m[i - 1]);
            }
        } else {
            assert(c_identifier(s)[i] == m[i]);
        }
    }
}

/// A string that already is an identifier is left as it is.
pub proof fn lemma_c_identifier_keeps_identifiers(s: Seq<char>)
    requires
        forall|i: int| 0 <= i < s.len() ==> unicode_alphanumeric(#[trigger] s[i]) || s[i] == '_',
        s.len() > 0 ==> !('0' <= s[0] && s[0] <= '9'),
    ensures
        c_identifier(s) == s,
{
    let m = s.map_values(|c: char| identifier_char(c));
    assert(m =~= s);
}

/// See [`c_identifier`].
pub fn sanitize_to_c_identifier(s: &str) -> (r: String)
    ensures
        r@ == c_identifier(s@),
        (forall|i: int| 0 <= i < s@.len() ==> #[trigger] s@[i] <= '\u{7f}') ==> r@ == ascii_c_identifier(s@),
{
    let cs = str_chars(s);
    let mut out: Vec<char> = Vec::new();
    let mut i: usize = 0;
    while i < cs.len()
        invariant
            cs@ == s@,
            i <= cs.len(),
            out@ == s@.take(i as int).map_values(|c: char| identifier_char(c)),
            out@.len() == i,
            forall|k: int| 0 <= k < i && s@[k] <= '\u{7f}' ==> #[trigger] out@[k] == ascii_identifier_char(s@[k]),
        decreases cs.len() - i,
    {
        let c = cs[i];
        let keep = is_alphanumeric(c) || c == '_';
        out.push(if keep {
            c
        } else {
            '_'
        });
        assert(s@.take(i + 1).map_values(|c: char| identifier_char(c)) =~= s@.take(i as int).map_values(
            |c: char| identifier_char(c),
        ).push(identifier_char(c)));
        i += 1;
    }
    assert(s@.take(s@.len() as int) =~= s@);
    let mut r = String::new();
    if out.len() > 0 && '0' <= out[0] && out[0] <= '9' {
        push_char(&mut r, '_');
    }
    let mut j: usize = 0;
    let ghost start = r@;
    while j < out.len()
        invariant
            j <= out.len(),
            r@ == start + out@.take(j as int),
            start.len() == 0 || start == seq!['_'],
        decreases out.len() - j,
    {
        push_char(&mut r, out[j]);
        assert(out@.take(j + 1) =~= out@.take(j as int).push(out@[j as int]));
        j += 1;
    }
    assert(out@.take(out@.len() as int) =~= out@);
    proof {
        if forall|i: int| 0 <= i < s@.len() ==> #[trigger] s@[i] <= '\u{7f}' {
            let m = s@.map_values(|c: char| ascii_identifier_char(c));
            assert(out@ =~= m) by {
                assert forall|k: int| 0 <= k < m.len() implies out@[k] == m[k] by {
                    assert(s@[k] <= '\u{7f}');
                }
            }
            assert(r@ =~= ascii_c_identifier(s@));
        }
    }
    r
}

/// A character kept in an ASCII identifier, or `_` in its place.
pub open spec fn ascii_identifier_char(c: char) -> char {
    if is_ascii_word_char(c) {
        c
    } else {
        '_'
    }
}

/// On ASCII text, [`c_identifier`]: every character that is not an ASCII
/// letter, digit or `_` becomes `_`, and `_` is put in front of a leading
/// digit.
pub open spec fn ascii_c_identifier(s: Seq<char>) -> Seq<char> {
    let m = s.map_values(|c: char| ascii_identifier_char(c));
    if m.len() > 0 && '0' <= m[0] && m[0] <= '9' {
        seq!['_'] + m
    } else {
        m
    }
}

/// An ASCII letter, digit or `_`.
pub open spec fn is_ascii_word_char(c: char) -> bool {
    ('a' <= c && c <= 'z') || ('A' <= c && c <= 'Z') || ('0' <= c && c <= '9') || c == '_'
}

// ---------------------------------------------------------------------------
// Targets
// ---------------------------------------------------------------------------

/// A directory named as a source entry, with the C/C++ source files found
/// under it.
#[derive(Debug)]
pub struct SourceDir {
    pub path: String,
    pub files: Vec<String>,
}

/// The files of the first directory in `dirs` that is `entry`, if any.
pub open spec fn dir_files(dirs: Seq<SourceDir>, entry: Seq<char>) -> Option<Seq<Seq<char>>>
    decreases dirs.len(),
{
    if dirs.len() == 0 {
        None
    } else if dirs[0].path@ == entry {
        Some(strings_view(dirs[0].files@))
    } else {
        dir_files(dirs.drop_first(), entry)
    }
}

/// The files a source entry stands for: those under it when it is a
/// directory, otherwise the entry itself.
pub open spec fn entry_files(dirs: Seq<SourceDir>, entry: Seq<char>) -> Seq<Seq<char>> {
    match dir_files(dirs, entry) {
        Some(fs) => fs,
        None => seq![entry],
    }
}

/// The files of all the entries, in order.
pub open spec fn expanded_sources(dirs: Seq<SourceDir>, entries: Seq<Seq<char>>) -> Seq<Seq<char>>
    decreases entries.len(),
{
    if entries.len() == 0 {
        seq![]
    } else {
        expanded_sources(dirs, entries.drop_last()) + entry_files(dirs, entries.last())
    }
}

/// Sorted (by [`seq_lt`]) without repetition.
pub open spec fn strictly_sorted(s: Seq<Seq<char>>) -> bool {
    forall|i: int, j: int| 0 <= i < j < s.len() ==> seq_lt(#[trigger] s[i], #[trigger] s[j])
}

/// `r` holds the strings of `xs`, sorted, each once.
pub open spec fn sorted_unique(r: Seq<Seq<char>>, xs: Seq<Seq<char>>) -> bool {
    &&& strictly_sorted(r)
    &&& forall|s: Seq<char>| r.contains(s) <==> xs.contains(s)
}

/// Resolves one source entry: the files under it when `dirs` lists it as a
/// directory, otherwise the entry itself (it may not exist yet).
pub fn resolve_source_entry(entry: &str, dirs: &[SourceDir]) -> (r: Vec<String>)
    ensures
        strings_view(r@) == entry_files(dirs@, entry@),
{
    let mut i: usize = 0;
    assert(dirs@.skip(0) =~= dirs@);
    while i < dirs.len()
        invariant
            i <= dirs@.len(),
            dir_files(dirs@, entry@) == dir_files(dirs@.skip(i as int), entry@),
        decreases dirs@.len() - i,
    {
        assert(dirs@.skip(i as int).drop_first() =~= dirs@.skip(i + 1));
        if str_eq(dirs[i].path.as_str(), entry) {
            return clone_strings(&dirs[i].files);
        }
        i += 1;
    }
    let mut r: Vec<String> = Vec::new();
    r.push(owned(entry));
    assert(strings_view(r@) =~= seq![entry@]);
    r
}

/// Inserts `x` into a sorted list without repetition, keeping it so.
fn insert_sorted(v: &mut Vec<String>, x: String)
    requires
        strictly_sorted(strings_view(old(v)@)),
    ensures
        strictly_sorted(strings_view(final(v)@)),
        forall|s: Seq<char>|
            strings_view(final(v)@).contains(s) <==> (strings_view(old(v)@).contains(s) || s == x@),
{
    let ghost sv = strings_view(v@);
    let mut i: usize = 0;
    while i < v.len() && str_lt(v[i].as_str(), x.as_str())
        invariant
            i <= v@.len(),
            sv == strings_view(v@),
            strictly_sorted(sv),
            forall|k: int| 0 <= k < i ==> seq_lt(#[trigger] sv[k], x@),
        decreases v@.len() - i,
    {
        i += 1;
    }
    if i < v.len() && str_eq(v[i].as_str(), x.as_str()) {
        assert(sv.contains(x@) ==> sv.contains(x@));
        assert forall|s: Seq<char>| sv.contains(s) <==> (sv.contains(s) || s == x@) by {
            if s == x@ {
                assert(sv[i as int] == x@);
            }
        }
        return;
    }
    // Here x sorts before v[i] (when there is one).
    proof {
        if i < sv.len() {
            lemma_seq_lt_total(sv[i as int], x@);
        }
    }
    v.insert(i, x);
    let ghost nv = strings_view(v@);
    assert(nv =~= sv.take(i as int).push(x@) + sv.skip(i as int));
    assert forall|a: int, b: int| 0 <= a < b < nv.len() implies seq_lt(#[trigger] nv[a], #[trigger] nv[b]) by {
        if b < i {
            assert(nv[a] == sv[a] && nv[b] == sv[b]);
        } else if b == i {
            assert(nv[a] == sv[a]);
        } else if a == i {
            assert(nv[b] == sv[b - 1]);
            if b - 1 > i {
                lemma_seq_lt_transitive(x@, sv[i as int], sv[b - 1]);
            }
        } else if a < i {
            assert(nv[a] == sv[a] && nv[b] == sv[b - 1]);
        } else {
            assert(nv[a] == sv[a - 1] && nv[b] == sv[b - 1]);
        }
    }
    assert forall|s: Seq<char>| nv.contains(s) <==> (sv.contains(s) || s == x@) by {
        if nv.contains(s) {
            let k = choose|k: int| 0 <= k < nv.len() && nv[k] == s;
            if k < i {
                assert(sv[k] == s);
            } else if k > i {
                assert(sv[k - 1] == s);
            }
        }
        if sv.contains(s) {
            let k = choose|k: int| 0 <= k < sv.len() && sv[k] == s;
            if k < i {
                assert(nv[k] == s);
            } else {
                assert(nv[k + 1] == s);
            }
        }
        if s == x@ {
            assert(nv[i as int] == s);
        }
    }
}

/// The files of `entries`, sorted, each once.
pub fn sorted_sources(entries: &Vec<String>, dirs: &[SourceDir]) -> (r: Vec<String>)
    ensures
        sorted_unique(strings_view(r@), expanded_sources(dirs@, strings_view(entries@))),
{
    let mut r: Vec<String> = Vec::new();
    let mut i: usize = 0;
    while i < entries.len()
        invariant
            i <= entries@.len(),
            sorted_unique(strings_view(r@), expanded_sources(dirs@, strings_view(entries@).take(i as int))),
        decreases entries@.len() - i,
    {
        let files = resolve_source_entry(entries[i].as_str(), dirs);
        let ghost before = strings_view(r@);
        let ghost done = expanded_sources(dirs@, strings_view(entries@).take(i as int));
        assert(strings_view(files@).take(0) =~= Seq::<Seq<char>>::empty());
        let mut k: usize = 0;
        while k < files.len()
            invariant
                k <= files@.len(),
                strictly_sorted(strings_view(r@)),
                forall|s: Seq<char>|
                    strings_view(r@).contains(s) <==> (done.contains(s) || strings_view(files@).take(
                        k as int,
                    ).contains(s)),
            decreases files@.len() - k,
        {
            let x = files[k].clone();
            let ghost prev = strings_view(r@);
            insert_sorted(&mut r, x);
            proof {
                let fv = strings_view(files@);
                let tk = fv.take(k as int);
                let tk1 = fv.take(k + 1);
                assert(tk1 =~= tk.push(fv[k as int]));
                assert forall|s: Seq<char>| tk1.contains(s) <==> (tk.contains(s) || s == fv[k as int]) by {
                    if tk1.contains(s) {
                        let j = choose|j: int| 0 <= j < tk1.len() && tk1[j] == s;
                        if j < k {
                            assert(tk[j] == s);
                        }
                    }
                    if tk.contains(s) {
                        let j = choose|j: int| 0 <= j < tk.len() && tk[j] == s;
                        assert(tk1[j] == s);
                    }
                    if s == fv[k as int] {
                        assert(tk1[k as int] == s);
                    }
                }
                assert forall|s: Seq<char>|
                    strings_view(r@).contains(s) <==> (done.contains(s) || tk1.contains(s)) by {
                    assert(strings_view(r@).contains(s) <==> (prev.contains(s) || s == fv[k as int]));
                }
            }
            k += 1;
        }
        proof {
            let ev = strings_view(entries@);
            assert(ev.take(i + 1).drop_last() =~= ev.take(i as int));
            assert(ev.take(i + 1).last() == entries@[i as int]@);
            let fv = strings_view(files@);
            assert(fv.take(fv.len() as int) =~= fv);
            assert(fv == entry_files(dirs@, ev[i as int]));
            let now = expanded_sources(dirs@, ev.take(i + 1));
            assert(now == done + fv);
            assert forall|s: Seq<char>| now.contains(s) <==> (done.contains(s) || fv.contains(s)) by {
                if now.contains(s) {
                    let j = choose|j: int| 0 <= j < now.len() && now[j] == s;
                    if j < done.len() {
                        assert(done[j] == s);
                    } else {
                        assert(fv[j - done.len()] == s);
                    }
                }
                if done.contains(s) {
                    let j = choose|j: int| 0 <= j < done.len() && done[j] == s;
                    assert(now[j] == s);
                }
                if fv.contains(s) {
                    let j = choose|j: int| 0 <= j < fv.len() && fv[j] == s;
                    assert(now[done.len() + j] == s);
                }
            }
            assert forall|s: Seq<char>| strings_view(r@).contains(s) <==> now.contains(s) by {
                assert(strings_view(r@).contains(s) <==> (done.contains(s) || fv.take(k as int).contains(s)));
            }
            assert(sorted_unique(strings_view(r@), now));
        }
        i += 1;
    }
    assert(strings_view(entries@).take(entries@.len() as int) =~= strings_view(entries@));
    r
}

/// The effective target of a library declaration.
pub open spec fn lib_target_of(t: EffectiveTarget, lib: LibConfig, dirs: Seq<SourceDir>) -> bool {
    &&& t.name@ == lib.name@
    &&& t.target_type == TargetType::StaticLibrary
    &&& sorted_unique(strings_view(t.source_files@), expanded_sources(dirs, strings_view(lib.sources@)))
    &&& strings_view(t.public_include@) == strings_view(lib.public_include@)
    &&& strings_view(t.link@) == strings_view(lib.link@)
}

/// The effective target of an executable declaration.
pub open spec fn bin_target_of(t: EffectiveTarget, bin: BinConfig, dirs: Seq<SourceDir>) -> bool {
    &&& t.name@ == bin.name@
    &&& t.target_type == TargetType::Executable
    &&& sorted_unique(strings_view(t.source_files@), expanded_sources(dirs, strings_view(bin.sources@)))
    &&& t.public_include@.len() == 0
    &&& strings_view(t.link@) == strings_view(bin.link@)
}

/// `ts` are the effective targets of the declarations: the libraries, then
/// the executables, each in order.
pub open spec fn declared_targets(
    ts: Seq<EffectiveTarget>,
    libs: Seq<LibConfig>,
    bins: Seq<BinConfig>,
    dirs: Seq<SourceDir>,
) -> bool {
    &&& ts.len() == libs.len() + bins.len()
    &&& forall|i: int| 0 <= i < libs.len() ==> lib_target_of(#[trigger] ts[i], libs[i], dirs)
    &&& forall|j: int| 0 <= j < bins.len() ==> bin_target_of(#[trigger] ts[libs.len() + j], bins[j], dirs)
}

/// Checks the declarations and expands their source entries (directories
/// to the files under them), sorting each target's files and dropping
/// repetitions.
pub fn resolve_targets(libs: &[LibConfig], bins: &[BinConfig], dirs: &[SourceDir]) -> (r: Result<
    Vec<EffectiveTarget>,
    TargetError,
>)
    ensures
        r is Ok <==> targets_valid(libs@, bins@),
        r matches Err(e) ==> reports_first_problem(libs@, bins@, e),
        r matches Ok(ts) ==> declared_targets(ts@, libs@, bins@, dirs@),
{
    match validate_targets(libs, bins) {
        Err(e) => {
            return Err(e);
        },
        Ok(()) => {},
    }
    let mut ts: Vec<EffectiveTarget> = Vec::new();
    let mut i: usize = 0;
    while i < libs.len()
        invariant
            i <= libs@.len(),
            ts@.len() == i,
            forall|k: int| 0 <= k < i ==> lib_target_of(#[trigger] ts@[k], libs@[k], dirs@),
        decreases libs@.len() - i,
    {
        let lib = &libs[i];
        ts.push(
            EffectiveTarget {
                name: lib.name.clone(),
                target_type: TargetType::StaticLibrary,
                source_files: sorted_sources(&lib.sources, dirs),
                public_include: clone_strings(&lib.public_include),
                link: clone_strings(&lib.link),
            },
        );
        i += 1;
    }
    let mut j: usize = 0;
    while j < bins.len()
        invariant
            j <= bins@.len(),
            ts@.len() == libs@.len() + j,
            forall|k: int| 0 <= k < libs@.len() ==> lib_target_of(#[trigger] ts@[k], libs@[k], dirs@),
            forall|k: int| 0 <= k < j ==> bin_target_of(#[trigger] ts@[libs@.len() + k], bins@[k], dirs@),
        decreases bins@.len() - j,
    {
        let bin = &bins[j];
        ts.push(
            EffectiveTarget {
                name: bin.name.clone(),
                target_type: TargetType::Executable,
                source_files: sorted_sources(&bin.sources, dirs),
                public_include: Vec::new(),
                link: clone_strings(&bin.link),
            },
        );
        j += 1;
    }
    Ok(ts)
}

/// `src/main.cpp`, the conventional source when `src/` holds none yet.
pub open spec fn conventional_main() -> Seq<char> {
    seq!['s', 'r', 'c', '/', 'm', 'a', 'i', 'n', '.', 'c', 'p', 'p']
}

/// The target of the convention used when no targets are declared: one
/// executable named after the project, built from all of `src_files` (or
/// from `src/main.cpp` while there are none).
pub open spec fn convention_target_of(t: EffectiveTarget, project_name: Seq<char>, src_files: Seq<Seq<char>>) -> bool {
    &&& t.name@ == project_name
    &&& t.target_type == TargetType::Executable
    &&& strings_view(t.source_files@) == (if src_files.len() == 0 {
        seq![conventional_main()]
    } else {
        src_files
    })
    &&& t.public_include@.len() == 0
    &&& t.link@.len() == 0
}

/// The single executable of the convention (see [`convention_target_of`]);
/// `src_files` are the C/C++ sources found under `src/`.
pub fn convention_targets(project_name: &str, src_files: &Vec<String>) -> (r: Vec<EffectiveTarget>)
    ensures
        r@.len() == 1,
        convention_target_of(r@[0], project_name@, strings_view(src_files@)),
{
    let source_files = if src_files.len() == 0 {
        let mut v: Vec<String> = Vec::new();
        v.push(owned("src/main.cpp"));
        proof {
            reveal_strlit("src/main.cpp");
            assert(v@[0]@ =~= conventional_main());
            assert(strings_view(v@) =~= seq![conventional_main()]);
        }
        v
    } else {
        clone_strings(src_files)
    };
    let mut r: Vec<EffectiveTarget> = Vec::new();
    r.push(
        EffectiveTarget {
            name: owned(project_name),
            target_type: TargetType::Executable,
            source_files,
            public_include: Vec::new(),
            link: Vec::new(),
        },
    );
    r
}

/// The project declares its targets (`[[lib]]` or `[[bin]]`).
pub open spec fn declares_targets(libs: Seq<LibConfig>, bins: Seq<BinConfig>) -> bool {
    libs.len() > 0 || bins.len() > 0
}

/// The targets to generate: the declared ones when there are any,
/// otherwise the convention's single executable.
pub open spec fn effective_targets_of(
    ts: Seq<EffectiveTarget>,
    config: Config,
    src_files: Seq<Seq<char>>,
    dirs: Seq<SourceDir>,
) -> bool {
    if declares_targets(config.lib@, config.bin@) {
        declared_targets(ts, config.lib@, config.bin@, dirs)
    } else {
        ts.len() == 1 && convention_target_of(ts[0], config.project.name@, src_files)
    }
}

/// The targets to generate for `config` (see [`effective_targets_of`]);
/// `src_files` are the sources under `src/`, `dirs` the directories among
/// the declared source entries.
pub fn effective_targets(config: &Config, src_files: &Vec<String>, dirs: &[SourceDir]) -> (r: Result<
    Vec<EffectiveTarget>,
    TargetError,
>)
    ensures
        r is Err ==> declares_targets(config.lib@, config.bin@),
        declares_targets(config.lib@, config.bin@) ==> (r is Ok <==> targets_valid(config.lib@, config.bin@)),
        r matches Err(e) ==> reports_first_problem(config.lib@, config.bin@, e),
        r matches Ok(ts) ==> effective_targets_of(ts@, *config, strings_view(src_files@), dirs@),
{
    if config.lib.len() == 0 && config.bin.len() == 0 {
        Ok(convention_targets(config.project.name.as_str(), src_files))
    } else {
        resolve_targets(config.lib.as_slice(), config.bin.as_slice(), dirs)
    }
}

// ---------------------------------------------------------------------------
// Tests
// ---------------------------------------------------------------------------

/// The `main` compiled into every test executable.
pub const GTEST_MAIN_BODY: &'static str = "#include <gtest/gtest.h>\nint main(int argc, char** argv) {\n  ::testing::InitGoogleTest(&argc, argv);\n  return RUN_ALL_TESTS();\n}";

/// Extensions of C/C++ source files.
pub const SOURCE_EXTENSIONS: [&'static str; 4] = ["c", "cpp", "cxx", "cc"];

/// Extensions of C/C++ header files (for `c3pg fmt` and `c3pg lint`).
pub const HEADER_EXTENSIONS: [&'static str; 4] = ["h", "hpp", "hxx", "hh"];

/// Position of the last `c` among the first `j` characters of `s`, or -1.
pub open spec fn last_index_of(s: Seq<char>, c: char, j: int) -> int
    decreases j,
{
    if j <= 0 {
        -1
    } else if s[j - 1] == c {
        j - 1
    } else {
        last_index_of(s, c, j - 1)
    }
}

/// What follows the last `/` of `p` (all of `p` when it has none).
pub open spec fn last_segment(p: Seq<char>) -> Seq<char> {
    p.subrange(last_index_of(p, '/', p.len() as int) + 1, p.len() as int)
}

/// A file name without its extension (what `Path::file_stem` gives): the
/// part before the last `.`, or the whole name when its only `.` leads it
/// or it has none.
pub open spec fn stem_of(name: Seq<char>) -> Seq<char> {
    let k = last_index_of(name, '.', name.len() as int);
    if k <= 0 {
        name
    } else {
        name.take(k)
    }
}

/// A path that every platform splits the same way: no `\\` and no `:`
/// (so no Windows prefix or other separator), and no leading `//` (a UNC
/// prefix on Windows). Its separators are the `/`.
pub open spec fn portable_path(p: Seq<char>) -> bool {
    &&& forall|i: int| 0 <= i < p.len() ==> #[trigger] p[i] != '\\' && p[i] != ':'
    &&& !(p.len() >= 2 && p[0] == '/' && p[1] == '/')
}

/// The file name of a portable path (`Path::file_name`): its last
/// component once repeated and trailing `/` and `.` components are
/// normalized away; none when that is `..`, or when nothing but a root or
/// `.` is left.
pub open spec fn file_name_of(p: Seq<char>) -> Option<Seq<char>>
    decreases p.len(),
{
    if p.len() == 0 {
        None
    } else if p.last() == '/' {
        file_name_of(p.drop_last())
    } else {
        let k = last_index_of(p, '/', p.len() as int);
        let seg = p.subrange(k + 1, p.len() as int);
        if seg == seq!['.'] {
            if k < 0 {
                None
            } else {
                proof {
                    lemma_last_index_of_bounds(p, '/', p.len() as int);
                }
                file_name_of(p.take(k + 1))
            }
        } else if seg == seq!['.', '.'] {
            None
        } else {
            Some(seg)
        }
    }
}

/// `last_index_of` lies among the characters it looks at.
pub proof fn lemma_last_index_of_bounds(s: Seq<char>, c: char, j: int)
    ensures
        -1 <= last_index_of(s, c, j) < j || (j <= 0 && last_index_of(s, c, j) == -1),
        last_index_of(s, c, j) >= 0 ==> s[last_index_of(s, c, j)] == c,
    decreases j,
{
    if j > 0 && s[j - 1] != c {
        lemma_last_index_of_bounds(s, c, j - 1);
    }
}

/// The stem of a path (`Path::file_stem`): on a portable path, the stem of
/// its file name (see [`file_name_of`]), or none when it has no file name.
#[verifier::external_body]
fn file_stem(path: &str) -> (r: Option<String>)
    ensures
        portable_path(path@) ==> match file_name_of(path@) {
            Some(n) => r matches Some(x) && x@ == stem_of(n),
            None => r is None,
        },
{
    match std::path::Path::new(path).file_stem() {
        Some(s) => match s.to_str() {
            Some(t) => Some(t.to_string()),
            None => None,
        },
        None => None,
    }
}

/// `base` names the entry of the test file `path`: on a portable path it
/// is the file's stem, or `test` when the path has no file name.
pub open spec fn test_base_for(path: Seq<char>, base: Seq<char>) -> bool {
    portable_path(path) ==> base == match file_name_of(path) {
        Some(n) => stem_of(n),
        None => "test"@,
    }
}

/// Whether a path ends with `main.cpp`.
pub open spec fn ends_with_main(p: Seq<char>) -> bool {
    p.len() >= 8 && p.subrange(p.len() - 8, p.len() as int) == "main.cpp"@
}

/// The sources not ending with `main.cpp`, in order.
pub open spec fn non_main_sources(s: Seq<Seq<char>>) -> Seq<Seq<char>>
    decreases s.len(),
{
    if s.len() == 0 {
        seq![]
    } else if ends_with_main(s.last()) {
        non_main_sources(s.drop_last())
    } else {
        non_main_sources(s.drop_last()).push(s.last())
    }
}

/// The project sources compiled into every test executable: without
/// library targets, all of `src_files` but the `main.cpp`s; otherwise none.
pub open spec fn shared_test_sources(lib_names: Seq<Seq<char>>, src_files: Seq<Seq<char>>) -> Seq<Seq<char>> {
    if lib_names.len() == 0 {
        non_main_sources(src_files)
    } else {
        seq![]
    }
}

/// The test executable of `path`, named after `base`.
pub open spec fn test_entry_of(
    e: TestEntry,
    path: Seq<char>,
    base: Seq<char>,
    lib_names: Seq<Seq<char>>,
    root: Seq<char>,
    cxx: u16,
    shared: Seq<Seq<char>>,
) -> bool {
    &&& e.exe_name@ == c_identifier(base)
    &&& e.prefix@ == base.push('.')
    &&& e.cxx_standard == Some(cxx)
    &&& e.link@.len() == (if lib_names.len() == 0 {
        1
    } else {
        lib_names.len()
    }) + 1
    &&& lib_names.len() == 0 ==> raw_is(e.link@[0], "${CONANDEPS_LEGACY}"@)
    &&& forall|i: int| 0 <= i < lib_names.len() ==> str_is(#[trigger] e.link@[i], lib_names[i])
    &&& raw_is(e.link@.last(), "gtest::gtest"@)
    &&& e.sources@.len() == shared.len() + 2
    &&& raw_is(e.sources@[0], rooted(root, path))
    &&& raw_is(e.sources@[1], "${C3PG_GTEST_MAIN}"@)
    &&& forall|i: int| 0 <= i < shared.len() ==> raw_is(#[trigger] e.sources@[i + 2], rooted(root, shared[i]))
}

/// `e` is the test executable of `path`, named after the file's stem.
pub open spec fn entry_for(
    e: TestEntry,
    path: Seq<char>,
    lib_names: Seq<Seq<char>>,
    root: Seq<char>,
    cxx: u16,
    shared: Seq<Seq<char>>,
) -> bool {
    exists|base: Seq<char>| test_base_for(path, base) && test_entry_of(e, path, base, lib_names, root, cxx, shared)
}

/// The GoogleTest set-up of the suite: `find_package(GTest CONFIG)`, the
/// shared `main` in `C3PG_GTEST_MAIN`, and discovery before the tests run.
pub open spec fn is_gtest_setup(f: TestFramework) -> bool {
    f matches TestFramework::GoogleTest { config_mode, inline_main_var, inline_main_body, discover_mode }
        && config_mode && inline_main_var@ == "C3PG_GTEST_MAIN"@ && inline_main_body@ == GTEST_MAIN_BODY@
        && discover_mode == DiscoverMode::PreTest
}

/// The test suite of a project: an aggregate target `<project>_tests` and
/// one executable per test file, in order.
pub open spec fn test_suite_of(
    s: TestSuite,
    project_name: Seq<char>,
    lib_names: Seq<Seq<char>>,
    root: Seq<char>,
    cxx: u16,
    test_files: Seq<Seq<char>>,
    src_files: Seq<Seq<char>>,
) -> bool {
    &&& s.aggregate_target@ == project_name + "_tests"@
    &&& is_gtest_setup(s.framework)
    &&& s.entries@.len() == test_files.len()
    &&& forall|i: int|
        0 <= i < test_files.len() ==> entry_for(
            #[trigger] s.entries@[i],
            test_files[i],
            lib_names,
            root,
            cxx,
            shared_test_sources(lib_names, src_files),
        )
}

fn non_main(src_files: &Vec<String>) -> (r: Vec<String>)
    ensures
        strings_view(r@) == non_main_sources(strings_view(src_files@)),
{
    let ghost sv = strings_view(src_files@);
    let mut r: Vec<String> = Vec::new();
    let mut i: usize = 0;
    while i < src_files.len()
        invariant
            sv == strings_view(src_files@),
            i <= sv.len(),
            strings_view(r@) == non_main_sources(sv.take(i as int)),
        decreases sv.len() - i,
    {
        let p = str_chars(src_files[i].as_str());
        let mut is_main = false;
        if p.len() >= 8 {
            let suffix = str_chars("main.cpp");
            let mut k: usize = 0;
            is_main = true;
            while k < 8
                invariant
                    p@ == sv[i as int],
                    p.len() >= 8,
                    suffix@ == "main.cpp"@,
                    k <= 8,
                    is_main == forall|t: int| 0 <= t < k ==> p@[p.len() - 8 + t] == suffix@[t],
                decreases 8 - k,
            {
                proof {
                    reveal_strlit("main.cpp");
                }
                if p[p.len() - 8 + k] != suffix[k] {
                    is_main = false;
                }
                k += 1;
            }
            proof {
                reveal_strlit("main.cpp");
                if is_main {
                    assert(p@.subrange(p.len() - 8, p.len() as int) =~= "main.cpp"@);
                } else {
                    let t = choose|t: int| 0 <= t < 8 && p@[p.len() - 8 + t] != suffix@[t];
                    assert(p@.subrange(p.len() - 8, p.len() as int)[t] != "main.cpp"@[t]);
                }
            }
        }
        assert(is_main == ends_with_main(sv[i as int]));
        assert(sv.take(i + 1).drop_last() =~= sv.take(i as int));
        if !is_main {
            r.push(src_files[i].clone());
            assert(strings_view(r@) =~= non_main_sources(sv.take(i as int)).push(sv[i as int]));
        }
        i += 1;
    }
    assert(sv.take(sv.len() as int) =~= sv);
    r
}

/// One test executable (see [`test_entry_of`]).
fn test_entry(
    path: &str,
    base: &str,
    lib_names: &Vec<String>,
    root_ref: &str,
    cxx: u16,
    shared: &Vec<String>,
) -> (e: TestEntry)
    ensures
        test_entry_of(e, path@, base@, strings_view(lib_names@), root_ref@, cxx, strings_view(shared@)),
{
    let mut link: Vec<Value> = Vec::new();
    let mut i: usize = 0;
    while i < lib_names.len()
        invariant
            i <= lib_names@.len(),
            link@.len() == i,
            forall|k: int| 0 <= k < i ==> str_is(#[trigger] link@[k], lib_names@[k]@),
        decreases lib_names@.len() - i,
    {
        link.push(Value::Str(lib_names[i].clone()));
        i += 1;
    }
    if link.len() == 0 {
        link.push(Value::Raw(owned("${CONANDEPS_LEGACY}")));
    }
    link.push(Value::Raw(owned("gtest::gtest")));
    let mut sources: Vec<Value> = Vec::new();
    sources.push(project_root_value(root_ref, path));
    sources.push(Value::Raw(owned("${C3PG_GTEST_MAIN}")));
    let mut k: usize = 0;
    while k < shared.len()
        invariant
            k <= shared@.len(),
            sources@.len() == k + 2,
            raw_is(sources@[0], rooted(root_ref@, path@)),
            raw_is(sources@[1], "${C3PG_GTEST_MAIN}"@),
            forall|t: int| 0 <= t < k ==> raw_is(#[trigger] sources@[t + 2], rooted(root_ref@, shared@[t]@)),
        decreases shared@.len() - k,
    {
        sources.push(project_root_value(root_ref, shared[k].as_str()));
        k += 1;
    }
    let mut prefix = owned(base);
    push_char(&mut prefix, '.');
    TestEntry {
        exe_name: sanitize_to_c_identifier(base),
        sources,
        link,
        prefix,
        cxx_standard: Some(cxx),
    }
}

/// The GoogleTest suite of the project (see [`test_suite_of`]), or `None`
/// when there are no test files. `lib_names` are the library targets each
/// test links; `test_files` are the sources found in the test directory and
/// `src_files` those under `src/`.
pub fn build_test_suite(
    config: &Config,
    lib_names: &Vec<String>,
    project_root_ref: &str,
    test_files: &Vec<String>,
    src_files: &Vec<String>,
) -> (r: Option<TestSuite>)
    ensures
        test_files@.len() == 0 <==> r is None,
        r matches Some(s) ==> test_suite_of(
            s,
            config.project.name@,
            strings_view(lib_names@),
            project_root_ref@,
            standard_number(config.project.standard),
            strings_view(test_files@),
            strings_view(src_files@),
        ),
{
    if test_files.len() == 0 {
        return None;
    }
    let gtest = TestFramework::GoogleTest {
        config_mode: true,
        inline_main_var: owned("C3PG_GTEST_MAIN"),
        inline_main_body: owned(GTEST_MAIN_BODY),
        discover_mode: DiscoverMode::PreTest,
    };
    let cxx = config.project.standard.number();
    let shared = if lib_names.len() == 0 {
        non_main(src_files)
    } else {
        Vec::new()
    };
    assert(strings_view(shared@) =~= shared_test_sources(strings_view(lib_names@), strings_view(src_files@)));
    let mut name = config.project.name.clone();
    push_str(&mut name, "_tests");
    let mut suite = TestSuite::new_aggregate(name.as_str(), gtest);
    let ghost tv = strings_view(test_files@);
    let ghost sh = shared_test_sources(strings_view(lib_names@), strings_view(src_files@));
    let mut i: usize = 0;
    while i < test_files.len()
        invariant
            tv == strings_view(test_files@),
            sh == shared_test_sources(strings_view(lib_names@), strings_view(src_files@)),
            i <= test_files@.len(),
            suite.aggregate_target@ == config.project.name@ + "_tests"@,
            is_gtest_setup(suite.framework),
            suite.entries@.len() == i,
            cxx == standard_number(config.project.standard),
            strings_view(shared@) == shared_test_sources(strings_view(lib_names@), strings_view(src_files@)),
            forall|k: int|
                0 <= k < i ==> entry_for(
                    #[trigger] suite.entries@[k],
                    tv[k],
                    strings_view(lib_names@),
                    project_root_ref@,
                    cxx,
                    sh,
                ),
        decreases test_files@.len() - i,
    {
        let path = test_files[i].as_str();
        let base = match file_stem(path) {
            Some(s) => s,
            None => owned("test"),
        };
        proof {
            reveal_strlit("test");
        }
        let e = test_entry(path, base.as_str(), lib_names, project_root_ref, cxx, &shared);
        let ghost prev = suite.entries@;
        suite = suite.add(e);
        assert(suite.entries@[i as int] == e);
        assert(test_base_for(tv[i as int], base@));
        assert(test_entry_of(e, tv[i as int], base@, strings_view(lib_names@), project_root_ref@, cxx, sh));
        assert(entry_for(e, tv[i as int], strings_view(lib_names@), project_root_ref@, cxx, sh));
        assert forall|k: int| 0 <= k < i + 1 implies entry_for(
            #[trigger] suite.entries@[k],
            tv[k],
            strings_view(lib_names@),
            project_root_ref@,
            cxx,
            sh,
        ) by {
            if k < i {
                assert(suite.entries@[k] == prev[k]);
            }
        }
        i += 1;
    }
    Some(suite)
}

// ---------------------------------------------------------------------------
// The whole file
// ---------------------------------------------------------------------------

/// The names of the library targets among `ts`, in order.
pub open spec fn library_names(ts: Seq<EffectiveTarget>) -> Seq<Seq<char>>
    decreases ts.len(),
{
    if ts.len() == 0 {
        seq![]
    } else if ts.last().target_type == TargetType::StaticLibrary {
        library_names(ts.drop_last()).push(ts.last().name@)
    } else {
        library_names(ts.drop_last())
    }
}

/// The CMake target of an effective target. A library is static, exports
/// its include directories and links the Conan dependencies and its own
/// links publicly. An executable links its own links privately, or the
/// Conan dependencies when it has none (libraries pass them on).
pub open spec fn cmake_target_of(t: Target, et: EffectiveTarget, root: Seq<char>) -> bool {
    &&& t.name@ == et.name@
    &&& t.sources@.len() == et.source_files@.len()
    &&& forall|i: int|
        0 <= i < et.source_files@.len() ==> raw_is(#[trigger] t.sources@[i], rooted(root, et.source_files@[i]@))
    &&& t.properties@.len() == 0
    &&& t.compile_defs.privs@.len() == 0 && t.compile_defs.pubs@.len() == 0 && t.compile_defs.ifcs@.len() == 0
    &&& t.compile_opts.privs@.len() == 0 && t.compile_opts.pubs@.len() == 0 && t.compile_opts.ifcs@.len() == 0
    &&& t.features.privs@.len() == 0 && t.features.pubs@.len() == 0 && t.features.ifcs@.len() == 0
    &&& t.include_dirs.privs@.len() == 0 && t.include_dirs.ifcs@.len() == 0
    &&& t.link_libs.ifcs@.len() == 0
    &&& match et.target_type {
        TargetType::StaticLibrary => {
            &&& t.kind == TargetKind::Library(LibType::Static)
            &&& t.include_dirs.pubs@.len() == et.public_include@.len()
            &&& forall|i: int|
                0 <= i < et.public_include@.len() ==> raw_is(
                    #[trigger] t.include_dirs.pubs@[i],
                    rooted(root, et.public_include@[i]@),
                )
            &&& t.link_libs.privs@.len() == 0
            &&& t.link_libs.pubs@.len() == et.link@.len() + 1
            &&& raw_is(t.link_libs.pubs@[0], "${CONANDEPS_LEGACY}"@)
            &&& forall|i: int| 0 <= i < et.link@.len() ==> str_is(#[trigger] t.link_libs.pubs@[i + 1], et.link@[i]@)
        },
        TargetType::Executable => {
            &&& t.kind == TargetKind::Executable
            &&& t.include_dirs.pubs@.len() == 0
            &&& t.link_libs.pubs@.len() == 0
            &&& if et.link@.len() == 0 {
                t.link_libs.privs@.len() == 1 && raw_is(t.link_libs.privs@[0], "${CONANDEPS_LEGACY}"@)
            } else {
                &&& t.link_libs.privs@.len() == et.link@.len()
                &&& forall|i: int| 0 <= i < et.link@.len() ==> str_is(#[trigger] t.link_libs.privs@[i], et.link@[i]@)
            }
        },
    }
}

/// The CMake project of `config`: C++ at the configured standard (required),
/// compile commands exported or not as configured, the Conan dependencies
/// included, one target per effective target, and the test suite when there
/// are test files.
pub open spec fn cmake_project_of(
    p: Project,
    config: Config,
    ts: Seq<EffectiveTarget>,
    root: Seq<char>,
    test_files: Seq<Seq<char>>,
    src_files: Seq<Seq<char>>,
) -> bool {
    &&& p.name@ == config.project.name@
    &&& p.version matches Some(v) && v@ == "0.1.0"@
    &&& p.cmake_min@ == "3.21"@
    &&& p.languages@.len() == 1 && p.languages@[0]@ == "CXX"@
    &&& p.packages@.len() == 0
    &&& p.settings@.len() == 3
    &&& p.settings@[0].name@ == "CMAKE_CXX_STANDARD"@
    &&& str_is(p.settings@[0].value, standard_text(config.project.standard))
    &&& p.settings@[1].name@ == "CMAKE_CXX_STANDARD_REQUIRED"@
    &&& str_is(p.settings@[1].value, "ON"@)
    &&& p.settings@[2].name@ == "CMAKE_EXPORT_COMPILE_COMMANDS"@
    &&& str_is(
        p.settings@[2].value,
        if config.cmake.export_compile_commands {
            "ON"@
        } else {
            "OFF"@
        },
    )
    &&& p.includes@.len() == 1
    &&& str_is(p.includes@[0], "${CMAKE_BINARY_DIR}/conandeps_legacy.cmake"@)
    &&& p.targets@.len() == ts.len()
    &&& forall|i: int| 0 <= i < ts.len() ==> cmake_target_of(#[trigger] p.targets@[i], ts[i], root)
    &&& if test_files.len() == 0 {
        p.tests is None
    } else {
        p.tests matches Some(s) && test_suite_of(
            s,
            config.project.name@,
            library_names(ts),
            root,
            standard_number(config.project.standard),
            test_files,
            src_files,
        )
    }
}

/// `p` is the project generated for `config`, for some choice of the
/// effective targets and of the root reference that the contracts of
/// [`effective_targets`] and [`cmake_project_root_ref`] allow.
pub open spec fn generated_project(
    p: Project,
    config: Config,
    test_files: Seq<Seq<char>>,
    src_files: Seq<Seq<char>>,
    dirs: Seq<SourceDir>,
) -> bool {
    exists|ts: Seq<EffectiveTarget>, root: Seq<char>|
        effective_targets_of(ts, config, src_files, dirs) && root_ref_for(config.project.cache_dir@, root)
            && cmake_project_of(p, config, ts, root, test_files, src_files)
}

/// Why no `CMakeLists.txt` could be generated.
#[derive(Debug)]
pub enum GenerateError {
    /// The declared targets are inconsistent.
    Targets(TargetError),
    /// The project could not be written out.
    Emit(EmitError),
}

/// The CMake target of one effective target (see [`cmake_target_of`]).
fn cmake_target(et: &EffectiveTarget, root: &str) -> (t: Target)
    ensures
        cmake_target_of(t, *et, root@),
{
    let mut sources: Vec<Value> = Vec::new();
    let mut i: usize = 0;
    while i < et.source_files.len()
        invariant
            i <= et.source_files@.len(),
            sources@.len() == i,
            forall|k: int| 0 <= k < i ==> raw_is(#[trigger] sources@[k], rooted(root@, et.source_files@[k]@)),
        decreases et.source_files@.len() - i,
    {
        sources.push(project_root_value(root, et.source_files[i].as_str()));
        i += 1;
    }
    match et.target_type {
        TargetType::StaticLibrary => {
            let mut t = Target::library(et.name.as_str(), LibType::Static).srcs(sources);
            let mut k: usize = 0;
            while k < et.public_include.len()
                invariant
                    k <= et.public_include@.len(),
                    et.target_type == TargetType::StaticLibrary,
                    t.name@ == et.name@,
                    t.kind == TargetKind::Library(LibType::Static),
                    t.sources@.len() == et.source_files@.len(),
                    forall|j: int|
                        0 <= j < et.source_files@.len() ==> raw_is(#[trigger] t.sources@[j], rooted(root@, et.source_files@[j]@)),
                    t.properties@.len() == 0,
                    t.compile_defs.privs@.len() == 0 && t.compile_defs.pubs@.len() == 0 && t.compile_defs.ifcs@.len() == 0,
                    t.compile_opts.privs@.len() == 0 && t.compile_opts.pubs@.len() == 0 && t.compile_opts.ifcs@.len() == 0,
                    t.features.privs@.len() == 0 && t.features.pubs@.len() == 0 && t.features.ifcs@.len() == 0,
                    t.include_dirs.privs@.len() == 0 && t.include_dirs.ifcs@.len() == 0,
                    t.link_libs.privs@.len() == 0 && t.link_libs.pubs@.len() == 0 && t.link_libs.ifcs@.len() == 0,
                    t.include_dirs.pubs@.len() == k,
                    forall|j: int|
                        0 <= j < k ==> raw_is(#[trigger] t.include_dirs.pubs@[j], rooted(root@, et.public_include@[j]@)),
                decreases et.public_include@.len() - k,
            {
                let ghost prev = t;
                t = t.include_dir(Scope::PUBLIC, project_root_value(root, et.public_include[k].as_str()));
                assert(t.include_dirs.in_scope(Scope::PRIVATE) == prev.include_dirs.in_scope(Scope::PRIVATE));
                assert(t.include_dirs.in_scope(Scope::INTERFACE) == prev.include_dirs.in_scope(Scope::INTERFACE));
                k += 1;
            }
            let ghost prev = t;
            t = t.link(Scope::PUBLIC, Value::Raw(owned("${CONANDEPS_LEGACY}")));
            assert(t.link_libs.in_scope(Scope::PRIVATE) == prev.link_libs.in_scope(Scope::PRIVATE));
            assert(t.link_libs.in_scope(Scope::INTERFACE) == prev.link_libs.in_scope(Scope::INTERFACE));
            let mut k: usize = 0;
            while k < et.link.len()
                invariant
                    k <= et.link@.len(),
                    et.target_type == TargetType::StaticLibrary,
                    t.name@ == et.name@,
                    t.kind == TargetKind::Library(LibType::Static),
                    t.sources@.len() == et.source_files@.len(),
                    forall|j: int|
                        0 <= j < et.source_files@.len() ==> raw_is(#[trigger] t.sources@[j], rooted(root@, et.source_files@[j]@)),
                    t.properties@.len() == 0,
                    t.compile_defs.privs@.len() == 0 && t.compile_defs.pubs@.len() == 0 && t.compile_defs.ifcs@.len() == 0,
                    t.compile_opts.privs@.len() == 0 && t.compile_opts.pubs@.len() == 0 && t.compile_opts.ifcs@.len() == 0,
                    t.features.privs@.len() == 0 && t.features.pubs@.len() == 0 && t.features.ifcs@.len() == 0,
                    t.include_dirs.privs@.len() == 0 && t.include_dirs.ifcs@.len() == 0,
                    t.include_dirs.pubs@.len() == et.public_include@.len(),
                    forall|j: int|
                        0 <= j < et.public_include@.len() ==> raw_is(#[trigger] t.include_dirs.pubs@[j], rooted(root@, et.public_include@[j]@)),
                    t.link_libs.privs@.len() == 0 && t.link_libs.ifcs@.len() == 0,
                    t.link_libs.pubs@.len() == k + 1,
                    raw_is(t.link_libs.pubs@[0], "${CONANDEPS_LEGACY}"@),
                    forall|j: int| 0 <= j < k ==> str_is(#[trigger] t.link_libs.pubs@[j + 1], et.link@[j]@),
                decreases et.link@.len() - k,
            {
                let ghost prev = t;
                t = t.link(Scope::PUBLIC, Value::Str(et.link[k].clone()));
                assert(t.link_libs.in_scope(Scope::PRIVATE) == prev.link_libs.in_scope(Scope::PRIVATE));
                assert(t.link_libs.in_scope(Scope::INTERFACE) == prev.link_libs.in_scope(Scope::INTERFACE));
                k += 1;
            }
            t
        },
        TargetType::Executable => {
            let mut t = Target::executable(et.name.as_str()).srcs(sources);
            if et.link.len() == 0 {
                let ghost prev = t;
                t = t.link(Scope::PRIVATE, Value::Raw(owned("${CONANDEPS_LEGACY}")));
                assert(t.link_libs.in_scope(Scope::PUBLIC) == prev.link_libs.in_scope(Scope::PUBLIC));
                assert(t.link_libs.in_scope(Scope::INTERFACE) == prev.link_libs.in_scope(Scope::INTERFACE));
            } else {
                let mut k: usize = 0;
                while k < et.link.len()
                    invariant
                        k <= et.link@.len(),
                        et.target_type == TargetType::Executable,
                        t.name@ == et.name@,
                        t.kind == TargetKind::Executable,
                        t.sources@.len() == et.source_files@.len(),
                        forall|j: int|
                            0 <= j < et.source_files@.len() ==> raw_is(#[trigger] t.sources@[j], rooted(root@, et.source_files@[j]@)),
                        t.properties@.len() == 0,
                        t.compile_defs.privs@.len() == 0 && t.compile_defs.pubs@.len() == 0 && t.compile_defs.ifcs@.len() == 0,
                        t.compile_opts.privs@.len() == 0 && t.compile_opts.pubs@.len() == 0 && t.compile_opts.ifcs@.len() == 0,
                        t.features.privs@.len() == 0 && t.features.pubs@.len() == 0 && t.features.ifcs@.len() == 0,
                        t.include_dirs.privs@.len() == 0 && t.include_dirs.pubs@.len() == 0 && t.include_dirs.ifcs@.len() == 0,
                        t.link_libs.pubs@.len() == 0 && t.link_libs.ifcs@.len() == 0,
                        t.link_libs.privs@.len() == k,
                        forall|j: int| 0 <= j < k ==> str_is(#[trigger] t.link_libs.privs@[j], et.link@[j]@),
                    decreases et.link@.len() - k,
                {
                    let ghost prev = t;
                    t = t.link(Scope::PRIVATE, Value::Str(et.link[k].clone()));
                    assert(t.link_libs.in_scope(Scope::PUBLIC) == prev.link_libs.in_scope(Scope::PUBLIC));
                    assert(t.link_libs.in_scope(Scope::INTERFACE) == prev.link_libs.in_scope(Scope::INTERFACE));
                    k += 1;
                }
            }
            t
        },
    }
}

/// The text of the project's `CMakeLists.txt` (see [`cmake_project_of`]).
/// `test_files` are the sources in the test directory, `src_files` those
/// under `src/`, and `dirs` the directories among the declared source
/// entries with the files under them.
pub fn generate_cmakelists(
    config: &Config,
    test_files: &Vec<String>,
    src_files: &Vec<String>,
    dirs: &[SourceDir],
) -> (r: Result<String, GenerateError>)
    ensures
        declares_targets(config.lib@, config.bin@) && !targets_valid(config.lib@, config.bin@) ==> (r matches Err(
            GenerateError::Targets(e),
        ) && reports_first_problem(config.lib@, config.bin@, e)),
        !declares_targets(config.lib@, config.bin@) || targets_valid(config.lib@, config.bin@) ==> exists|p: Project|
            generated_project(p, *config, strings_view(test_files@), strings_view(src_files@), dirs@)
                && match p.render() {
                Ok(t) => r matches Ok(s) && s@ == t,
                Err(e) => r matches Err(GenerateError::Emit(x)) && x == e,
            },
{
    let std_str = config.project.standard.to_string();
    let root = cmake_project_root_ref(config.project.cache_dir.as_str());
    let targets = match effective_targets(config, src_files, dirs) {
        Ok(ts) => ts,
        Err(e) => {
            return Err(GenerateError::Targets(e));
        },
    };
    let mut lib_names: Vec<String> = Vec::new();
    let mut i: usize = 0;
    while i < targets.len()
        invariant
            i <= targets@.len(),
            strings_view(lib_names@) == library_names(targets@.take(i as int)),
        decreases targets@.len() - i,
    {
        assert(targets@.take(i + 1).drop_last() =~= targets@.take(i as int));
        match targets[i].target_type {
            TargetType::StaticLibrary => {
                lib_names.push(targets[i].name.clone());
                assert(strings_view(lib_names@) =~= library_names(targets@.take(i as int)).push(targets@[i as int].name@));
            },
            TargetType::Executable => {},
        }
        i += 1;
    }
    assert(targets@.take(targets@.len() as int) =~= targets@);
    let export = if config.cmake.export_compile_commands {
        owned("ON")
    } else {
        owned("OFF")
    };
    let mut project = Project::new(config.project.name.as_str()).lang(&["CXX"]).set_var(
        "CMAKE_CXX_STANDARD",
        Value::Str(std_str),
    ).set_on("CMAKE_CXX_STANDARD_REQUIRED").set_var("CMAKE_EXPORT_COMPILE_COMMANDS", Value::Str(export)).include_path(
        Value::Str(owned("${CMAKE_BINARY_DIR}/conandeps_legacy.cmake")),
    );
    assert(project.languages@[0]@ == "CXX"@);
    let mut i: usize = 0;
    while i < targets.len()
        invariant
            i <= targets@.len(),
            project.name@ == config.project.name@,
            project.version matches Some(v) && v@ == "0.1.0"@,
            project.cmake_min@ == "3.21"@,
            project.languages@.len() == 1 && project.languages@[0]@ == "CXX"@,
            project.packages@.len() == 0,
            project.settings@.len() == 3,
            project.settings@[0].name@ == "CMAKE_CXX_STANDARD"@,
            str_is(project.settings@[0].value, standard_text(config.project.standard)),
            project.settings@[1].name@ == "CMAKE_CXX_STANDARD_REQUIRED"@,
            str_is(project.settings@[1].value, "ON"@),
            project.settings@[2].name@ == "CMAKE_EXPORT_COMPILE_COMMANDS"@,
            str_is(
                project.settings@[2].value,
                if config.cmake.export_compile_commands {
                    "ON"@
                } else {
                    "OFF"@
                },
            ),
            project.includes@.len() == 1,
            str_is(project.includes@[0], "${CMAKE_BINARY_DIR}/conandeps_legacy.cmake"@),
            project.tests is None,
            project.targets@.len() == i,
            forall|k: int| 0 <= k < i ==> cmake_target_of(#[trigger] project.targets@[k], targets@[k], root@),
        decreases targets@.len() - i,
    {
        project = project.target(cmake_target(&targets[i], root.as_str()));
        i += 1;
    }
    match build_test_suite(config, &lib_names, root.as_str(), test_files, src_files) {
        Some(suite) => {
            project = project.with_tests(suite);
        },
        None => {},
    }
    assert(cmake_project_of(project, *config, targets@, root@, strings_view(test_files@), strings_view(src_files@)));
    assert(generated_project(project, *config, strings_view(test_files@), strings_view(src_files@), dirs@));
    match project.emit() {
        Ok(s) => Ok(s),
        Err(e) => Err(GenerateError::Emit(e)),
    }
}

} // verus!
