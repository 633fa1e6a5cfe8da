//! A small typed model of a `CMakeLists.txt` file and its rendering to text.
//!
//! The model is built with chained builder calls (`Project::new(..).target(..)`)
//! and turned into text by [`Project::emit`], whose contract is the exact text
//! given by [`Project::render`].

use vstd::prelude::*;
use crate::text::{
    char_is_space, contains, decimal, flat_map_chars, is_space, lemma_flat_map_step, occurs_at, owned,
    push_char, push_decimal, push_str, str_chars,
};

verus! {

/// An argument of a CMake command.
#[derive(Debug)]
pub enum Value {
    /// A normal argument, quoted when it has to be.
    Str(String),
    /// Emitted exactly as given (for `${VAR}`, `$<GENEX>`, ...).
    Raw(String),
    /// `;`-joined values.
    List(Vec<Value>),
    /// A block emitted as `[=[ ... ]=]`.
    Bracket(String),
}

#[derive(Debug, Clone, Copy, PartialEq, Eq)]
pub enum LibType {
    Static,
    Shared,
    Interface,
}

#[allow(non_camel_case_types)]
#[derive(Debug, Clone, Copy, PartialEq, Eq)]
pub enum Scope {
    PRIVATE,
    PUBLIC,
    INTERFACE,
}

/// Values of a `target_*` command, grouped by visibility scope.
#[derive(Debug)]
pub struct ScopedList {
    pub privs: Vec<Value>,
    pub pubs: Vec<Value>,
    pub ifcs: Vec<Value>,
}

#[derive(Debug)]
pub enum TargetKind {
    Executable,
    Library(LibType),
}

#[derive(Debug)]
pub struct Target {
    pub name: String,
    pub kind: TargetKind,
    pub sources: Vec<Value>,
    pub include_dirs: ScopedList,
    pub compile_defs: ScopedList,
    pub compile_opts: ScopedList,
    pub link_libs: ScopedList,
    pub features: ScopedList,
    pub properties: Vec<(String, Value)>,
}

#[derive(Debug)]
pub struct Package {
    pub name: String,
    pub required: bool,
    pub config_only: bool,
    pub components: Vec<String>,
}

#[derive(Debug)]
pub struct CMakeSetting {
    pub name: String,
    pub value: Value,
}

#[derive(Debug)]
pub enum DiscoverMode {
    PreTest,
    PostBuild,
}

#[derive(Debug)]
pub enum TestFramework {
    GoogleTest {
        config_mode: bool,
        inline_main_var: String,
        inline_main_body: String,
        discover_mode: DiscoverMode,
    },
}

#[derive(Debug)]
pub struct TestEntry {
    /// Name of the test executable (already a valid identifier).
    pub exe_name: String,
    pub sources: Vec<Value>,
    pub link: Vec<Value>,
    /// `TEST_PREFIX` handed to `gtest_discover_tests`.
    pub prefix: String,
    /// Emits `target_compile_features(... cxx_std_<N>)` when present.
    pub cxx_standard: Option<u16>,
}

#[derive(Debug)]
pub struct TestSuite {
    pub aggregate_target: String,
    pub framework: TestFramework,
    pub entries: Vec<TestEntry>,
}

#[derive(Debug)]
pub struct Project {
    pub name: String,
    pub version: Option<String>,
    /// Minimum CMake version, e.g. "3.21".
    pub cmake_min: String,
    pub languages: Vec<String>,
    pub targets: Vec<Target>,
    pub packages: Vec<Package>,
    pub settings: Vec<CMakeSetting>,
    pub includes: Vec<Value>,
    pub tests: Option<TestSuite>,
}

/// Why a project could not be rendered.
#[derive(Debug, Clone, PartialEq, Eq)]
pub enum EmitError {
    /// An `INTERFACE` library was given sources.
    InterfaceWithSources(String),
    /// A `Value::List` holds another list.
    NestedList,
    /// A `Value::List` holds a bracket argument.
    BracketInList,
}

impl EmitError {
    pub open spec fn message(&self) -> Seq<char> {
        match self {
            EmitError::InterfaceWithSources(name) => "INTERFACE library '"@ + name@
                + "' cannot have sources"@,
            EmitError::NestedList => "nested lists are not supported in Value::List"@,
            EmitError::BracketInList => "bracket args are only valid as standalone payloads"@,
        }
    }

    /// The error message.
    pub fn to_string(&self) -> (r: String)
        ensures
            r@ == self.message(),
    {
        match self {
            EmitError::InterfaceWithSources(name) => {
                let mut r = owned("INTERFACE library '");
                push_str(&mut r, name.as_str());
                push_str(&mut r, "' cannot have sources");
                r
            },
            EmitError::NestedList => owned("nested lists are not supported in Value::List"),
            EmitError::BracketInList => owned("bracket args are only valid as standalone payloads"),
        }
    }
}

// ---------------------------------------------------------------------------
// The text of a project
// ---------------------------------------------------------------------------

/// Text, or the first error met while producing it.
pub type Rendered = Result<Seq<char>, EmitError>;

/// Concatenation that keeps the first error.
pub open spec fn cat(a: Rendered, b: Rendered) -> Rendered {
    match a {
        Err(e) => Err(e),
        Ok(x) => match b {
            Err(e) => Err(e),
            Ok(y) => Ok(x + y),
        },
    }
}

pub open spec fn quote_esc() -> spec_fn(char) -> Seq<char> {
    |c: char| escape_in_quotes(c)
}

pub open spec fn list_esc() -> spec_fn(char) -> Seq<char> {
    |c: char| escape_in_list(c)
}

pub open spec fn sep_fn() -> spec_fn(Value) -> Rendered {
    |v: Value| sep_item(v)
}

pub open spec fn prop_fn(name: Seq<char>) -> spec_fn((String, Value)) -> Rendered {
    |p: (String, Value)| render_prop(name, p)
}

pub open spec fn target_fn() -> spec_fn(Target) -> Rendered {
    |t: Target| render_target(t)
}

pub open spec fn setting_fn() -> spec_fn(CMakeSetting) -> Rendered {
    |x: CMakeSetting| render_setting(x)
}

pub open spec fn package_fn() -> spec_fn(Package) -> Seq<char> {
    |p: Package| render_package(p)
}

pub open spec fn entry_fn(aggregate: Seq<char>, mode: DiscoverMode) -> spec_fn(TestEntry) -> Rendered {
    |e: TestEntry| render_entry(e, aggregate, mode)
}

/// Characters that force an argument into double quotes.
pub open spec fn forces_quotes(c: char) -> bool {
    is_space(c) || c == ';' || c == '#' || c == '(' || c == ')' || c == '"'
}

pub open spec fn needs_quotes(s: Seq<char>) -> bool {
    exists|i: int| 0 <= i < s.len() && forces_quotes(s[i])
}

pub open spec fn escape_in_quotes(c: char) -> Seq<char> {
    if c == '\\' {
        seq!['\\', '\\']
    } else if c == '"' {
        seq!['\\', '"']
    } else {
        seq![c]
    }
}

pub open spec fn escape_in_list(c: char) -> Seq<char> {
    if c == ';' {
        seq!['\\', ';']
    } else {
        seq![c]
    }
}

/// A normal argument as written in the file: unchanged unless it holds
/// whitespace or one of `;#()"`, in which case it is double-quoted with `\`
/// and `"` escaped.
pub open spec fn quote(s: Seq<char>) -> Seq<char> {
    if needs_quotes(s) {
        seq!['"'] + flat_map_chars(s, quote_esc()) + seq!['"']
    } else {
        s
    }
}

pub open spec fn list_item(v: Value) -> Rendered {
    match v {
        Value::Str(s) => Ok(flat_map_chars(s@, list_esc())),
        Value::Raw(s) => Ok(s@),
        Value::List(_) => Err(EmitError::NestedList),
        Value::Bracket(_) => Err(EmitError::BracketInList),
    }
}

/// Left-to-right concatenation of `f(x)` over `xs`, stopping at the first error.
pub open spec fn fold_render<T>(xs: Seq<T>, f: spec_fn(T) -> Rendered) -> Rendered
    decreases xs.len(),
{
    if xs.len() == 0 {
        Ok(seq![])
    } else {
        cat(fold_render(xs.drop_last(), f), f(xs.last()))
    }
}

/// Left-to-right concatenation of `f(x)` over `xs`.
pub open spec fn fold_text<T>(xs: Seq<T>, f: spec_fn(T) -> Seq<char>) -> Seq<char>
    decreases xs.len(),
{
    if xs.len() == 0 {
        seq![]
    } else {
        fold_text(xs.drop_last(), f) + f(xs.last())
    }
}

pub open spec fn sep_item(v: Value) -> Rendered {
    cat(Ok(";"@), list_item(v))
}

/// The items of a list joined by `;` (strings have their `;` escaped).
pub open spec fn render_list(xs: Seq<Value>) -> Rendered {
    if xs.len() == 0 {
        Ok(seq![])
    } else {
        cat(list_item(xs[0]), fold_render(xs.skip(1), sep_fn()))
    }
}

/// The text of one argument.
pub open spec fn render_value(v: Value) -> Rendered {
    match v {
        Value::Str(s) => Ok(quote(s@)),
        Value::Raw(s) => Ok(s@),
        Value::List(xs) => render_list(xs@),
        Value::Bracket(b) => Ok("[=[\n"@ + b@ + "]=]"@),
    }
}

pub open spec fn framed(pre: Seq<char>, post: Seq<char>) -> spec_fn(Value) -> Rendered {
    |v: Value| cat(cat(Ok(pre), render_value(v)), Ok(post))
}

/// Each value framed by `pre` and `post`, one after the other.
pub open spec fn render_each(xs: Seq<Value>, pre: Seq<char>, post: Seq<char>) -> Rendered {
    fold_render(xs, framed(pre, post))
}

pub open spec fn framed_text(pre: Seq<char>, post: Seq<char>) -> spec_fn(String) -> Seq<char> {
    |s: String| pre + s@ + post
}

/// Each string framed by `pre` and `post`, one after the other.
pub open spec fn join_each(xs: Seq<String>, pre: Seq<char>, post: Seq<char>) -> Seq<char> {
    fold_text(xs, framed_text(pre, post))
}

/// The strings separated by `sep`.
pub open spec fn join_with(xs: Seq<String>, sep: Seq<char>) -> Seq<char> {
    if xs.len() == 0 {
        seq![]
    } else {
        xs[0]@ + join_each(xs.skip(1), sep, seq![])
    }
}

pub open spec fn render_block(header: Seq<char>, xs: Seq<Value>) -> Rendered {
    if xs.len() == 0 {
        Ok(seq![])
    } else {
        cat(Ok(header), render_each(xs, "        "@, "\n"@))
    }
}

/// A `target_*` command for one scoped list, or nothing when the list is empty.
pub open spec fn render_scoped(cmd: Seq<char>, target: Seq<char>, l: ScopedList) -> Rendered {
    if l.privs.len() == 0 && l.pubs.len() == 0 && l.ifcs.len() == 0 {
        Ok(seq![])
    } else {
        cat(
            cat(
                cat(
                    cat(Ok(cmd + "("@ + target + "\n"@), render_block("    PRIVATE\n"@, l.privs@)),
                    render_block("    PUBLIC\n"@, l.pubs@),
                ),
                render_block("    INTERFACE\n"@, l.ifcs@),
            ),
            Ok(")\n"@),
        )
    }
}

/// `l` holds the one value `Raw(x)` under `scope` and nothing else.
pub open spec fn only_raw(l: ScopedList, scope: Scope, x: Seq<char>) -> bool {
    let one = |v: Seq<Value>| v.len() == 1 && (v[0] matches Value::Raw(s) && s@ == x);
    match scope {
        Scope::PRIVATE => one(l.privs@) && l.pubs@.len() == 0 && l.ifcs@.len() == 0,
        Scope::PUBLIC => l.privs@.len() == 0 && one(l.pubs@) && l.ifcs@.len() == 0,
        Scope::INTERFACE => l.privs@.len() == 0 && l.pubs@.len() == 0 && one(l.ifcs@),
    }
}

/// A block holding the one value `Raw(x)`: the keyword line, then `x`
/// indented on a line of its own.
proof fn lemma_one_value_block(kw: Seq<char>, v: Seq<Value>, x: Seq<char>)
    requires
        v.len() == 1,
        v[0] matches Value::Raw(s) && s@ == x,
    ensures
        render_block(kw, v) == Ok::<Seq<char>, EmitError>(kw + "        "@ + x + "\n"@),
{
    reveal_with_fuel(fold_render, 2);
    assert(v.drop_last() =~= Seq::<Value>::empty());
    assert(render_value(v[0]) == Ok::<Seq<char>, EmitError>(x));
    let y = "        "@ + x + "\n"@;
    assert(Seq::<char>::empty() + y =~= y);
    assert(render_each(v, "        "@, "\n"@) == Ok::<Seq<char>, EmitError>(y));
    assert(kw + y =~= kw + "        "@ + x + "\n"@);
}

/// A `target_*` command writes each value under the keyword of its own
/// scope: one value `x` in scope `PRIVATE`, `PUBLIC` or `INTERFACE` gives
/// `cmd(target`, the keyword, `x` on a line of its own, and `)`.
#[verifier::spinoff_prover]
pub proof fn lemma_scoped_keyword(cmd: Seq<char>, target: Seq<char>, l: ScopedList, x: Seq<char>)
    ensures
        only_raw(l, Scope::PRIVATE, x) ==> render_scoped(cmd, target, l) == Ok::<Seq<char>, EmitError>(
            cmd + "("@ + target + "\n    PRIVATE\n        "@ + x + "\n)\n"@,
        ),
        only_raw(l, Scope::PUBLIC, x) ==> render_scoped(cmd, target, l) == Ok::<Seq<char>, EmitError>(
            cmd + "("@ + target + "\n    PUBLIC\n        "@ + x + "\n)\n"@,
        ),
        only_raw(l, Scope::INTERFACE, x) ==> render_scoped(cmd, target, l) == Ok::<Seq<char>, EmitError>(
            cmd + "("@ + target + "\n    INTERFACE\n        "@ + x + "\n)\n"@,
        ),
{
    let head = cmd + "("@ + target + "\n"@;
    if only_raw(l, Scope::PRIVATE, x) {
        lemma_one_value_block("    PRIVATE\n"@, l.privs@, x);
        reveal_strlit("\n");
        reveal_strlit("    PRIVATE\n");
        reveal_strlit("        ");
        reveal_strlit(")\n");
        reveal_strlit("\n    PRIVATE\n        ");
        reveal_strlit("\n)\n");
        assert(head + ("    PRIVATE\n"@ + "        "@ + x + "\n"@) + seq![] + seq![] + ")\n"@ =~= cmd + "("@
            + target + "\n    PRIVATE\n        "@ + x + "\n)\n"@);
    }
    if only_raw(l, Scope::PUBLIC, x) {
        lemma_one_value_block("    PUBLIC\n"@, l.pubs@, x);
        reveal_strlit("\n");
        reveal_strlit("    PUBLIC\n");
        reveal_strlit("        ");
        reveal_strlit(")\n");
        reveal_strlit("\n    PUBLIC\n        ");
        reveal_strlit("\n)\n");
        assert(head + seq![] + ("    PUBLIC\n"@ + "        "@ + x + "\n"@) + seq![] + ")\n"@ =~= cmd + "("@
            + target + "\n    PUBLIC\n        "@ + x + "\n)\n"@);
    }
    if only_raw(l, Scope::INTERFACE, x) {
        lemma_one_value_block("    INTERFACE\n"@, l.ifcs@, x);
        reveal_strlit("\n");
        reveal_strlit("    INTERFACE\n");
        reveal_strlit("        ");
        reveal_strlit(")\n");
        reveal_strlit("\n    INTERFACE\n        ");
        reveal_strlit("\n)\n");
        assert(head + seq![] + seq![] + ("    INTERFACE\n"@ + "        "@ + x + "\n"@) + ")\n"@ =~= cmd
            + "("@ + target + "\n    INTERFACE\n        "@ + x + "\n)\n"@);
    }
}

pub open spec fn lib_word(k: LibType) -> Seq<char> {
    match k {
        LibType::Static => "STATIC"@,
        LibType::Shared => "SHARED"@,
        LibType::Interface => "INTERFACE"@,
    }
}

pub open spec fn render_target_head(t: Target) -> Rendered {
    match t.kind {
        TargetKind::Executable => cat(
            cat(Ok("add_executable("@ + t.name@), render_each(t.sources@, " "@, seq![])),
            Ok(")\n"@),
        ),
        TargetKind::Library(k) => cat(
            cat(
                Ok("add_library("@ + t.name@ + " "@ + lib_word(k)),
                if k == LibType::Interface {
                    Ok(seq![])
                } else {
                    render_each(t.sources@, " "@, seq![])
                },
            ),
            Ok(")\n"@),
        ),
    }
}

pub open spec fn render_prop(name: Seq<char>, p: (String, Value)) -> Rendered {
    cat(
        cat(Ok("set_target_properties("@ + name + " PROPERTIES "@ + p.0@ + " "@), render_value(p.1)),
        Ok(")\n"@),
    )
}

pub open spec fn render_props(name: Seq<char>, ps: Seq<(String, Value)>) -> Rendered {
    fold_render(ps, prop_fn(name))
}

pub open spec fn render_target_lists(t: Target) -> Rendered {
    cat(
        cat(
            cat(
                cat(
                    render_scoped("target_include_directories"@, t.name@, t.include_dirs),
                    render_scoped("target_compile_definitions"@, t.name@, t.compile_defs),
                ),
                render_scoped("target_compile_options"@, t.name@, t.compile_opts),
            ),
            render_scoped("target_link_libraries"@, t.name@, t.link_libs),
        ),
        render_scoped("target_compile_features"@, t.name@, t.features),
    )
}

/// The commands of one target; an `INTERFACE` library with sources is an error.
pub open spec fn render_target(t: Target) -> Rendered {
    if t.kind == TargetKind::Library(LibType::Interface) && t.sources.len() > 0 {
        Err(EmitError::InterfaceWithSources(t.name))
    } else {
        cat(
            cat(cat(render_target_head(t), render_target_lists(t)), render_props(t.name@, t.properties@)),
            Ok("\n"@),
        )
    }
}

pub open spec fn render_targets(ts: Seq<Target>) -> Rendered {
    fold_render(ts, target_fn())
}

pub open spec fn render_setting(s: CMakeSetting) -> Rendered {
    cat(cat(Ok("set("@ + s.name@ + " "@), render_value(s.value)), Ok(")\n"@))
}

pub open spec fn render_settings(ss: Seq<CMakeSetting>) -> Rendered {
    fold_render(ss, setting_fn())
}

pub open spec fn render_package(p: Package) -> Seq<char> {
    "find_package("@ + p.name@ + (if p.config_only {
        " CONFIG"@
    } else {
        seq![]
    }) + (if p.required {
        " REQUIRED"@
    } else {
        seq![]
    }) + (if p.components.len() > 0 {
        " COMPONENTS"@ + join_each(p.components@, " "@, seq![])
    } else {
        seq![]
    }) + ")\n"@
}

pub open spec fn render_packages(ps: Seq<Package>) -> Seq<char> {
    fold_text(ps, package_fn())
}

pub open spec fn mode_word(m: DiscoverMode) -> Seq<char> {
    match m {
        DiscoverMode::PreTest => "PRE_TEST"@,
        DiscoverMode::PostBuild => "POST_BUILD"@,
    }
}

pub open spec fn entry_links(e: TestEntry) -> Rendered {
    if e.link.len() > 0 {
        cat(
            cat(
                Ok("target_link_libraries("@ + e.exe_name@ + " PRIVATE"@),
                render_each(e.link@, " "@, seq![]),
            ),
            Ok(")\n"@),
        )
    } else {
        Ok(seq![])
    }
}

pub open spec fn entry_features(e: TestEntry) -> Seq<char> {
    match e.cxx_standard {
        Some(n) => "target_compile_features("@ + e.exe_name@ + " PRIVATE cxx_std_"@ + decimal(
            n as nat,
        ) + ")\n"@,
        None => seq![],
    }
}

pub open spec fn entry_prefix(e: TestEntry) -> Seq<char> {
    if e.prefix@.len() > 0 {
        " TEST_PREFIX "@ + quote(e.prefix@)
    } else {
        seq![]
    }
}

pub open spec fn entry_tail(e: TestEntry, aggregate: Seq<char>, mode: DiscoverMode) -> Seq<char> {
    entry_features(e) + "gtest_discover_tests("@ + e.exe_name@ + entry_prefix(e)
        + " DISCOVERY_MODE "@ + mode_word(mode) + ")\n"@ + "add_dependencies("@ + aggregate + " "@
        + e.exe_name@ + ")\n"@ + "\n"@
}

/// The commands for one test executable.
pub open spec fn render_entry(e: TestEntry, aggregate: Seq<char>, mode: DiscoverMode) -> Rendered {
    cat(
        cat(
            cat(
                cat(Ok("add_executable("@ + e.exe_name@), render_each(e.sources@, " "@, seq![])),
                Ok(")\n"@),
            ),
            entry_links(e),
        ),
        Ok(entry_tail(e, aggregate, mode)),
    )
}

pub open spec fn render_entries(es: Seq<TestEntry>, aggregate: Seq<char>, mode: DiscoverMode) -> Rendered {
    fold_render(es, entry_fn(aggregate, mode))
}

/// Text found inside a part of a text is found in the text.
proof fn lemma_occurs_within(t: Seq<char>, u: Seq<char>, v: Seq<char>, k: int, j: int)
    requires
        occurs_at(t, u, k),
        occurs_at(u, v, j),
    ensures
        occurs_at(t, v, k + j),
{
    assert(t.subrange(k + j, k + j + v.len()) =~= u.subrange(j, j + v.len()));
}

/// Each part of a rendered sequence lies in the whole.
proof fn lemma_fold_render_part<T>(xs: Seq<T>, f: spec_fn(T) -> Rendered, i: int, t: Seq<char>)
    requires
        fold_render(xs, f) == Ok::<Seq<char>, EmitError>(t),
        0 <= i < xs.len(),
    ensures
        f(xs[i]) matches Ok(u) && contains(t, u),
    decreases xs.len(),
{
    let ys = xs.drop_last();
    let a = fold_render(ys, f);
    let b = f(xs.last());
    if let (Ok(x), Ok(y)) = (a, b) {
        assert(t == x + y);
        if i == xs.len() - 1 {
            assert(t.subrange(x.len() as int, (x.len() + y.len()) as int) =~= y);
            assert(occurs_at(t, y, x.len() as int));
        } else {
            assert(ys[i] == xs[i]);
            lemma_fold_render_part(ys, f, i, x);
            let u = f(xs[i])->Ok_0;
            let k = choose|k: int| occurs_at(x, u, k);
            assert(t.subrange(k, k + u.len()) =~= x.subrange(k, k + u.len()));
            assert(occurs_at(t, u, k));
        }
    }
}

/// The commands of a test executable make the suite's aggregate target
/// depend on it.
proof fn lemma_entry_adds_dependency(e: TestEntry, aggregate: Seq<char>, mode: DiscoverMode, t: Seq<char>)
    requires
        render_entry(e, aggregate, mode) == Ok::<Seq<char>, EmitError>(t),
    ensures
        contains(t, "add_dependencies("@ + aggregate + " "@ + e.exe_name@ + ")\n"@),
{
    let tail = entry_tail(e, aggregate, mode);
    let front = entry_features(e) + "gtest_discover_tests("@ + e.exe_name@ + entry_prefix(e)
        + " DISCOVERY_MODE "@ + mode_word(mode) + ")\n"@;
    let dep = "add_dependencies("@ + aggregate + " "@ + e.exe_name@ + ")\n"@;
    assert(tail =~= front + dep + "\n"@);
    let p = t.take(t.len() - tail.len());
    assert(t =~= p + tail);
    let k: int = (p.len() + front.len()) as int;
    assert(t.subrange(k, k + dep.len()) =~= dep);
    assert(occurs_at(t, dep, k));
}

/// The aggregate target of a test suite depends on every test executable:
/// for each entry, the rendered file holds
/// `add_dependencies(<aggregate> <executable>)`.
pub proof fn lemma_suite_depends_on_every_test(p: Project, t: Seq<char>, i: int)
    requires
        p.render() == Ok::<Seq<char>, EmitError>(t),
        p.tests matches Some(ts) && 0 <= i < ts.entries@.len(),
    ensures
        p.tests matches Some(ts) && contains(
            t,
            "add_dependencies("@ + ts.aggregate_target@ + " "@ + ts.entries@[i].exe_name@ + ")\n"@,
        ),
{
    let ts = p.tests->Some_0;
    let agg = ts.aggregate_target@;
    let before = cat(
        cat(
            cat(
                cat(
                    cat(Ok(p.render_header()), render_settings(p.settings@)),
                    Ok("\n"@),
                ),
                render_each(p.includes@, "include("@, ")\n"@),
            ),
            Ok("\n"@ + render_packages(p.packages@) + "\n"@),
        ),
        render_targets(p.targets@),
    );
    let a = before->Ok_0;
    let rt = render_tests(p.tests)->Ok_0;
    assert(t == a + rt);
    match ts.framework {
        TestFramework::GoogleTest { config_mode, inline_main_var, inline_main_body, discover_mode } => {
            let pre = render_gtest_preamble(agg, config_mode, inline_main_var@, inline_main_body@);
            let es = render_entries(ts.entries@, agg, discover_mode)->Ok_0;
            assert(rt == pre + es);
            lemma_fold_render_part(ts.entries@, entry_fn(agg, discover_mode), i, es);
            let u = render_entry(ts.entries@[i], agg, discover_mode)->Ok_0;
            lemma_entry_adds_dependency(ts.entries@[i], agg, discover_mode, u);
            let dep = "add_dependencies("@ + agg + " "@ + ts.entries@[i].exe_name@ + ")\n"@;
            let j = choose|j: int| occurs_at(u, dep, j);
            let k = choose|k: int| occurs_at(es, u, k);
            lemma_occurs_within(es, u, dep, k, j);
            let off: int = (a.len() + pre.len()) as int;
            assert(t == (a + pre) + es);
            assert(t.subrange(off + k + j, off + k + j + dep.len()) =~= es.subrange(k + j, k + j + dep.len()));
            assert(occurs_at(t, dep, off + k + j));
        },
    }
}

/// The fixed GoogleTest preamble of a test suite.
pub open spec fn render_gtest_preamble(
    aggregate: Seq<char>,
    config_mode: bool,
    var: Seq<char>,
    body: Seq<char>,
) -> Seq<char> {
    "include(CTest)\n"@ + "enable_testing()\n"@ + "find_package(GTest"@ + (if config_mode {
        " CONFIG"@
    } else {
        seq![]
    }) + " REQUIRED)\n"@ + "set("@ + var + " "@ + "${CMAKE_CURRENT_BINARY_DIR}/_gtest_main.cpp"@
        + ")\n"@ + "file(WRITE "@ + "${"@ + var + "}"@ + " "@ + "[=[\n"@ + body + "]=]"@ + ")\n"@
        + "add_custom_target("@ + aggregate + ")\n"@ + "include(GoogleTest)\n"@
}

pub open spec fn render_tests(t: Option<TestSuite>) -> Rendered {
    match t {
        None => Ok(seq![]),
        Some(ts) => match ts.framework {
            TestFramework::GoogleTest {
                config_mode,
                inline_main_var,
                inline_main_body,
                discover_mode,
            } => cat(
                Ok(
                    render_gtest_preamble(
                        ts.aggregate_target@,
                        config_mode,
                        inline_main_var@,
                        inline_main_body@,
                    ),
                ),
                render_entries(ts.entries@, ts.aggregate_target@, discover_mode),
            ),
        },
    }
}

impl Project {
    /// The first lines: minimum version and `project(...)`.
    pub open spec fn render_header(self) -> Seq<char> {
        "cmake_minimum_required(VERSION "@ + self.cmake_min@ + ")\n"@ + if self.languages.len()
            == 0 {
            "project("@ + quote(self.name@) + ")\n"@
        } else {
            "project("@ + quote(self.name@) + " LANGUAGES "@ + join_with(self.languages@, " "@)
                + ")\n\n"@
        }
    }

    /// The complete `CMakeLists.txt`, or the first error met while writing it.
    pub open spec fn render(self) -> Rendered {
        cat(
            cat(
                cat(
                    cat(
                        cat(
                            cat(Ok(self.render_header()), render_settings(self.settings@)),
                            Ok("\n"@),
                        ),
                        render_each(self.includes@, "include("@, ")\n"@),
                    ),
                    Ok("\n"@ + render_packages(self.packages@) + "\n"@),
                ),
                render_targets(self.targets@),
            ),
            render_tests(self.tests),
        )
    }
}

/// What a writer that appends the text `spec` to `out` leaves behind: the
/// text appended on success, the same error otherwise.
pub open spec fn appended(
    r: Result<(), EmitError>,
    before: Seq<char>,
    after: Seq<char>,
    spec: Rendered,
) -> bool {
    match spec {
        Ok(t) => r is Ok && after == before + t,
        Err(e) => r == Err::<(), EmitError>(e),
    }
}

// ---------------------------------------------------------------------------
// Lemmas on the renderers
// ---------------------------------------------------------------------------

pub proof fn lemma_fold_step<T>(xs: Seq<T>, i: int, f: spec_fn(T) -> Rendered)
    requires
        0 <= i < xs.len(),
    ensures
        fold_render(xs.take(i + 1), f) == cat(fold_render(xs.take(i), f), f(xs[i])),
{
    assert(xs.take(i + 1).drop_last() =~= xs.take(i));
}

pub proof fn lemma_fold_err<T>(xs: Seq<T>, i: int, f: spec_fn(T) -> Rendered)
    requires
        0 <= i <= xs.len(),
        fold_render(xs.take(i), f) is Err,
    ensures
        fold_render(xs, f) == fold_render(xs.take(i), f),
    decreases xs.len() - i,
{
    if i == xs.len() {
        assert(xs.take(i) =~= xs);
    } else {
        lemma_fold_step(xs, i, f);
        lemma_fold_err(xs, i + 1, f);
    }
}

pub proof fn lemma_fold_text_step<T>(xs: Seq<T>, i: int, f: spec_fn(T) -> Seq<char>)
    requires
        0 <= i < xs.len(),
    ensures
        fold_text(xs.take(i + 1), f) == fold_text(xs.take(i), f) + f(xs[i]),
{
    assert(xs.take(i + 1).drop_last() =~= xs.take(i));
}

/// Sequencing two appending writers appends the concatenation.
pub proof fn lemma_appended_cat(
    r1: Result<(), EmitError>,
    r2: Result<(), EmitError>,
    a: Seq<char>,
    b: Seq<char>,
    c: Seq<char>,
    x: Rendered,
    y: Rendered,
)
    requires
        appended(r1, a, b, x),
        r1 is Ok,
        appended(r2, b, c, y),
    ensures
        appended(r2, a, c, cat(x, y)),
{
    if let Ok(t1) = x {
        if let Ok(t2) = y {
            assert(a + t1 + t2 =~= a + (t1 + t2));
        }
    }
}

/// A failed writer fails the whole sequence.
pub proof fn lemma_appended_err(
    r1: Result<(), EmitError>,
    a: Seq<char>,
    b: Seq<char>,
    x: Rendered,
    y: Rendered,
)
    requires
        appended(r1, a, b, x),
        r1 is Err,
    ensures
        forall|c: Seq<char>| appended(r1, a, c, cat(x, y)),
{
}

pub proof fn lemma_appended_text(a: Seq<char>, t: Seq<char>)
    ensures
        appended(Ok(()), a, a + t, Ok(t)),
{
}

// ---------------------------------------------------------------------------
// Writers
// ---------------------------------------------------------------------------

fn char_forces_quotes(c: char) -> (r: bool)
    ensures
        r == forces_quotes(c),
{
    char_is_space(c) || c == ';' || c == '#' || c == '(' || c == ')' || c == '"'
}

/// Quotes an argument when it has to be (see [`quote`]).
pub fn q(s: &str) -> (r: String)
    ensures
        r@ == quote(s@),
{
    let cs = str_chars(s);
    let mut needs = false;
    let mut i: usize = 0;
    while i < cs.len()
        invariant
            cs@ == s@,
            i <= cs.len(),
            needs == (exists|k: int| 0 <= k < i && forces_quotes(cs@[k])),
        decreases cs.len() - i,
    {
        if char_forces_quotes(cs[i]) {
            needs = true;
        }
        i += 1;
    }
    if !needs {
        return owned(s);
    }
    let mut r = String::new();
    push_char(&mut r, '"');
    let mut j: usize = 0;
    while j < cs.len()
        invariant
            cs@ == s@,
            j <= cs.len(),
            r@ == seq!['"'] + flat_map_chars(cs@.take(j as int), quote_esc()),
        decreases cs.len() - j,
    {
        let c = cs[j];
        proof {
            lemma_flat_map_step(cs@, j as int, quote_esc());
        }
        if c == '\\' {
            push_char(&mut r, '\\');
            push_char(&mut r, '\\');
        } else if c == '"' {
            push_char(&mut r, '\\');
            push_char(&mut r, '"');
        } else {
            push_char(&mut r, c);
        }
        assert(r@ =~= seq!['"'] + flat_map_chars(cs@.take(j + 1), quote_esc()));
        j += 1;
    }
    assert(cs@.take(cs.len() as int) =~= s@);
    push_char(&mut r, '"');
    r
}

fn emit_list_item(out: &mut String, v: &Value) -> (r: Result<(), EmitError>)
    ensures
        appended(r, old(out)@, final(out)@, list_item(*v)),
{
    match v {
        Value::Str(s) => {
            let cs = str_chars(s.as_str());
            let ghost start = out@;
            let mut j: usize = 0;
            while j < cs.len()
                invariant
                    cs@ == s@,
                    j <= cs.len(),
                    out@ == start + flat_map_chars(cs@.take(j as int), list_esc()),
                decreases cs.len() - j,
            {
                let c = cs[j];
                proof {
                    lemma_flat_map_step(cs@, j as int, list_esc());
                }
                if c == ';' {
                    push_char(out, '\\');
                    push_char(out, ';');
                } else {
                    push_char(out, c);
                }
                assert(out@ =~= start + flat_map_chars(cs@.take(j + 1), list_esc()));
                j += 1;
            }
            assert(cs@.take(cs.len() as int) =~= s@);
            Ok(())
        },
        Value::Raw(s) => {
            push_str(out, s.as_str());
            Ok(())
        },
        Value::List(_) => Err(EmitError::NestedList),
        Value::Bracket(_) => Err(EmitError::BracketInList),
    }
}

fn emit_list(out: &mut String, xs: &Vec<Value>) -> (r: Result<(), EmitError>)
    ensures
        appended(r, old(out)@, final(out)@, render_list(xs@)),
{
    if xs.len() == 0 {
        return Ok(());
    }
    let ghost start = out@;
    let r0 = emit_list_item(out, &xs[0]);
    if r0.is_err() {
        return r0;
    }
    let ghost first = out@;
    let ghost ys = xs@.skip(1);
    let mut i: usize = 1;
    while i < xs.len()
        invariant
            1 <= i <= xs.len(),
            ys == xs@.skip(1),
            appended(r0, start, first, list_item(xs@[0])),
            r0 is Ok,
            appended(Ok(()), first, out@, fold_render(ys.take(i - 1), sep_fn())),
        decreases xs.len() - i,
    {
        let ghost before = out@;
        push_str(out, ";");
        let ghost mid = out@;
        let ri = emit_list_item(out, &xs[i]);
        proof {
            assert(ys[i - 1] == xs@[i as int]);
            lemma_appended_text(before, ";"@);
            lemma_fold_step(ys, i - 1, sep_fn());
        }
        if ri.is_err() {
            proof {
                lemma_appended_err(ri, mid, out@, list_item(xs@[i as int]), Ok(seq![]));
                lemma_appended_cat(Ok(()), ri, before, mid, out@, Ok(";"@), list_item(xs@[i as int]));
                lemma_fold_err(ys, i as int, sep_fn());
            }
            return ri;
        }
        proof {
            lemma_appended_cat(Ok(()), ri, before, mid, out@, Ok(";"@), list_item(xs@[i as int]));
            lemma_appended_cat(Ok(()), ri, first, before, out@, fold_render(ys.take(i - 1), sep_fn()), sep_item(xs@[i as int]));
        }
        i += 1;
    }
    proof {
        assert(ys.take(i - 1) =~= ys);
        lemma_appended_cat(r0, Ok(()), start, first, out@, list_item(xs@[0]), fold_render(ys, sep_fn()));
    }
    Ok(())
}

/// Writes one argument.
fn emit_val(out: &mut String, v: &Value) -> (r: Result<(), EmitError>)
    ensures
        appended(r, old(out)@, final(out)@, render_value(*v)),
{
    match v {
        Value::Str(s) => {
            let t = q(s.as_str());
            push_str(out, t.as_str());
            Ok(())
        },
        Value::Raw(s) => {
            push_str(out, s.as_str());
            Ok(())
        },
        Value::List(xs) => emit_list(out, xs),
        Value::Bracket(b) => {
            let ghost start = out@;
            push_str(out, "[=[\n");
            push_str(out, b.as_str());
            push_str(out, "]=]");
            assert(out@ =~= start + ("[=[\n"@ + b@ + "]=]"@));
            Ok(())
        },
    }
}

/// Writes `pre`, the value and `post` for each value in turn.
fn emit_each(out: &mut String, xs: &Vec<Value>, pre: &str, post: &str) -> (r: Result<(), EmitError>)
    ensures
        appended(r, old(out)@, final(out)@, render_each(xs@, pre@, post@)),
{
    let ghost start = out@;
    let ghost f = framed(pre@, post@);
    let mut i: usize = 0;
    while i < xs.len()
        invariant
            i <= xs.len(),
            f == framed(pre@, post@),
            appended(Ok(()), start, out@, fold_render(xs@.take(i as int), f)),
        decreases xs.len() - i,
    {
        let ghost before = out@;
        push_str(out, pre);
        let ghost mid = out@;
        let ri = emit_val(out, &xs[i]);
        proof {
            lemma_fold_step(xs@, i as int, f);
            lemma_appended_text(before, pre@);
        }
        if ri.is_err() {
            proof {
                lemma_appended_cat(Ok(()), ri, before, mid, out@, Ok(pre@), render_value(xs@[i as int]));
                lemma_fold_err(xs@, i + 1, f);
            }
            return ri;
        }
        let ghost mid2 = out@;
        push_str(out, post);
        proof {
            lemma_appended_text(mid2, post@);
            lemma_appended_cat(Ok(()), ri, before, mid, mid2, Ok(pre@), render_value(xs@[i as int]));
            lemma_appended_cat(ri, Ok(()), before, mid2, out@, cat(Ok(pre@), render_value(xs@[i as int])), Ok(post@));
            lemma_appended_cat(Ok(()), Ok(()), start, before, out@, fold_render(xs@.take(i as int), f), f(xs@[i as int]));
        }
        i += 1;
    }
    assert(xs@.take(xs.len() as int) =~= xs@);
    Ok(())
}


fn emit_block(out: &mut String, header: &str, xs: &Vec<Value>) -> (r: Result<(), EmitError>)
    ensures
        appended(r, old(out)@, final(out)@, render_block(header@, xs@)),
{
    if xs.len() == 0 {
        return Ok(());
    }
    let ghost a = out@;
    push_str(out, header);
    let ghost b = out@;
    let r = emit_each(out, xs, "        ", "\n");
    proof {
        lemma_appended_cat(Ok(()), r, a, b, out@, Ok(header@), render_each(xs@, "        "@, "\n"@));
    }
    r
}

/// Writes one `target_*` command (nothing for an empty list).
fn emit_scoped(out: &mut String, cmd: &str, target: &str, l: &ScopedList) -> (r: Result<(), EmitError>)
    ensures
        appended(r, old(out)@, final(out)@, render_scoped(cmd@, target@, *l)),
{
    if l.privs.len() == 0 && l.pubs.len() == 0 && l.ifcs.len() == 0 {
        return Ok(());
    }
    let ghost s0 = out@;
    push_str(out, cmd);
    push_str(out, "(");
    push_str(out, target);
    push_str(out, "\n");
    let ghost t = cmd@ + "("@ + target@ + "\n"@;
    let ghost s1 = out@;
    assert(s1 =~= s0 + t);
    let r1 = emit_block(out, "    PRIVATE\n", &l.privs);
    let ghost p1 = cat(Ok(t), render_block("    PRIVATE\n"@, l.privs@));
    proof {
        lemma_appended_cat(Ok(()), r1, s0, s1, out@, Ok(t), render_block("    PRIVATE\n"@, l.privs@));
    }
    if r1.is_err() {
        return r1;
    }
    let ghost s2 = out@;
    let r2 = emit_block(out, "    PUBLIC\n", &l.pubs);
    let ghost p2 = cat(p1, render_block("    PUBLIC\n"@, l.pubs@));
    proof {
        lemma_appended_cat(r1, r2, s0, s2, out@, p1, render_block("    PUBLIC\n"@, l.pubs@));
    }
    if r2.is_err() {
        return r2;
    }
    let ghost s3 = out@;
    let r3 = emit_block(out, "    INTERFACE\n", &l.ifcs);
    let ghost p3 = cat(p2, render_block("    INTERFACE\n"@, l.ifcs@));
    proof {
        lemma_appended_cat(r2, r3, s0, s3, out@, p2, render_block("    INTERFACE\n"@, l.ifcs@));
    }
    if r3.is_err() {
        return r3;
    }
    let ghost s4 = out@;
    push_str(out, ")\n");
    proof {
        lemma_appended_cat(r3, Ok(()), s0, s4, out@, p3, Ok(")\n"@));
    }
    Ok(())
}

fn lib_word_str(k: LibType) -> (r: &'static str)
    ensures
        r@ == lib_word(k),
{
    match k {
        LibType::Static => "STATIC",
        LibType::Shared => "SHARED",
        LibType::Interface => "INTERFACE",
    }
}

fn emit_target_head(out: &mut String, t: &Target) -> (r: Result<(), EmitError>)
    ensures
        appended(r, old(out)@, final(out)@, render_target_head(*t)),
{
    let ghost s0 = out@;
    match &t.kind {
        TargetKind::Executable => {
            push_str(out, "add_executable(");
            push_str(out, t.name.as_str());
            let ghost h = "add_executable("@ + t.name@;
            let ghost s1 = out@;
            assert(s1 =~= s0 + h);
            let r1 = emit_each(out, &t.sources, " ", "");
            proof {
                lemma_appended_cat(Ok(()), r1, s0, s1, out@, Ok(h), render_each(t.sources@, " "@, ""@));
                assert(""@ =~= seq![]) by {
                    reveal_strlit("");
                }
            }
            if r1.is_err() {
                return r1;
            }
            let ghost s2 = out@;
            push_str(out, ")\n");
            proof {
                lemma_appended_cat(r1, Ok(()), s0, s2, out@, cat(Ok(h), render_each(t.sources@, " "@, seq![])), Ok(")\n"@));
            }
            Ok(())
        },
        TargetKind::Library(k) => {
            push_str(out, "add_library(");
            push_str(out, t.name.as_str());
            push_str(out, " ");
            push_str(out, lib_word_str(*k));
            let ghost h = "add_library("@ + t.name@ + " "@ + lib_word(*k);
            let ghost s1 = out@;
            assert(s1 =~= s0 + h);
            let ghost srcs = if *k == LibType::Interface {
                Ok(seq![])
            } else {
                render_each(t.sources@, " "@, seq![])
            };
            let r1 = match k {
                LibType::Interface => Ok(()),
                _ => emit_each(out, &t.sources, " ", ""),
            };
            proof {
                assert(""@ =~= seq![]) by {
                    reveal_strlit("");
                }
                assert(s1 + seq![] =~= s1);
                lemma_appended_cat(Ok(()), r1, s0, s1, out@, Ok(h), srcs);
            }
            if r1.is_err() {
                return r1;
            }
            let ghost s2 = out@;
            push_str(out, ")\n");
            proof {
                lemma_appended_cat(r1, Ok(()), s0, s2, out@, cat(Ok(h), srcs), Ok(")\n"@));
            }
            Ok(())
        },
    }
}

fn emit_props(out: &mut String, name: &str, ps: &Vec<(String, Value)>) -> (r: Result<(), EmitError>)
    ensures
        appended(r, old(out)@, final(out)@, render_props(name@, ps@)),
{
    let ghost start = out@;
    let ghost f = prop_fn(name@);
    let mut i: usize = 0;
    while i < ps.len()
        invariant
            i <= ps.len(),
            f == prop_fn(name@),
            appended(Ok(()), start, out@, fold_render(ps@.take(i as int), f)),
        decreases ps.len() - i,
    {
        let ghost before = out@;
        let ghost p = ps@[i as int];
        push_str(out, "set_target_properties(");
        push_str(out, name);
        push_str(out, " PROPERTIES ");
        push_str(out, ps[i].0.as_str());
        push_str(out, " ");
        let ghost h = "set_target_properties("@ + name@ + " PROPERTIES "@ + p.0@ + " "@;
        let ghost mid = out@;
        assert(mid =~= before + h);
        let ri = emit_val(out, &ps[i].1);
        proof {
            lemma_fold_step(ps@, i as int, f);
            lemma_appended_cat(Ok(()), ri, before, mid, out@, Ok(h), render_value(p.1));
        }
        if ri.is_err() {
            proof {
                lemma_appended_cat(Ok(()), ri, start, before, out@, fold_render(ps@.take(i as int), f), cat(Ok(h), render_value(p.1)));
                lemma_fold_err(ps@, i + 1, f);
            }
            return ri;
        }
        let ghost mid2 = out@;
        push_str(out, ")\n");
        proof {
            lemma_appended_cat(ri, Ok(()), before, mid2, out@, cat(Ok(h), render_value(p.1)), Ok(")\n"@));
            lemma_appended_cat(Ok(()), Ok(()), start, before, out@, fold_render(ps@.take(i as int), f), f(p));
        }
        i += 1;
    }
    assert(ps@.take(ps.len() as int) =~= ps@);
    Ok(())
}

fn emit_target_lists(out: &mut String, t: &Target) -> (r: Result<(), EmitError>)
    ensures
        appended(r, old(out)@, final(out)@, render_target_lists(*t)),
{
    let ghost s0 = out@;
    let name = t.name.as_str();
    let r1 = emit_scoped(out, "target_include_directories", name, &t.include_dirs);
    let ghost p1 = render_scoped("target_include_directories"@, t.name@, t.include_dirs);
    if r1.is_err() {
        return r1;
    }
    let ghost s1 = out@;
    let r2 = emit_scoped(out, "target_compile_definitions", name, &t.compile_defs);
    let ghost p2 = cat(p1, render_scoped("target_compile_definitions"@, t.name@, t.compile_defs));
    proof {
        lemma_appended_cat(r1, r2, s0, s1, out@, p1, render_scoped("target_compile_definitions"@, t.name@, t.compile_defs));
    }
    if r2.is_err() {
        return r2;
    }
    let ghost s2 = out@;
    let r3 = emit_scoped(out, "target_compile_options", name, &t.compile_opts);
    let ghost p3 = cat(p2, render_scoped("target_compile_options"@, t.name@, t.compile_opts));
    proof {
        lemma_appended_cat(r2, r3, s0, s2, out@, p2, render_scoped("target_compile_options"@, t.name@, t.compile_opts));
    }
    if r3.is_err() {
        return r3;
    }
    let ghost s3 = out@;
    let r4 = emit_scoped(out, "target_link_libraries", name, &t.link_libs);
    let ghost p4 = cat(p3, render_scoped("target_link_libraries"@, t.name@, t.link_libs));
    proof {
        lemma_appended_cat(r3, r4, s0, s3, out@, p3, render_scoped("target_link_libraries"@, t.name@, t.link_libs));
    }
    if r4.is_err() {
        return r4;
    }
    let ghost s4 = out@;
    let r5 = emit_scoped(out, "target_compile_features", name, &t.features);
    proof {
        lemma_appended_cat(r4, r5, s0, s4, out@, p4, render_scoped("target_compile_features"@, t.name@, t.features));
    }
    r5
}

fn emit_target(out: &mut String, t: &Target) -> (r: Result<(), EmitError>)
    ensures
        appended(r, old(out)@, final(out)@, render_target(*t)),
{
    let is_interface = match &t.kind {
        TargetKind::Library(LibType::Interface) => true,
        _ => false,
    };
    if is_interface && t.sources.len() > 0 {
        return Err(EmitError::InterfaceWithSources(t.name.clone()));
    }
    let ghost s0 = out@;
    let r1 = emit_target_head(out, t);
    if r1.is_err() {
        return r1;
    }
    let ghost s1 = out@;
    let r2 = emit_target_lists(out, t);
    proof {
        lemma_appended_cat(r1, r2, s0, s1, out@, render_target_head(*t), render_target_lists(*t));
    }
    if r2.is_err() {
        return r2;
    }
    let ghost p2 = cat(render_target_head(*t), render_target_lists(*t));
    let ghost s2 = out@;
    let r3 = emit_props(out, t.name.as_str(), &t.properties);
    proof {
        lemma_appended_cat(r2, r3, s0, s2, out@, p2, render_props(t.name@, t.properties@));
    }
    if r3.is_err() {
        return r3;
    }
    let ghost s3 = out@;
    push_str(out, "\n");
    proof {
        lemma_appended_cat(r3, Ok(()), s0, s3, out@, cat(p2, render_props(t.name@, t.properties@)), Ok("\n"@));
    }
    Ok(())
}

fn emit_targets(out: &mut String, ts: &Vec<Target>) -> (r: Result<(), EmitError>)
    ensures
        appended(r, old(out)@, final(out)@, render_targets(ts@)),
{
    let ghost start = out@;
    let ghost f = target_fn();
    let mut i: usize = 0;
    while i < ts.len()
        invariant
            i <= ts.len(),
            f == target_fn(),
            appended(Ok(()), start, out@, fold_render(ts@.take(i as int), f)),
        decreases ts.len() - i,
    {
        let ghost before = out@;
        let ri = emit_target(out, &ts[i]);
        proof {
            lemma_fold_step(ts@, i as int, f);
            lemma_appended_cat(Ok(()), ri, start, before, out@, fold_render(ts@.take(i as int), f), f(ts@[i as int]));
        }
        if ri.is_err() {
            proof {
                lemma_fold_err(ts@, i + 1, f);
            }
            return ri;
        }
        i += 1;
    }
    assert(ts@.take(ts.len() as int) =~= ts@);
    Ok(())
}

fn emit_settings(out: &mut String, ss: &Vec<CMakeSetting>) -> (r: Result<(), EmitError>)
    ensures
        appended(r, old(out)@, final(out)@, render_settings(ss@)),
{
    let ghost start = out@;
    let ghost f = setting_fn();
    let mut i: usize = 0;
    while i < ss.len()
        invariant
            i <= ss.len(),
            f == setting_fn(),
            appended(Ok(()), start, out@, fold_render(ss@.take(i as int), f)),
        decreases ss.len() - i,
    {
        let ghost before = out@;
        let ghost x = ss@[i as int];
        push_str(out, "set(");
        push_str(out, ss[i].name.as_str());
        push_str(out, " ");
        let ghost h = "set("@ + x.name@ + " "@;
        let ghost mid = out@;
        assert(mid =~= before + h);
        let ri = emit_val(out, &ss[i].value);
        proof {
            lemma_fold_step(ss@, i as int, f);
            lemma_appended_cat(Ok(()), ri, before, mid, out@, Ok(h), render_value(x.value));
        }
        if ri.is_err() {
            proof {
                lemma_appended_cat(Ok(()), ri, start, before, out@, fold_render(ss@.take(i as int), f), cat(Ok(h), render_value(x.value)));
                lemma_fold_err(ss@, i + 1, f);
            }
            return ri;
        }
        let ghost mid2 = out@;
        push_str(out, ")\n");
        proof {
            lemma_appended_cat(ri, Ok(()), before, mid2, out@, cat(Ok(h), render_value(x.value)), Ok(")\n"@));
            lemma_appended_cat(Ok(()), Ok(()), start, before, out@, fold_render(ss@.take(i as int), f), f(x));
        }
        i += 1;
    }
    assert(ss@.take(ss.len() as int) =~= ss@);
    Ok(())
}

/// Appends `pre + s + post` for each string in turn.
fn emit_join_each(out: &mut String, xs: &Vec<String>, pre: &str, post: &str)
    ensures
        final(out)@ == old(out)@ + join_each(xs@, pre@, post@),
{
    let ghost start = out@;
    let ghost f = framed_text(pre@, post@);
    let mut i: usize = 0;
    while i < xs.len()
        invariant
            i <= xs.len(),
            f == framed_text(pre@, post@),
            out@ == start + fold_text(xs@.take(i as int), f),
        decreases xs.len() - i,
    {
        push_str(out, pre);
        push_str(out, xs[i].as_str());
        push_str(out, post);
        proof {
            lemma_fold_text_step(xs@, i as int, f);
        }
        assert(out@ =~= start + fold_text(xs@.take(i + 1), f));
        i += 1;
    }
    assert(xs@.take(xs.len() as int) =~= xs@);
}

fn emit_package(out: &mut String, p: &Package)
    ensures
        final(out)@ == old(out)@ + render_package(*p),
{
    let ghost s0 = out@;
    push_str(out, "find_package(");
    push_str(out, p.name.as_str());
    let ghost s1 = out@;
    if p.config_only {
        push_str(out, " CONFIG");
    }
    let ghost s2 = out@;
    if p.required {
        push_str(out, " REQUIRED");
    }
    let ghost s3 = out@;
    if p.components.len() > 0 {
        push_str(out, " COMPONENTS");
        emit_join_each(out, &p.components, " ", "");
    }
    let ghost s4 = out@;
    push_str(out, ")\n");
    proof {
        reveal_strlit("");
        assert(""@ =~= seq![]);
    }
    assert(out@ =~= s0 + render_package(*p));
}

fn emit_packages(out: &mut String, ps: &Vec<Package>)
    ensures
        final(out)@ == old(out)@ + render_packages(ps@),
{
    let ghost start = out@;
    let ghost f = package_fn();
    let mut i: usize = 0;
    while i < ps.len()
        invariant
            i <= ps.len(),
            f == package_fn(),
            out@ == start + fold_text(ps@.take(i as int), f),
        decreases ps.len() - i,
    {
        emit_package(out, &ps[i]);
        proof {
            lemma_fold_text_step(ps@, i as int, f);
        }
        assert(out@ =~= start + fold_text(ps@.take(i + 1), f));
        i += 1;
    }
    assert(ps@.take(ps.len() as int) =~= ps@);
}


fn mode_str(m: &DiscoverMode) -> (r: &'static str)
    ensures
        r@ == mode_word(*m),
{
    match m {
        DiscoverMode::PreTest => "PRE_TEST",
        DiscoverMode::PostBuild => "POST_BUILD",
    }
}

#[verifier::spinoff_prover]
#[verifier::rlimit(40)]
fn emit_gtest_preamble(out: &mut String, aggregate: &str, config_mode: bool, var: &str, body: &str)
    ensures
        final(out)@ == old(out)@ + render_gtest_preamble(aggregate@, config_mode, var@, body@),
{
    let ghost s0 = out@;
    push_str(out, "include(CTest)\n");
    assert(out@ =~= s0 + ("include(CTest)\n"@));
    push_str(out, "enable_testing()\n");
    assert(out@ =~= s0 + (("include(CTest)\n"@) + "enable_testing()\n"@));
    push_str(out, "find_package(GTest");
    assert(out@ =~= s0 + ((("include(CTest)\n"@) + "enable_testing()\n"@) + "find_package(GTest"@));
    if config_mode { push_str(out, " CONFIG"); }
    assert(out@ =~= s0 + (((("include(CTest)\n"@) + "enable_testing()\n"@) + "find_package(GTest"@) + (if config_mode { " CONFIG"@ } else { seq![] })));
    push_str(out, " REQUIRED)\n");
    assert(out@ =~= s0 + ((((("include(CTest)\n"@) + "enable_testing()\n"@) + "find_package(GTest"@) + (if config_mode { " CONFIG"@ } else { seq![] })) + " REQUIRED)\n"@));
    push_str(out, "set(");
    assert(out@ =~= s0 + (((((("include(CTest)\n"@) + "enable_testing()\n"@) + "find_package(GTest"@) + (if config_mode { " CONFIG"@ } else { seq![] })) + " REQUIRED)\n"@) + "set("@));
    push_str(out, var);
    assert(out@ =~= s0 + ((((((("include(CTest)\n"@) + "enable_testing()\n"@) + "find_package(GTest"@) + (if config_mode { " CONFIG"@ } else { seq![] })) + " REQUIRED)\n"@) + "set("@) + var@));
    push_str(out, " ");
    assert(out@ =~= s0 + (((((((("include(CTest)\n"@) + "enable_testing()\n"@) + "find_package(GTest"@) + (if config_mode { " CONFIG"@ } else { seq![] })) + " REQUIRED)\n"@) + "set("@) + var@) + " "@));
    push_str(out, "${CMAKE_CURRENT_BINARY_DIR}/_gtest_main.cpp");
    assert(out@ =~= s0 + ((((((((("include(CTest)\n"@) + "enable_testing()\n"@) + "find_package(GTest"@) + (if config_mode { " CONFIG"@ } else { seq![] })) + " REQUIRED)\n"@) + "set("@) + var@) + " "@) + "${CMAKE_CURRENT_BINARY_DIR}/_gtest_main.cpp"@));
    push_str(out, ")\n");
    assert(out@ =~= s0 + (((((((((("include(CTest)\n"@) + "enable_testing()\n"@) + "find_package(GTest"@) + (if config_mode { " CONFIG"@ } else { seq![] })) + " REQUIRED)\n"@) + "set("@) + var@) + " "@) + "${CMAKE_CURRENT_BINARY_DIR}/_gtest_main.cpp"@) + ")\n"@));
    push_str(out, "file(WRITE ");
    assert(out@ =~= s0 + ((((((((((("include(CTest)\n"@) + "enable_testing()\n"@) + "find_package(GTest"@) + (if config_mode { " CONFIG"@ } else { seq![] })) + " REQUIRED)\n"@) + "set("@) + var@) + " "@) + "${CMAKE_CURRENT_BINARY_DIR}/_gtest_main.cpp"@) + ")\n"@) + "file(WRITE "@));
    push_str(out, "${");
    assert(out@ =~= s0 + (((((((((((("include(CTest)\n"@) + "enable_testing()\n"@) + "find_package(GTest"@) + (if config_mode { " CONFIG"@ } else { seq![] })) + " REQUIRED)\n"@) + "set("@) + var@) + " "@) + "${CMAKE_CURRENT_BINARY_DIR}/_gtest_main.cpp"@) + ")\n"@) + "file(WRITE "@) + "${"@));
    push_str(out, var);
    assert(out@ =~= s0 + ((((((((((((("include(CTest)\n"@) + "enable_testing()\n"@) + "find_package(GTest"@) + (if config_mode { " CONFIG"@ } else { seq![] })) + " REQUIRED)\n"@) + "set("@) + var@) + " "@) + "${CMAKE_CURRENT_BINARY_DIR}/_gtest_main.cpp"@) + ")\n"@) + "file(WRITE "@) + "${"@) + var@));
    push_str(out, "}");
    assert(out@ =~= s0 + (((((((((((((("include(CTest)\n"@) + "enable_testing()\n"@) + "find_package(GTest"@) + (if config_mode { " CONFIG"@ } else { seq![] })) + " REQUIRED)\n"@) + "set("@) + var@) + " "@) + "${CMAKE_CURRENT_BINARY_DIR}/_gtest_main.cpp"@) + ")\n"@) + "file(WRITE "@) + "${"@) + var@) + "}"@));
    push_str(out, " ");
    assert(out@ =~= s0 + ((((((((((((((("include(CTest)\n"@) + "enable_testing()\n"@) + "find_package(GTest"@) + (if config_mode { " CONFIG"@ } else { seq![] })) + " REQUIRED)\n"@) + "set("@) + var@) + " "@) + "${CMAKE_CURRENT_BINARY_DIR}/_gtest_main.cpp"@) + ")\n"@) + "file(WRITE "@) + "${"@) + var@) + "}"@) + " "@));
    push_str(out, "[=[\n");
    assert(out@ =~= s0 + (((((((((((((((("include(CTest)\n"@) + "enable_testing()\n"@) + "find_package(GTest"@) + (if config_mode { " CONFIG"@ } else { seq![] })) + " REQUIRED)\n"@) + "set("@) + var@) + " "@) + "${CMAKE_CURRENT_BINARY_DIR}/_gtest_main.cpp"@) + ")\n"@) + "file(WRITE "@) + "${"@) + var@) + "}"@) + " "@) + "[=[\n"@));
    push_str(out, body);
    assert(out@ =~= s0 + ((((((((((((((((("include(CTest)\n"@) + "enable_testing()\n"@) + "find_package(GTest"@) + (if config_mode { " CONFIG"@ } else { seq![] })) + " REQUIRED)\n"@) + "set("@) + var@) + " "@) + "${CMAKE_CURRENT_BINARY_DIR}/_gtest_main.cpp"@) + ")\n"@) + "file(WRITE "@) + "${"@) + var@) + "}"@) + " "@) + "[=[\n"@) + body@));
    push_str(out, "]=]");
    assert(out@ =~= s0 + (((((((((((((((((("include(CTest)\n"@) + "enable_testing()\n"@) + "find_package(GTest"@) + (if config_mode { " CONFIG"@ } else { seq![] })) + " REQUIRED)\n"@) + "set("@) + var@) + " "@) + "${CMAKE_CURRENT_BINARY_DIR}/_gtest_main.cpp"@) + ")\n"@) + "file(WRITE "@) + "${"@) + var@) + "}"@) + " "@) + "[=[\n"@) + body@) + "]=]"@));
    push_str(out, ")\n");
    assert(out@ =~= s0 + ((((((((((((((((((("include(CTest)\n"@) + "enable_testing()\n"@) + "find_package(GTest"@) + (if config_mode { " CONFIG"@ } else { seq![] })) + " REQUIRED)\n"@) + "set("@) + var@) + " "@) + "${CMAKE_CURRENT_BINARY_DIR}/_gtest_main.cpp"@) + ")\n"@) + "file(WRITE "@) + "${"@) + var@) + "}"@) + " "@) + "[=[\n"@) + body@) + "]=]"@) + ")\n"@));
    push_str(out, "add_custom_target(");
    assert(out@ =~= s0 + (((((((((((((((((((("include(CTest)\n"@) + "enable_testing()\n"@) + "find_package(GTest"@) + (if config_mode { " CONFIG"@ } else { seq![] })) + " REQUIRED)\n"@) + "set("@) + var@) + " "@) + "${CMAKE_CURRENT_BINARY_DIR}/_gtest_main.cpp"@) + ")\n"@) + "file(WRITE "@) + "${"@) + var@) + "}"@) + " "@) + "[=[\n"@) + body@) + "]=]"@) + ")\n"@) + "add_custom_target("@));
    push_str(out, aggregate);
    assert(out@ =~= s0 + ((((((((((((((((((((("include(CTest)\n"@) + "enable_testing()\n"@) + "find_package(GTest"@) + (if config_mode { " CONFIG"@ } else { seq![] })) + " REQUIRED)\n"@) + "set("@) + var@) + " "@) + "${CMAKE_CURRENT_BINARY_DIR}/_gtest_main.cpp"@) + ")\n"@) + "file(WRITE "@) + "${"@) + var@) + "}"@) + " "@) + "[=[\n"@) + body@) + "]=]"@) + ")\n"@) + "add_custom_target("@) + aggregate@));
    push_str(out, ")\n");
    assert(out@ =~= s0 + (((((((((((((((((((((("include(CTest)\n"@) + "enable_testing()\n"@) + "find_package(GTest"@) + (if config_mode { " CONFIG"@ } else { seq![] })) + " REQUIRED)\n"@) + "set("@) + var@) + " "@) + "${CMAKE_CURRENT_BINARY_DIR}/_gtest_main.cpp"@) + ")\n"@) + "file(WRITE "@) + "${"@) + var@) + "}"@) + " "@) + "[=[\n"@) + body@) + "]=]"@) + ")\n"@) + "add_custom_target("@) + aggregate@) + ")\n"@));
    push_str(out, "include(GoogleTest)\n");
    assert(out@ =~= s0 + ((((((((((((((((((((((("include(CTest)\n"@) + "enable_testing()\n"@) + "find_package(GTest"@) + (if config_mode { " CONFIG"@ } else { seq![] })) + " REQUIRED)\n"@) + "set("@) + var@) + " "@) + "${CMAKE_CURRENT_BINARY_DIR}/_gtest_main.cpp"@) + ")\n"@) + "file(WRITE "@) + "${"@) + var@) + "}"@) + " "@) + "[=[\n"@) + body@) + "]=]"@) + ")\n"@) + "add_custom_target("@) + aggregate@) + ")\n"@) + "include(GoogleTest)\n"@));
}

fn emit_entry_features(out: &mut String, e: &TestEntry)
    ensures
        final(out)@ == old(out)@ + entry_features(*e),
{
    let ghost s0 = out@;
    match e.cxx_standard {
        Some(n) => {
            push_str(out, "target_compile_features(");
            push_str(out, e.exe_name.as_str());
            push_str(out, " PRIVATE cxx_std_");
            push_decimal(out, n as u64);
            push_str(out, ")\n");
            assert(out@ =~= s0 + entry_features(*e));
        },
        None => {
            assert(out@ =~= s0 + entry_features(*e));
        },
    }
}

fn emit_entry_prefix(out: &mut String, e: &TestEntry)
    ensures
        final(out)@ == old(out)@ + entry_prefix(*e),
{
    let ghost s0 = out@;
    if !e.prefix.as_str().is_empty() {
        push_str(out, " TEST_PREFIX ");
        let qp = q(e.prefix.as_str());
        push_str(out, qp.as_str());
    }
    assert(out@ =~= s0 + entry_prefix(*e));
}

fn emit_entry_tail(out: &mut String, e: &TestEntry, aggregate: &str, mode: &DiscoverMode)
    ensures
        final(out)@ == old(out)@ + entry_tail(*e, aggregate@, *mode),
{
    let ghost s0 = out@;
    emit_entry_features(out, e);
    assert(out@ =~= s0 + (entry_features(*e)));
    push_str(out, "gtest_discover_tests(");
    assert(out@ =~= s0 + ((entry_features(*e)) + "gtest_discover_tests("@));
    push_str(out, e.exe_name.as_str());
    assert(out@ =~= s0 + (((entry_features(*e)) + "gtest_discover_tests("@) + e.exe_name@));
    emit_entry_prefix(out, e);
    assert(out@ =~= s0 + ((((entry_features(*e)) + "gtest_discover_tests("@) + e.exe_name@) + entry_prefix(*e)));
    push_str(out, " DISCOVERY_MODE ");
    assert(out@ =~= s0 + (((((entry_features(*e)) + "gtest_discover_tests("@) + e.exe_name@) + entry_prefix(*e)) + " DISCOVERY_MODE "@));
    push_str(out, mode_str(mode));
    assert(out@ =~= s0 + ((((((entry_features(*e)) + "gtest_discover_tests("@) + e.exe_name@) + entry_prefix(*e)) + " DISCOVERY_MODE "@) + mode_word(*mode)));
    push_str(out, ")\n");
    assert(out@ =~= s0 + (((((((entry_features(*e)) + "gtest_discover_tests("@) + e.exe_name@) + entry_prefix(*e)) + " DISCOVERY_MODE "@) + mode_word(*mode)) + ")\n"@));
    push_str(out, "add_dependencies(");
    assert(out@ =~= s0 + ((((((((entry_features(*e)) + "gtest_discover_tests("@) + e.exe_name@) + entry_prefix(*e)) + " DISCOVERY_MODE "@) + mode_word(*mode)) + ")\n"@) + "add_dependencies("@));
    push_str(out, aggregate);
    assert(out@ =~= s0 + (((((((((entry_features(*e)) + "gtest_discover_tests("@) + e.exe_name@) + entry_prefix(*e)) + " DISCOVERY_MODE "@) + mode_word(*mode)) + ")\n"@) + "add_dependencies("@) + aggregate@));
    push_str(out, " ");
    assert(out@ =~= s0 + ((((((((((entry_features(*e)) + "gtest_discover_tests("@) + e.exe_name@) + entry_prefix(*e)) + " DISCOVERY_MODE "@) + mode_word(*mode)) + ")\n"@) + "add_dependencies("@) + aggregate@) + " "@));
    push_str(out, e.exe_name.as_str());
    assert(out@ =~= s0 + (((((((((((entry_features(*e)) + "gtest_discover_tests("@) + e.exe_name@) + entry_prefix(*e)) + " DISCOVERY_MODE "@) + mode_word(*mode)) + ")\n"@) + "add_dependencies("@) + aggregate@) + " "@) + e.exe_name@));
    push_str(out, ")\n");
    assert(out@ =~= s0 + ((((((((((((entry_features(*e)) + "gtest_discover_tests("@) + e.exe_name@) + entry_prefix(*e)) + " DISCOVERY_MODE "@) + mode_word(*mode)) + ")\n"@) + "add_dependencies("@) + aggregate@) + " "@) + e.exe_name@) + ")\n"@));
    push_str(out, "\n");
    assert(out@ =~= s0 + (((((((((((((entry_features(*e)) + "gtest_discover_tests("@) + e.exe_name@) + entry_prefix(*e)) + " DISCOVERY_MODE "@) + mode_word(*mode)) + ")\n"@) + "add_dependencies("@) + aggregate@) + " "@) + e.exe_name@) + ")\n"@) + "\n"@));
}

fn emit_entry(out: &mut String, e: &TestEntry, aggregate: &str, mode: &DiscoverMode) -> (r: Result<(), EmitError>)
    ensures
        appended(r, old(out)@, final(out)@, render_entry(*e, aggregate@, *mode)),
{
    proof {
        reveal_strlit("");
        assert(""@ =~= seq![]);
    }
    let ghost s0 = out@;
    push_str(out, "add_executable(");
    push_str(out, e.exe_name.as_str());
    let ghost h = "add_executable("@ + e.exe_name@;
    let ghost s1 = out@;
    assert(s1 =~= s0 + h);
    let r1 = emit_each(out, &e.sources, " ", "");
    proof {
        lemma_appended_cat(Ok(()), r1, s0, s1, out@, Ok(h), render_each(e.sources@, " "@, seq![]));
    }
    if r1.is_err() {
        return r1;
    }
    let ghost p1 = cat(Ok(h), render_each(e.sources@, " "@, seq![]));
    let ghost s2 = out@;
    push_str(out, ")\n");
    proof {
        lemma_appended_cat(r1, Ok(()), s0, s2, out@, p1, Ok(")\n"@));
    }
    let ghost p2 = cat(p1, Ok(")\n"@));
    let ghost s3 = out@;
    if e.link.len() > 0 {
        push_str(out, "target_link_libraries(");
        push_str(out, e.exe_name.as_str());
        push_str(out, " PRIVATE");
        let ghost lh = "target_link_libraries("@ + e.exe_name@ + " PRIVATE"@;
        let ghost s4 = out@;
        assert(s4 =~= s3 + lh);
        let r2 = emit_each(out, &e.link, " ", "");
        proof {
            lemma_appended_cat(Ok(()), r2, s3, s4, out@, Ok(lh), render_each(e.link@, " "@, seq![]));
        }
        if r2.is_err() {
            proof {
                lemma_appended_cat(Ok(()), r2, s0, s3, out@, p2, cat(Ok(lh), render_each(e.link@, " "@, seq![])));
            }
            return r2;
        }
        let ghost s5 = out@;
        push_str(out, ")\n");
        proof {
            lemma_appended_cat(r2, Ok(()), s3, s5, out@, cat(Ok(lh), render_each(e.link@, " "@, seq![])), Ok(")\n"@));
        }
    }
    proof {
        lemma_appended_cat(Ok(()), Ok(()), s0, s3, out@, p2, entry_links(*e));
    }
    let ghost p3 = cat(p2, entry_links(*e));
    let ghost s6 = out@;
    emit_entry_tail(out, e, aggregate, mode);
    assert(out@ =~= s6 + entry_tail(*e, aggregate@, *mode));
    proof {
        lemma_appended_cat(Ok(()), Ok(()), s0, s6, out@, p3, Ok(entry_tail(*e, aggregate@, *mode)));
    }
    Ok(())
}

fn emit_entries(out: &mut String, es: &Vec<TestEntry>, aggregate: &str, mode: &DiscoverMode) -> (r: Result<(), EmitError>)
    ensures
        appended(r, old(out)@, final(out)@, render_entries(es@, aggregate@, *mode)),
{
    let ghost start = out@;
    let ghost f = entry_fn(aggregate@, *mode);
    let mut i: usize = 0;
    while i < es.len()
        invariant
            i <= es.len(),
            f == entry_fn(aggregate@, *mode),
            appended(Ok(()), start, out@, fold_render(es@.take(i as int), f)),
        decreases es.len() - i,
    {
        let ghost before = out@;
        let ri = emit_entry(out, &es[i], aggregate, mode);
        proof {
            lemma_fold_step(es@, i as int, f);
            lemma_appended_cat(Ok(()), ri, start, before, out@, fold_render(es@.take(i as int), f), f(es@[i as int]));
        }
        if ri.is_err() {
            proof {
                lemma_fold_err(es@, i + 1, f);
            }
            return ri;
        }
        i += 1;
    }
    assert(es@.take(es.len() as int) =~= es@);
    Ok(())
}

fn emit_tests(out: &mut String, t: &Option<TestSuite>) -> (r: Result<(), EmitError>)
    ensures
        appended(r, old(out)@, final(out)@, render_tests(*t)),
{
    match t {
        None => Ok(()),
        Some(ts) => match &ts.framework {
            TestFramework::GoogleTest { config_mode, inline_main_var, inline_main_body, discover_mode } => {
                let ghost s0 = out@;
                emit_gtest_preamble(out, ts.aggregate_target.as_str(), *config_mode, inline_main_var.as_str(), inline_main_body.as_str());
                let ghost pre = render_gtest_preamble(ts.aggregate_target@, *config_mode, inline_main_var@, inline_main_body@);
                let ghost s1 = out@;
                assert(s1 =~= s0 + pre);
                let r = emit_entries(out, &ts.entries, ts.aggregate_target.as_str(), discover_mode);
                proof {
                    lemma_appended_cat(Ok(()), r, s0, s1, out@, Ok(pre), render_entries(ts.entries@, ts.aggregate_target@, *discover_mode));
                }
                r
            },
        },
    }
}

impl Project {
    /// Renders the complete `CMakeLists.txt` (see [`Project::render`]).
    #[verifier::spinoff_prover]
    pub fn emit(&self) -> (r: Result<String, EmitError>)
        ensures
            match self.render() {
                Ok(t) => r matches Ok(s) && s@ == t,
                Err(e) => r == Err::<String, EmitError>(e),
            },
    {
        let mut out = String::new();
        let ghost s0 = out@;
        push_str(&mut out, "cmake_minimum_required(VERSION ");
        push_str(&mut out, self.cmake_min.as_str());
        push_str(&mut out, ")\n");
        let qn = q(self.name.as_str());
        if self.languages.len() == 0 {
            push_str(&mut out, "project(");
            push_str(&mut out, qn.as_str());
            push_str(&mut out, ")\n");
        } else {
            push_str(&mut out, "project(");
            push_str(&mut out, qn.as_str());
            push_str(&mut out, " LANGUAGES ");
            push_str(&mut out, self.languages[0].as_str());
            let rest = slice_from(&self.languages, 1);
            emit_join_each(&mut out, &rest, " ", "");
            push_str(&mut out, ")\n\n");
            proof {
                reveal_strlit("");
                assert(""@ =~= seq![]);
            }
        }
        let ghost h = self.render_header();
        assert(out@ =~= s0 + h);
        let ghost s1 = out@;
        let r1 = emit_settings(&mut out, &self.settings);
        proof {
            lemma_appended_cat(Ok(()), r1, s0, s1, out@, Ok(h), render_settings(self.settings@));
        }
        if let Err(e) = r1 {
            return Err(e);
        }
        let ghost p1 = cat(Ok(h), render_settings(self.settings@));
        let ghost s2 = out@;
        push_str(&mut out, "\n");
        proof {
            lemma_appended_cat(r1, Ok(()), s0, s2, out@, p1, Ok("\n"@));
        }
        let ghost p2 = cat(p1, Ok("\n"@));
        let ghost s3 = out@;
        let r3 = emit_each(&mut out, &self.includes, "include(", ")\n");
        proof {
            lemma_appended_cat(Ok(()), r3, s0, s3, out@, p2, render_each(self.includes@, "include("@, ")\n"@));
        }
        if let Err(e) = r3 {
            return Err(e);
        }
        let ghost p3 = cat(p2, render_each(self.includes@, "include("@, ")\n"@));
        let ghost s4 = out@;
        push_str(&mut out, "\n");
        emit_packages(&mut out, &self.packages);
        push_str(&mut out, "\n");
        let ghost pk = "\n"@ + render_packages(self.packages@) + "\n"@;
        assert(out@ =~= s4 + pk);
        proof {
            lemma_appended_cat(r3, Ok(()), s0, s4, out@, p3, Ok(pk));
        }
        let ghost p4 = cat(p3, Ok(pk));
        let ghost s5 = out@;
        let r5 = emit_targets(&mut out, &self.targets);
        proof {
            lemma_appended_cat(Ok(()), r5, s0, s5, out@, p4, render_targets(self.targets@));
        }
        if let Err(e) = r5 {
            return Err(e);
        }
        let ghost p5 = cat(p4, render_targets(self.targets@));
        let ghost s6 = out@;
        let r6 = emit_tests(&mut out, &self.tests);
        proof {
            lemma_appended_cat(r5, r6, s0, s6, out@, p5, render_tests(self.tests));
        }
        if let Err(e) = r6 {
            return Err(e);
        }
        Ok(out)
    }
}

/// The elements of `v` from index `from` on.
fn slice_from(v: &Vec<String>, from: usize) -> (r: Vec<String>)
    requires
        from <= v.len(),
    ensures
        r@ == v@.skip(from as int),
{
    let mut r: Vec<String> = Vec::new();
    let mut i = from;
    while i < v.len()
        invariant
            from <= i <= v.len(),
            r@ == v@.subrange(from as int, i as int),
        decreases v.len() - i,
    {
        r.push(v[i].clone());
        assert(r@ =~= v@.subrange(from as int, i + 1));
        i += 1;
    }
    assert(v@.subrange(from as int, v.len() as int) =~= v@.skip(from as int));
    r
}

// ---------------------------------------------------------------------------
// Builders
// ---------------------------------------------------------------------------

impl ScopedList {
    /// An empty list in every scope.
    pub fn new() -> (r: Self)
        ensures
            r.privs@.len() == 0,
            r.pubs@.len() == 0,
            r.ifcs@.len() == 0,
    {
        ScopedList { privs: Vec::new(), pubs: Vec::new(), ifcs: Vec::new() }
    }

    /// The values of one scope.
    pub open spec fn in_scope(self, scope: Scope) -> Seq<Value> {
        match scope {
            Scope::PRIVATE => self.privs@,
            Scope::PUBLIC => self.pubs@,
            Scope::INTERFACE => self.ifcs@,
        }
    }

    /// Appends `v` to the values of `scope`; the other scopes are unchanged.
    pub fn push(&mut self, scope: Scope, v: Value)
        ensures
            final(self).in_scope(scope) == old(self).in_scope(scope).push(v),
            forall|o: Scope| o != scope ==> final(self).in_scope(o) == old(self).in_scope(o),
    {
        match scope {
            Scope::PRIVATE => self.privs.push(v),
            Scope::PUBLIC => self.pubs.push(v),
            Scope::INTERFACE => self.ifcs.push(v),
        }
    }

    /// Appends all of `vs`, in order, to the values of `scope`.
    pub fn extend(&mut self, scope: Scope, vs: Vec<Value>)
        ensures
            final(self).in_scope(scope) == old(self).in_scope(scope) + vs@,
            forall|o: Scope| o != scope ==> final(self).in_scope(o) == old(self).in_scope(o),
    {
        let ghost orig = *self;
        let ghost items = vs@;
        let mut vs = vs;
        let vs_len = vs.len();
        let mut i: usize = 0;
        while vs.len() > 0
            invariant
                i + vs@.len() == items.len(),
                i <= items.len(),
                items.len() == vs_len,
                vs@ == items.skip(i as int),
                self.in_scope(scope) == orig.in_scope(scope) + items.take(i as int),
                forall|o: Scope| o != scope ==> self.in_scope(o) == orig.in_scope(o),
            decreases vs@.len(),
        {
            let v = vs.remove(0);
            self.push(scope, v);
            proof {
                assert(items.take(i + 1) =~= items.take(i as int).push(items[i as int]));
                assert(items.skip(i + 1) =~= items.skip(i as int).drop_first());
                assert(orig.in_scope(scope) + items.take(i + 1) =~= orig.in_scope(scope) + items.take(i as int) + seq![items[i as int]]);
            }
            i += 1;
        }
        assert(items.take(items.len() as int) =~= items);
    }
}

impl Target {
    /// An executable with nothing else set.
    pub fn executable(name: &str) -> (r: Self)
        ensures
            r.name@ == name@,
            r.kind == TargetKind::Executable,
            r.sources@.len() == 0,
            r.properties@.len() == 0,
            r.is_bare(),
    {
        Target {
            name: owned(name),
            kind: TargetKind::Executable,
            sources: Vec::new(),
            include_dirs: ScopedList::new(),
            compile_defs: ScopedList::new(),
            compile_opts: ScopedList::new(),
            link_libs: ScopedList::new(),
            features: ScopedList::new(),
            properties: Vec::new(),
        }
    }

    /// All scoped lists are empty.
    pub open spec fn is_bare(self) -> bool {
        &&& self.include_dirs.privs@.len() == 0 && self.include_dirs.pubs@.len() == 0 && self.include_dirs.ifcs@.len() == 0
        &&& self.compile_defs.privs@.len() == 0 && self.compile_defs.pubs@.len() == 0 && self.compile_defs.ifcs@.len() == 0
        &&& self.compile_opts.privs@.len() == 0 && self.compile_opts.pubs@.len() == 0 && self.compile_opts.ifcs@.len() == 0
        &&& self.link_libs.privs@.len() == 0 && self.link_libs.pubs@.len() == 0 && self.link_libs.ifcs@.len() == 0
        &&& self.features.privs@.len() == 0 && self.features.pubs@.len() == 0 && self.features.ifcs@.len() == 0
    }

    /// A library of the given kind with nothing else set.
    pub fn library(name: &str, ty: LibType) -> (r: Self)
        ensures
            r.name@ == name@,
            r.kind == TargetKind::Library(ty),
            r.sources@.len() == 0,
            r.properties@.len() == 0,
            r.is_bare(),
    {
        let mut t = Self::executable(name);
        t.kind = TargetKind::Library(ty);
        t
    }

    /// Adds one source.
    pub fn src(self, path: Value) -> (r: Self)
        ensures
            r.sources@ == self.sources@.push(path),
            r == (Target { sources: r.sources, ..self }),
    {
        let mut t = self;
        t.sources.push(path);
        t
    }

    /// Adds sources, in order.
    pub fn srcs(self, paths: Vec<Value>) -> (r: Self)
        ensures
            r.sources@ == self.sources@ + paths@,
            r == (Target { sources: r.sources, ..self }),
    {
        let mut t = self;
        let mut paths = paths;
        t.sources.append(&mut paths);
        t
    }

    /// Adds an include directory to `target_include_directories`.
    pub fn include_dir(self, scope: Scope, dir: Value) -> (r: Self)
        ensures
            r.include_dirs.in_scope(scope) == self.include_dirs.in_scope(scope).push(dir),
            forall|o: Scope| o != scope ==> r.include_dirs.in_scope(o) == self.include_dirs.in_scope(o),
            r == (Target { include_dirs: r.include_dirs, ..self }),
    {
        let mut t = self;
        t.include_dirs.push(scope, dir);
        t
    }

    /// Adds a compile definition.
    pub fn def(self, scope: Scope, def: Value) -> (r: Self)
        ensures
            r.compile_defs.in_scope(scope) == self.compile_defs.in_scope(scope).push(def),
            forall|o: Scope| o != scope ==> r.compile_defs.in_scope(o) == self.compile_defs.in_scope(o),
            r == (Target { compile_defs: r.compile_defs, ..self }),
    {
        let mut t = self;
        t.compile_defs.push(scope, def);
        t
    }

    /// Adds a compile option.
    pub fn copt(self, scope: Scope, flag: Value) -> (r: Self)
        ensures
            r.compile_opts.in_scope(scope) == self.compile_opts.in_scope(scope).push(flag),
            forall|o: Scope| o != scope ==> r.compile_opts.in_scope(o) == self.compile_opts.in_scope(o),
            r == (Target { compile_opts: r.compile_opts, ..self }),
    {
        let mut t = self;
        t.compile_opts.push(scope, flag);
        t
    }

    /// Adds a library to link.
    pub fn link(self, scope: Scope, lib: Value) -> (r: Self)
        ensures
            r.link_libs.in_scope(scope) == self.link_libs.in_scope(scope).push(lib),
            forall|o: Scope| o != scope ==> r.link_libs.in_scope(o) == self.link_libs.in_scope(o),
            r == (Target { link_libs: r.link_libs, ..self }),
    {
        let mut t = self;
        t.link_libs.push(scope, lib);
        t
    }

    /// Adds a target property.
    pub fn prop(self, key: &str, val: Value) -> (r: Self)
        ensures
            r.properties@.len() == self.properties@.len() + 1,
            r.properties@.drop_last() == self.properties@,
            r.properties@.last().0@ == key@,
            r.properties@.last().1 == val,
            r == (Target { properties: r.properties, ..self }),
    {
        let mut t = self;
        t.properties.push((owned(key), val));
        t
    }
}

impl TestSuite {
    /// A suite with no entries, driven by the named aggregate target.
    pub fn new_aggregate(name: &str, framework: TestFramework) -> (r: Self)
        ensures
            r.aggregate_target@ == name@,
            r.framework == framework,
            r.entries@.len() == 0,
    {
        TestSuite { aggregate_target: owned(name), framework, entries: Vec::new() }
    }

    /// Adds one test executable.
    pub fn add(self, e: TestEntry) -> (r: Self)
        ensures
            r.entries@ == self.entries@.push(e),
            r == (TestSuite { entries: r.entries, ..self }),
    {
        let mut s = self;
        s.entries.push(e);
        s
    }
}

impl Default for Project {
    fn default() -> (r: Self)
        ensures
            r.name@.len() == 0,
            r.version matches Some(v) && v@ == "0.1.0"@,
            r.cmake_min@ == "3.21"@,
            r.languages@.len() == 1 && r.languages@[0]@ == "CXX"@,
            r.targets@.len() == 0,
            r.packages@.len() == 0,
            r.settings@.len() == 0,
            r.includes@.len() == 0,
            r.tests is None,
    {
        Project {
            name: String::new(),
            version: Some(owned("0.1.0")),
            cmake_min: owned("3.21"),
            languages: vec![owned("CXX")],
            targets: Vec::new(),
            packages: Vec::new(),
            settings: Vec::new(),
            includes: Vec::new(),
            tests: None,
        }
    }
}

impl Project {
    /// A project with the given name and the defaults of [`Project::default`].
    pub fn new(name: &str) -> (r: Self)
        ensures
            r.name@ == name@,
            r.version matches Some(v) && v@ == "0.1.0"@,
            r.cmake_min@ == "3.21"@,
            r.languages@.len() == 1 && r.languages@[0]@ == "CXX"@,
            r.targets@.len() == 0,
            r.packages@.len() == 0,
            r.settings@.len() == 0,
            r.includes@.len() == 0,
            r.tests is None,
    {
        let mut p = Self::default();
        p.name = owned(name);
        p
    }

    pub fn version(self, v: &str) -> (r: Self)
        ensures
            r.version matches Some(x) && x@ == v@,
            r == (Project { version: r.version, ..self }),
    {
        let mut p = self;
        p.version = Some(owned(v));
        p
    }

    /// Replaces the languages.
    pub fn lang(self, langs: &[&str]) -> (r: Self)
        ensures
            r.languages@.len() == langs@.len(),
            forall|i: int| 0 <= i < langs@.len() ==> #[trigger] r.languages@[i]@ == langs@[i]@,
            r == (Project { languages: r.languages, ..self }),
    {
        let mut v: Vec<String> = Vec::new();
        let mut i: usize = 0;
        while i < langs.len()
            invariant
                i <= langs@.len(),
                v@.len() == i,
                forall|k: int| 0 <= k < i ==> #[trigger] v@[k]@ == langs@[k]@,
            decreases langs@.len() - i,
        {
            v.push(owned(langs[i]));
            i += 1;
        }
        let mut p = self;
        p.languages = v;
        p
    }

    /// Replaces the languages by a single one.
    pub fn languages(self, arg: &[&str; 1]) -> (r: Self)
        ensures
            r.languages@.len() == 1,
            r.languages@[0]@ == arg@[0]@,
            r == (Project { languages: r.languages, ..self }),
    {
        let mut p = self;
        p.languages = vec![owned(arg[0])];
        p
    }

    /// Adds `set(name value)`.
    pub fn set_var(self, name: &str, value: Value) -> (r: Self)
        ensures
            r.settings@.len() == self.settings@.len() + 1,
            r.settings@.drop_last() == self.settings@,
            r.settings@.last().name@ == name@,
            r.settings@.last().value == value,
            r == (Project { settings: r.settings, ..self }),
    {
        let mut p = self;
        p.settings.push(CMakeSetting { name: owned(name), value });
        p
    }

    /// Adds `set(name ON)`.
    pub fn set_on(self, name: &str) -> (r: Self)
        ensures
            r.settings@.len() == self.settings@.len() + 1,
            r.settings@.drop_last() == self.settings@,
            r.settings@.last().name@ == name@,
            r.settings@.last().value matches Value::Str(s) && s@ == "ON"@,
            r == (Project { settings: r.settings, ..self }),
    {
        self.set_var(name, Value::Str(owned("ON")))
    }

    /// Adds `include(path)`.
    pub fn include_path(self, path: Value) -> (r: Self)
        ensures
            r.includes@ == self.includes@.push(path),
            r == (Project { includes: r.includes, ..self }),
    {
        let mut p = self;
        p.includes.push(path);
        p
    }

    /// Adds a `find_package(...)`.
    pub fn find_package(self, package: Package) -> (r: Self)
        ensures
            r.packages@ == self.packages@.push(package),
            r == (Project { packages: r.packages, ..self }),
    {
        let mut p = self;
        p.packages.push(package);
        p
    }

    /// Adds a target.
    pub fn target(self, t: Target) -> (r: Self)
        ensures
            r.targets@ == self.targets@.push(t),
            r == (Project { targets: r.targets, ..self }),
    {
        let mut p = self;
        p.targets.push(t);
        p
    }

    /// Sets the test suite.
    pub fn with_tests(self, suite: TestSuite) -> (r: Self)
        ensures
            r.tests == Some(suite),
            r == (Project { tests: r.tests, ..self }),
    {
        let mut p = self;
        p.tests = Some(suite);
        p
    }
}

} // verus!
