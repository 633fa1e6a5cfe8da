//! Build types, C++ standards, sanitizers, and the `cmake` invocations of a
//! build.

use vstd::prelude::*;
use crate::command_runner::{
    pairs_view, spec_tool_stream_mode, tool_stream_mode, CommandBuilder,
    CommandCall, CommandError, CommandRunner, Runner, LogLevel, StreamMode,
};
use crate::dependency::opt_view;
use crate::text::{join_seq, join_strings, owned, push_str, str_eq, strings_view};

verus! {

#[derive(Debug, Clone, Copy, PartialEq, Eq)]
pub enum BuildType {
    Debug,
    RelWithDebInfo,
    Release,
}

pub open spec fn build_type_name(b: BuildType) -> Seq<char> {
    match b {
        BuildType::Debug => "Debug"@,
        BuildType::RelWithDebInfo => "RelWithDebInfo"@,
        BuildType::Release => "Release"@,
    }
}

/// The build type a lower-cased name stands for.
pub open spec fn build_type_of_lowercase(s: Seq<char>) -> Option<BuildType> {
    if s == "debug"@ {
        Some(BuildType::Debug)
    } else if s == "relwithdebinfo"@ || s == "rel_with_deb_info"@ {
        Some(BuildType::RelWithDebInfo)
    } else if s == "release"@ {
        Some(BuildType::Release)
    } else {
        None
    }
}

/// What std's `str::to_lowercase` returns for a string.
pub uninterp spec fn unicode_lowercase(s: Seq<char>) -> Seq<char>;

pub open spec fn ascii_lower_char(c: char) -> char {
    if 'A' <= c && c <= 'Z' {
        ((c as int) + 32) as char
    } else {
        c
    }
}

pub open spec fn is_ascii_char(c: char) -> bool {
    (c as int) < 128
}

/// std `str::to_lowercase`: the Unicode lower-case mapping. On ASCII text
/// it maps `A`..`Z` to `a`..`z` and leaves every other character alone; for
/// other text only the name of the result is given.
#[verifier::external_body]
fn to_lowercase(s: &str) -> (r: String)
    ensures
        r@ == unicode_lowercase(s@),
        (forall|i: int| 0 <= i < s@.len() ==> is_ascii_char(#[trigger] s@[i])) ==> r@ == s@.map_values(
            |c: char| ascii_lower_char(c),
        ),
{
    s.to_lowercase()
}

/// A string that names no build type.
#[derive(Debug)]
pub struct ParseError {
    pub message: String,
}

impl ParseError {
    pub fn to_string(&self) -> (r: String)
        ensures
            r@ == self.message@,
    {
        self.message.clone()
    }
}

impl Default for BuildType {
    fn default() -> (r: Self)
        ensures
            r == BuildType::Debug,
    {
        BuildType::Debug
    }
}

impl BuildType {
    /// "Debug", "RelWithDebInfo" or "Release".
    pub fn to_string(&self) -> (r: String)
        ensures
            r@ == build_type_name(*self),
    {
        match self {
            BuildType::Debug => owned("Debug"),
            BuildType::RelWithDebInfo => owned("RelWithDebInfo"),
            BuildType::Release => owned("Release"),
        }
    }

    /// The build type named by `lower` (the lower-cased form of `original`),
    /// or the error "Could not match string `original` to BuildType".
    pub fn from_lowercase(lower: &str, original: &str) -> (r: Result<BuildType, ParseError>)
        ensures
            match build_type_of_lowercase(lower@) {
                Some(b) => r == Ok::<BuildType, ParseError>(b),
                None => r matches Err(e) && e.message@ == "Could not match string "@ + original@
                    + " to BuildType"@,
            },
    {
        if str_eq(lower, "debug") {
            Ok(BuildType::Debug)
        } else if str_eq(lower, "relwithdebinfo") || str_eq(
            lower,
            "rel_with_deb_info",
        ) {
            Ok(BuildType::RelWithDebInfo)
        } else if str_eq(lower, "release") {
            Ok(BuildType::Release)
        } else {
            let mut m = owned("Could not match string ");
            push_str(&mut m, original);
            push_str(&mut m, " to BuildType");
            Err(ParseError { message: m })
        }
    }

    /// Reads a build type, ignoring case.
    pub fn from_str(s: &str) -> (r: Result<BuildType, ParseError>)
        ensures
            match build_type_of_lowercase(unicode_lowercase(s@)) {
                Some(b) => r == Ok::<BuildType, ParseError>(b),
                None => r matches Err(e) && e.message@ == "Could not match string "@ + s@
                    + " to BuildType"@,
            },
            (forall|i: int| 0 <= i < s@.len() ==> is_ascii_char(#[trigger] s@[i])) ==> match build_type_of_lowercase(
                s@.map_values(|c: char| ascii_lower_char(c)),
            ) {
                Some(b) => r == Ok::<BuildType, ParseError>(b),
                None => r matches Err(e) && e.message@ == "Could not match string "@ + s@
                    + " to BuildType"@,
            },
    {
        let lower = to_lowercase(s);
        Self::from_lowercase(lower.as_str(), s)
    }
}

/// A build type's name reads back as the same build type.
pub proof fn lemma_build_type_roundtrip(b: BuildType)
    ensures
        build_type_of_lowercase(build_type_name(b).map_values(|c: char| ascii_lower_char(c)))
            == Some(b),
{
    reveal_strlit("Debug");
    reveal_strlit("RelWithDebInfo");
    reveal_strlit("Release");
    reveal_strlit("debug");
    reveal_strlit("relwithdebinfo");
    reveal_strlit("rel_with_deb_info");
    reveal_strlit("release");
    let s = build_type_name(b).map_values(|c: char| ascii_lower_char(c));
    match b {
        BuildType::Debug => {
            assert(s =~= "debug"@);
        },
        BuildType::RelWithDebInfo => {
            assert(s =~= "relwithdebinfo"@);
        },
        BuildType::Release => {
            assert(s =~= "release"@);
            assert(s != "debug"@);
            assert(s.len() != "relwithdebinfo"@.len());
            assert(s.len() != "rel_with_deb_info"@.len());
        },
    }
}

// ---------------------------------------------------------------------------
// C++ standard
// ---------------------------------------------------------------------------

#[derive(Debug, Clone, Copy, PartialEq, Eq)]
pub enum CppStandard {
    Cpp03,
    Cpp11,
    Cpp14,
    Cpp17,
    Cpp20,
    Cpp23,
}

/// The two-digit text of a standard ("03" ... "23").
pub open spec fn standard_text(s: CppStandard) -> Seq<char> {
    match s {
        CppStandard::Cpp03 => "03"@,
        CppStandard::Cpp11 => "11"@,
        CppStandard::Cpp14 => "14"@,
        CppStandard::Cpp17 => "17"@,
        CppStandard::Cpp20 => "20"@,
        CppStandard::Cpp23 => "23"@,
    }
}

/// The number of a standard: its text read as an integer.
pub open spec fn standard_number(s: CppStandard) -> u16 {
    match s {
        CppStandard::Cpp03 => 3,
        CppStandard::Cpp11 => 11,
        CppStandard::Cpp14 => 14,
        CppStandard::Cpp17 => 17,
        CppStandard::Cpp20 => 20,
        CppStandard::Cpp23 => 23,
    }
}

pub open spec fn standard_of_text(t: Seq<char>) -> Option<CppStandard> {
    if t == "03"@ {
        Some(CppStandard::Cpp03)
    } else if t == "11"@ {
        Some(CppStandard::Cpp11)
    } else if t == "14"@ {
        Some(CppStandard::Cpp14)
    } else if t == "17"@ {
        Some(CppStandard::Cpp17)
    } else if t == "20"@ {
        Some(CppStandard::Cpp20)
    } else if t == "23"@ {
        Some(CppStandard::Cpp23)
    } else {
        None
    }
}

impl Default for CppStandard {
    fn default() -> (r: Self)
        ensures
            r == CppStandard::Cpp20,
    {
        CppStandard::Cpp20
    }
}

impl CppStandard {
    /// Whether this is the default standard (C++20).
    pub fn is_default(&self) -> (r: bool)
        ensures
            r == (*self == CppStandard::Cpp20),
    {
        match self {
            CppStandard::Cpp20 => true,
            _ => false,
        }
    }

    /// "03", "11", "14", "17", "20" or "23".
    pub fn to_string(&self) -> (r: String)
        ensures
            r@ == standard_text(*self),
    {
        match self {
            CppStandard::Cpp03 => owned("03"),
            CppStandard::Cpp11 => owned("11"),
            CppStandard::Cpp14 => owned("14"),
            CppStandard::Cpp17 => owned("17"),
            CppStandard::Cpp20 => owned("20"),
            CppStandard::Cpp23 => owned("23"),
        }
    }

    /// The standard as a number (3, 11, 14, 17, 20 or 23).
    pub fn number(&self) -> (r: u16)
        ensures
            r == standard_number(*self),
    {
        match self {
            CppStandard::Cpp03 => 3,
            CppStandard::Cpp11 => 11,
            CppStandard::Cpp14 => 14,
            CppStandard::Cpp17 => 17,
            CppStandard::Cpp20 => 20,
            CppStandard::Cpp23 => 23,
        }
    }

    /// Reads a standard from its two-digit text, or gives the error
    /// "Could not match string `s` to CppStandard".
    pub fn from_str(s: &str) -> (r: Result<CppStandard, ParseError>)
        ensures
            match standard_of_text(s@) {
                Some(c) => r == Ok::<CppStandard, ParseError>(c),
                None => r matches Err(e) && e.message@ == "Could not match string "@ + s@
                    + " to CppStandard"@,
            },
    {
        if str_eq(s, "03") {
            Ok(CppStandard::Cpp03)
        } else if str_eq(s, "11") {
            Ok(CppStandard::Cpp11)
        } else if str_eq(s, "14") {
            Ok(CppStandard::Cpp14)
        } else if str_eq(s, "17") {
            Ok(CppStandard::Cpp17)
        } else if str_eq(s, "20") {
            Ok(CppStandard::Cpp20)
        } else if str_eq(s, "23") {
            Ok(CppStandard::Cpp23)
        } else {
            let mut m = owned("Could not match string ");
            push_str(&mut m, s);
            push_str(&mut m, " to CppStandard");
            Err(ParseError { message: m })
        }
    }
}

/// The text of a standard reads back as the same standard.
pub proof fn lemma_standard_roundtrip(s: CppStandard)
    ensures
        standard_of_text(standard_text(s)) == Some(s),
{
    reveal_strlit("03");
    reveal_strlit("11");
    reveal_strlit("14");
    reveal_strlit("17");
    reveal_strlit("20");
    reveal_strlit("23");
    let t = standard_text(s);
    assert(t.len() == 2);
    assert("03"@[1] == '3' && "11"@[1] == '1' && "14"@[1] == '4' && "17"@[1] == '7');
    assert("20"@[0] == '2' && "23"@[1] == '3' && "20"@[1] == '0' && "03"@[0] == '0');
    assert("11"@[0] == '1' && "14"@[0] == '1' && "17"@[0] == '1' && "23"@[0] == '2');
    match s {
        CppStandard::Cpp03 => {},
        CppStandard::Cpp11 => {
            assert(t[1] != "03"@[1]);
        },
        CppStandard::Cpp14 => {
            assert(t[1] != "03"@[1]);
            assert(t[1] != "11"@[1]);
        },
        CppStandard::Cpp17 => {
            assert(t[1] != "03"@[1]);
            assert(t[1] != "11"@[1]);
            assert(t[1] != "14"@[1]);
        },
        CppStandard::Cpp20 => {
            assert(t[0] != "03"@[0]);
            assert(t[0] != "11"@[0]);
            assert(t[0] != "14"@[0]);
            assert(t[0] != "17"@[0]);
        },
        CppStandard::Cpp23 => {
            assert(t[0] != "03"@[0]);
            assert(t[0] != "11"@[0]);
            assert(t[0] != "14"@[0]);
            assert(t[0] != "17"@[0]);
            assert(t[1] != "20"@[1]);
        },
    }
}

// ---------------------------------------------------------------------------
// Sanitizers
// ---------------------------------------------------------------------------

/// Sanitizer flags that become `-fsanitize=` options.
#[derive(Debug, Clone, Copy)]
pub struct Sanitizers {
    /// AddressSanitizer (memory error detector).
    pub asan: bool,
    /// ThreadSanitizer (data race detector).
    pub tsan: bool,
    /// UndefinedBehaviorSanitizer.
    pub ubsan: bool,
}

impl Default for Sanitizers {
    fn default() -> (r: Self)
        ensures
            !r.asan && !r.tsan && !r.ubsan,
    {
        Sanitizers { asan: false, tsan: false, ubsan: false }
    }
}

/// The names of the enabled sanitizers, in the order asan, tsan, ubsan.
pub open spec fn sanitizer_names(s: Sanitizers) -> Seq<Seq<char>> {
    (if s.asan {
        seq!["address"@]
    } else {
        seq![]
    }) + (if s.tsan {
        seq!["thread"@]
    } else {
        seq![]
    }) + (if s.ubsan {
        seq!["undefined"@]
    } else {
        seq![]
    })
}

/// `-fsanitize=` followed by the enabled names joined by `,`; nothing when
/// none is enabled.
pub open spec fn spec_flag_string(s: Sanitizers) -> Option<Seq<char>> {
    if sanitizer_names(s).len() == 0 {
        None
    } else {
        Some("-fsanitize="@ + join_seq(sanitizer_names(s), ","@))
    }
}

/// The sanitizer flag is one token: `-fsanitize=` and the names of the
/// enabled sanitizers (address, thread, undefined, in that order) separated
/// by commas; there is none when no sanitizer is enabled.
pub proof fn lemma_flag_string_names(s: Sanitizers)
    ensures
        spec_flag_string(s) == match (s.asan, s.tsan, s.ubsan) {
            (false, false, false) => None,
            (true, false, false) => Some("-fsanitize=address"@),
            (false, true, false) => Some("-fsanitize=thread"@),
            (false, false, true) => Some("-fsanitize=undefined"@),
            (true, true, false) => Some("-fsanitize=address,thread"@),
            (true, false, true) => Some("-fsanitize=address,undefined"@),
            (false, true, true) => Some("-fsanitize=thread,undefined"@),
            (true, true, true) => Some("-fsanitize=address,thread,undefined"@),
        },
{
    reveal_strlit("-fsanitize=");
    reveal_strlit(",");
    reveal_strlit("address");
    reveal_strlit("thread");
    reveal_strlit("undefined");
    reveal_strlit("-fsanitize=address");
    reveal_strlit("-fsanitize=thread");
    reveal_strlit("-fsanitize=undefined");
    reveal_strlit("-fsanitize=address,thread");
    reveal_strlit("-fsanitize=address,undefined");
    reveal_strlit("-fsanitize=thread,undefined");
    reveal_strlit("-fsanitize=address,thread,undefined");
    let n = sanitizer_names(s);
    reveal_with_fuel(join_seq, 3);
    if n.len() >= 2 {
        assert(n.drop_last().drop_last().len() == n.len() - 2);
    }
    match (s.asan, s.tsan, s.ubsan) {
        (false, false, false) => {},
        (true, false, false) => {
            assert(n =~= seq!["address"@]);
        },
        (false, true, false) => {
            assert(n =~= seq!["thread"@]);
        },
        (false, false, true) => {
            assert(n =~= seq!["undefined"@]);
        },
        (true, true, false) => {
            assert(n =~= seq!["address"@, "thread"@]);
            assert(n.drop_last() =~= seq!["address"@]);
            assert("-fsanitize="@ + join_seq(n, ","@) =~= "-fsanitize=address,thread"@);
        },
        (true, false, true) => {
            assert(n =~= seq!["address"@, "undefined"@]);
            assert(n.drop_last() =~= seq!["address"@]);
            assert("-fsanitize="@ + join_seq(n, ","@) =~= "-fsanitize=address,undefined"@);
        },
        (false, true, true) => {
            assert(n =~= seq!["thread"@, "undefined"@]);
            assert(n.drop_last() =~= seq!["thread"@]);
            assert("-fsanitize="@ + join_seq(n, ","@) =~= "-fsanitize=thread,undefined"@);
        },
        (true, true, true) => {
            assert(n =~= seq!["address"@, "thread"@, "undefined"@]);
            assert(n.drop_last() =~= seq!["address"@, "thread"@]);
            assert(n.drop_last().drop_last() =~= seq!["address"@]);
            assert("-fsanitize="@ + join_seq(n, ","@) =~= "-fsanitize=address,thread,undefined"@);
        },
    }
}

/// The `-D` arguments that hand the flags to cmake.
pub open spec fn spec_cmake_args(s: Sanitizers) -> Seq<Seq<char>> {
    match spec_flag_string(s) {
        None => seq![],
        Some(flag) => seq![
            "-DCMAKE_CXX_FLAGS="@ + flag + if s.asan {
                " -fno-omit-frame-pointer"@
            } else {
                seq![]
            },
            "-DCMAKE_EXE_LINKER_FLAGS="@ + flag,
        ],
    }
}

/// Sanitizers that cannot be enabled together.
#[derive(Debug, Clone, Copy, PartialEq, Eq)]
pub enum SanitizerError {
    AddressWithThread,
}

impl SanitizerError {
    pub fn to_string(&self) -> (r: String)
        ensures
            r@ == "AddressSanitizer and ThreadSanitizer cannot be combined"@,
    {
        owned("AddressSanitizer and ThreadSanitizer cannot be combined")
    }
}

impl Sanitizers {
    /// See [`spec_flag_string`].
    pub fn flag_string(&self) -> (r: Option<String>)
        ensures
            opt_view(r) == spec_flag_string(*self),
    {
        let mut parts: Vec<String> = Vec::new();
        if self.asan {
            parts.push(owned("address"));
        }
        if self.tsan {
            parts.push(owned("thread"));
        }
        if self.ubsan {
            parts.push(owned("undefined"));
        }
        assert(strings_view(parts@) =~= sanitizer_names(*self));
        if parts.len() == 0 {
            return None;
        }
        let mut r = owned("-fsanitize=");
        let j = join_strings(&parts, ",");
        push_str(&mut r, j.as_str());
        Some(r)
    }

    /// See [`spec_cmake_args`].
    pub fn cmake_args(&self) -> (r: Vec<String>)
        ensures
            strings_view(r@) == spec_cmake_args(*self),
    {
        let flag = match self.flag_string() {
            Some(f) => f,
            None => {
                let r: Vec<String> = Vec::new();
                assert(strings_view(r@) =~= spec_cmake_args(*self));
                return r;
            },
        };
        let mut cxx = owned("-DCMAKE_CXX_FLAGS=");
        push_str(&mut cxx, flag.as_str());
        if self.asan {
            push_str(&mut cxx, " -fno-omit-frame-pointer");
        }
        let mut link = owned("-DCMAKE_EXE_LINKER_FLAGS=");
        push_str(&mut link, flag.as_str());
        let r = vec![cxx, link];
        proof {
            reveal_strlit("");
        }
        assert(strings_view(r@) =~= spec_cmake_args(*self));
        r
    }

    /// Rejects AddressSanitizer together with ThreadSanitizer.
    pub fn validate(&self) -> (r: Result<(), SanitizerError>)
        ensures
            r is Err <==> self.asan && self.tsan,
    {
        if self.asan && self.tsan {
            return Err(SanitizerError::AddressWithThread);
        }
        Ok(())
    }
}

/// Nothing is added to a build when no sanitizer is enabled, and something
/// is added as soon as one is.
pub proof fn lemma_sanitizers_off(s: Sanitizers)
    ensures
        (spec_flag_string(s) is None) <==> (!s.asan && !s.tsan && !s.ubsan),
        (spec_cmake_args(s).len() == 0) <==> (!s.asan && !s.tsan && !s.ubsan),
{
}

// ---------------------------------------------------------------------------
// cmake
// ---------------------------------------------------------------------------

/// `--log-level` for the configure step.
pub open spec fn spec_configure_verbosity(lvl: LogLevel) -> Seq<Seq<char>> {
    match lvl {
        LogLevel::Off | LogLevel::Error | LogLevel::Warn => seq!["--log-level"@, "ERROR"@],
        LogLevel::Info => seq!["--log-level"@, "WARNING"@],
        LogLevel::Debug => seq!["--log-level"@, "STATUS"@],
        LogLevel::Trace => seq!["--log-level"@, "VERBOSE"@],
    }
}

/// `-v` for the build tool at `-v` and above.
pub open spec fn spec_build_verbosity(lvl: LogLevel) -> Seq<Seq<char>> {
    match lvl {
        LogLevel::Debug | LogLevel::Trace => seq!["--"@, "-v"@],
        _ => seq![],
    }
}

/// The arguments of `cmake` for the configure step.
pub open spec fn spec_configure_args(
    build_dir: Seq<char>,
    src_dir: Seq<char>,
    toolchain: Seq<char>,
    build_type: BuildType,
    sanitizers: Sanitizers,
    lvl: LogLevel,
) -> Seq<Seq<char>> {
    seq![
        "-B"@,
        build_dir,
        "-DCMAKE_TOOLCHAIN_FILE="@ + toolchain,
        "-DCMAKE_BUILD_TYPE="@ + build_type_name(build_type),
        "-S"@,
        src_dir,
    ] + spec_cmake_args(sanitizers) + spec_configure_verbosity(lvl)
}

/// The arguments of `cmake` for the build step.
pub open spec fn spec_build_args(build_dir: Seq<char>, lvl: LogLevel) -> Seq<Seq<char>> {
    seq!["--build"@, build_dir] + spec_build_verbosity(lvl)
}

pub fn cmake_configure_verbosity_args(lvl: LogLevel) -> (r: Vec<String>)
    ensures
        strings_view(r@) == spec_configure_verbosity(lvl),
{
    let level = match lvl {
        LogLevel::Off | LogLevel::Error | LogLevel::Warn => owned("ERROR"),
        LogLevel::Info => owned("WARNING"),
        LogLevel::Debug => owned("STATUS"),
        LogLevel::Trace => owned("VERBOSE"),
    };
    let r = vec![owned("--log-level"), level];
    assert(strings_view(r@) =~= spec_configure_verbosity(lvl));
    r
}

pub fn cmake_build_verbosity_args(lvl: LogLevel) -> (r: Vec<String>)
    ensures
        strings_view(r@) == spec_build_verbosity(lvl),
{
    let r = match lvl {
        LogLevel::Debug | LogLevel::Trace => vec![owned("--"), owned("-v")],
        _ => Vec::new(),
    };
    assert(strings_view(r@) =~= spec_build_verbosity(lvl));
    r
}

/// The configure and build steps of a CMake build.
pub struct CMake;

impl CMake {
    /// See [`spec_configure_args`].
    pub fn configure_args(
        build_dir: &str,
        src_dir: &str,
        toolchain: &str,
        build_type: BuildType,
        sanitizers: &Sanitizers,
        lvl: LogLevel,
    ) -> (r: Vec<String>)
        ensures
            strings_view(r@) == spec_configure_args(
                build_dir@,
                src_dir@,
                toolchain@,
                build_type,
                *sanitizers,
                lvl,
            ),
    {
        let mut tc = owned("-DCMAKE_TOOLCHAIN_FILE=");
        push_str(&mut tc, toolchain);
        let mut bt = owned("-DCMAKE_BUILD_TYPE=");
        let btn = build_type.to_string();
        push_str(&mut bt, btn.as_str());
        let mut r = vec![owned("-B"), owned(build_dir), tc, bt, owned("-S"), owned(src_dir)];
        let ghost head = strings_view(r@);
        let mut s = sanitizers.cmake_args();
        let ghost sv = strings_view(s@);
        r.append(&mut s);
        let mut v = cmake_configure_verbosity_args(lvl);
        let ghost vv = strings_view(v@);
        r.append(&mut v);
        assert(strings_view(r@) =~= head + sv + vv);
        r
    }

    /// See [`spec_build_args`].
    pub fn build_args(build_dir: &str, lvl: LogLevel) -> (r: Vec<String>)
        ensures
            strings_view(r@) == spec_build_args(build_dir@, lvl),
    {
        let mut r = vec![owned("--build"), owned(build_dir)];
        let ghost head = strings_view(r@);
        let mut v = cmake_build_verbosity_args(lvl);
        let ghost vv = strings_view(v@);
        r.append(&mut v);
        assert(strings_view(r@) =~= head + vv);
        r
    }

    /// Runs `cmake` to configure and then to build.
    ///
    /// `toolchain` is the Conan toolchain file, `build_env` the environment
    /// Conan prepared for the compiler. The build step runs only when the
    /// configure step succeeded.
    pub fn build<R: CommandRunner>(
        runner: &mut Runner<R>,
        build_type: BuildType,
        build_dir: &str,
        src_dir: &str,
        toolchain: &str,
        lvl: LogLevel,
        build_env: &[(String, String)],
        sanitizers: &Sanitizers,
    ) -> (r: Result<(), CommandError>)
        ensures
            final(runner).calls().len() > old(runner).calls().len(),
            final(runner).calls().len() <= old(runner).calls().len() + 2,
            final(runner).calls().take(old(runner).calls().len() as int) == old(runner).calls(),
            final(runner).calls()[old(runner).calls().len() as int] == (CommandCall {
                cmd: "cmake"@,
                args: spec_configure_args(build_dir@, src_dir@, toolchain@, build_type, *sanitizers, lvl),
                mode: spec_tool_stream_mode(lvl),
                env: pairs_view(build_env@),
            }),
            final(runner).calls().len() == old(runner).calls().len() + 2 ==> final(runner).calls()[old(runner).calls().len() + 1int] == (CommandCall {
                cmd: "cmake"@,
                args: spec_build_args(build_dir@, lvl),
                mode: spec_tool_stream_mode(lvl),
                env: pairs_view(build_env@),
            }),
            r is Ok ==> final(runner).calls().len() == old(runner).calls().len() + 2,
            final(runner).answers().len() - old(runner).answers().len() == final(runner).calls().len() - old(
                runner).calls().len(),
            final(runner).answers().take(old(runner).answers().len() as int) == old(runner).answers(),
            final(runner).calls().len() == old(runner).calls().len() + 2 <==> final(runner).answers()[old(
                runner).answers().len() as int].succeeded(),
            r is Ok <==> (final(runner).calls().len() == old(runner).calls().len() + 2 && final(
                runner).answers().last().succeeded()),
            r matches Err(e) ==> e.message@ == if final(runner).calls().len() == old(runner).calls().len()
                + 1 {
                final(runner).answers().last().failure("Failed to configure with cmake"@)
            } else {
                final(runner).answers().last().failure("Failed to build with cmake"@)
            },
    {
        let ghost start = runner.calls();
        let ghost start_answers = runner.answers();
        let conf = CommandBuilder::new("cmake").args_owned(
            Self::configure_args(build_dir, src_dir, toolchain, build_type, sanitizers, lvl),
        ).envs(build_env).stream_mode(tool_stream_mode(lvl));
        assert(pairs_view(Seq::<(String, String)>::empty()) + pairs_view(build_env@) =~= pairs_view(build_env@));
        assert(Seq::<String>::empty() + conf.args@ =~= conf.args@);
        let res = conf.run(runner);
        assert(runner.calls().take(start.len() as int) =~= start);
        assert(runner.answers().take(start_answers.len() as int) =~= start_answers);
        let ghost first = runner.answers();
        let out = match res {
            Ok(o) => o,
            Err(e) => return Err(e),
        };
        match out.expect_success("Failed to configure with cmake") {
            Ok(()) => {},
            Err(e) => return Err(e),
        }
        let ghost mid = runner.calls();
        let b = CommandBuilder::new("cmake").args_owned(Self::build_args(build_dir, lvl)).envs(
            build_env,
        ).stream_mode(tool_stream_mode(lvl));
        let res2 = b.run(runner);
        assert(runner.calls().take(start.len() as int) =~= start);
        assert(runner.answers().take(start_answers.len() as int) =~= start_answers);
        assert(runner.answers()[start_answers.len() as int] == first[start_answers.len() as int]);
        assert(runner.calls()[start.len() as int] == mid[start.len() as int]);
        let out2 = match res2 {
            Ok(o) => o,
            Err(e) => return Err(e),
        };
        match out2.expect_success("Failed to build with cmake") {
            Ok(()) => Ok(()),
            Err(e) => Err(e),
        }
    }
}

} // verus!
