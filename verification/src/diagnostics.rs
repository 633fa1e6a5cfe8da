//! Checks before a build (are the tools there?) and hints for well-known
//! failures.

use vstd::prelude::*;
use crate::command_runner::{
    answer_of, one_more, Answer, pairs_view, CommandCall, CommandError, CommandResult, CommandRunner, Runner, StreamMode,
};
use crate::text::{contains, owned, push_str, str_chars, str_contains, strings_view};

verus! {

/// A tool that could not be run.
#[derive(Debug)]
pub struct ToolMissing {
    pub message: String,
}

impl ToolMissing {
    /// The message: "`name` not found on PATH -- install_hint".
    pub fn to_string(&self) -> (r: String)
        ensures
            r@ == self.message@,
    {
        self.message.clone()
    }
}

/// The call `<name> --version`.
pub open spec fn version_call(name: Seq<char>) -> CommandCall {
    CommandCall { cmd: name, args: seq!["--version"@], mode: StreamMode::Buffer, env: seq![] }
}

/// "`name` not found on PATH -- hint"
pub open spec fn missing_message(name: Seq<char>, hint: Seq<char>) -> Seq<char> {
    "`"@ + name + "` not found on PATH -- "@ + hint
}

/// Runs `<name> --version`: the tool is there when that runs and reports
/// success; otherwise the error names it and says how to install it.
pub fn check_tool<R: CommandRunner>(runner: &mut Runner<R>, name: &str, install_hint: &str) -> (r: Result<(), ToolMissing>)
    ensures
        final(runner).calls() == old(runner).calls().push(version_call(name@)),
        r matches Err(e) ==> e.message@ == missing_message(name@, install_hint@),
        one_more(old(runner).answers(), final(runner).answers()),
        r is Ok <==> final(runner).answers().last().succeeded(),
{
    let mut args: Vec<String> = Vec::new();
    args.push(owned("--version"));
    let b = runner.command(name).args_owned(args);
    proof {
        assert(strings_view(b.args@) =~= seq!["--version"@]);
        assert(pairs_view(b.env@) =~= Seq::<(Seq<char>, Seq<char>)>::empty());
        assert(b.call() == version_call(name@));
    }
    tool_answer(b.run(runner), name, install_hint)
}

/// The answer to `<name> --version`: the tool is there when it ran and
/// reported success; otherwise the error names it and says how to install
/// it.
pub fn tool_answer(answer: Result<CommandResult, CommandError>, name: &str, install_hint: &str) -> (r: Result<
    (),
    ToolMissing,
>)
    ensures
        r is Ok <==> (answer matches Ok(res) && res.success),
        r is Ok <==> answer_of(answer).succeeded(),
        r matches Err(e) ==> e.message@ == missing_message(name@, install_hint@),
{
    let found = match answer {
        Ok(res) => res.success,
        Err(_) => false,
    };
    if found {
        Ok(())
    } else {
        Err(ToolMissing { message: missing_text(name, install_hint) })
    }
}

/// See [`missing_message`].
fn missing_text(name: &str, hint: &str) -> (r: String)
    ensures
        r@ == missing_message(name@, hint@),
{
    let mut m = owned("`");
    push_str(&mut m, name);
    push_str(&mut m, "` not found on PATH -- ");
    push_str(&mut m, hint);
    m
}

/// The compilers tried, in order, when `CXX` is not set.
pub open spec fn default_compilers() -> Seq<Seq<char>> {
    seq!["c++"@, "g++"@, "clang++"@]
}

/// The warning when no compiler was found.
pub open spec fn no_compiler_warning() -> Seq<char> {
    "no C++ compiler found on PATH -- install g++ or clang++"@
}

/// The warnings after the checks before a build, in order: one per missing
/// tool, and one when no compiler answered.
pub open spec fn preflight_messages(cmake_found: bool, conan_found: bool, compiler_found: bool) -> Seq<Seq<char>> {
    (if cmake_found {
        seq![]
    } else {
        seq![missing_message("cmake"@, "install CMake (https://cmake.org)"@)]
    }) + (if conan_found {
        seq![]
    } else {
        seq![missing_message("conan"@, "install Conan 2 (`pip install conan`)"@)]
    }) + (if compiler_found {
        seq![]
    } else {
        seq![no_compiler_warning()]
    })
}

/// The answers to the checks before a build, and the warnings given: one
/// answer each for `cmake` and `conan`; unless `CXX` is set, one for each
/// default compiler tried, stopping at the first that answered; and the
/// warnings for what did not answer.
pub open spec fn preflight_answered(before: Seq<Answer>, after: Seq<Answer>, cxx_set: bool, r: Seq<String>) -> bool {
    let n = before.len() as int;
    let k = after.len() - n - 2;
    &&& after.take(n) == before
    &&& (if cxx_set { k == 0 } else { 1 <= k <= 3 })
    &&& forall|j: int| 0 <= j < k - 1 ==> !(#[trigger] after[n + 2 + j]).succeeded()
    &&& (!cxx_set && k < 3 ==> after.last().succeeded())
    &&& strings_view(r) == preflight_messages(
        after[n].succeeded(),
        after[n + 1].succeeded(),
        cxx_set || after.last().succeeded(),
    )
}

/// See [`preflight_messages`].
pub fn preflight_warnings(cmake_found: bool, conan_found: bool, compiler_found: bool) -> (r: Vec<String>)
    ensures
        strings_view(r@) == preflight_messages(cmake_found, conan_found, compiler_found),
{
    let mut warnings: Vec<String> = Vec::new();
    if !cmake_found {
        warnings.push(missing_text("cmake", "install CMake (https://cmake.org)"));
    }
    if !conan_found {
        warnings.push(missing_text("conan", "install Conan 2 (`pip install conan`)"));
    }
    if !compiler_found {
        warnings.push(owned("no C++ compiler found on PATH -- install g++ or clang++"));
    }
    assert(strings_view(warnings@) =~= preflight_messages(cmake_found, conan_found, compiler_found));
    warnings
}

/// The checks made before a build: `cmake --version`, `conan --version`,
/// then, unless `CXX` is set (`cxx` is its value, empty when unset), the
/// default compilers in order until one answers. Returns the warnings to
/// show (see [`preflight_messages`]); with `CXX` set, no compiler warning.
pub fn preflight_build<R: CommandRunner>(runner: &mut Runner<R>, cxx: &str) -> (r: Vec<String>)
    ensures
        cxx@.len() > 0 ==> final(runner).calls() == old(runner).calls().push(version_call("cmake"@)).push(
            version_call("conan"@),
        ),
        cxx@.len() == 0 ==> exists|k: int|
            1 <= k <= 3 && final(runner).calls() == old(runner).calls().push(version_call("cmake"@)).push(
                version_call("conan"@),
            ) + default_compilers().take(k).map_values(|c: Seq<char>| version_call(c)),
        preflight_answered(old(runner).answers(), final(runner).answers(), cxx@.len() > 0, r@),
{
    let ghost a0 = runner.answers();
    let ghost n0 = a0.len() as int;
    let cmake_found = check_tool(runner, "cmake", "install CMake (https://cmake.org)").is_ok();
    let conan_found = check_tool(runner, "conan", "install Conan 2 (`pip install conan`)").is_ok();
    let ghost mid = runner.calls();
    let ghost a2 = runner.answers();
    assert(a2.take(n0) =~= a0);
    assert(a2[n0] == a2.drop_last()[n0]);
    if str_chars(cxx).len() > 0 {
        return preflight_warnings(cmake_found, conan_found, true);
    }
    assert(default_compilers().take(1).map_values(|c: Seq<char>| version_call(c)) =~= seq![version_call("c++"@)]);
    assert(default_compilers().take(2).map_values(|c: Seq<char>| version_call(c)) =~= seq![
        version_call("c++"@),
        version_call("g++"@),
    ]);
    assert(default_compilers().take(3).map_values(|c: Seq<char>| version_call(c)) =~= seq![
        version_call("c++"@),
        version_call("g++"@),
        version_call("clang++"@),
    ]);
    let mut found = check_tool(runner, "c++", "").is_ok();
    assert(runner.calls() =~= mid + default_compilers().take(1).map_values(|c: Seq<char>| version_call(c)));
    let ghost a3 = runner.answers();
    if !found {
        found = check_tool(runner, "g++", "").is_ok();
        assert(runner.calls() =~= mid + default_compilers().take(2).map_values(|c: Seq<char>| version_call(c)));
        let ghost a4 = runner.answers();
        if !found {
            found = check_tool(runner, "clang++", "").is_ok();
            assert(runner.calls() =~= mid + default_compilers().take(3).map_values(|c: Seq<char>| version_call(c)));
            proof {
                let a = runner.answers();
                assert(a[n0] == a2[n0] && a[n0 + 1] == a2[n0 + 1] && a[n0 + 2] == a3.last() && a[n0 + 3]
                    == a4.last());
                assert(a.take(n0) =~= a0);
            }
        } else {
            proof {
                let a = runner.answers();
                assert(a[n0] == a2[n0] && a[n0 + 1] == a2[n0 + 1] && a[n0 + 2] == a3.last());
                assert(a.take(n0) =~= a0);
            }
        }
    } else {
        proof {
            let a = runner.answers();
            assert(a.take(n0) =~= a0);
        }
    }
    preflight_warnings(cmake_found, conan_found, found)
}

// ---------------------------------------------------------------------------
// Hints
// ---------------------------------------------------------------------------

/// The hint for an error message: that of the first known pattern it
/// contains, if any.
pub open spec fn hint_for(msg: Seq<char>) -> Option<Seq<char>> {
    if contains(msg, "Could not find toolchain file"@) {
        Some("hint: run `c3pg build` first to generate the Conan toolchain"@)
    } else if contains(msg, "CMAKE_MAKE_PROGRAM is not set"@) {
        Some("hint: install a build tool such as `make` or `ninja`"@)
    } else if contains(msg, "unrecognized command-line option '-stdlib"@) {
        Some(
            "hint: your compiler does not support -stdlib; check your Conan profile (`conan profile detect --force`)"@,
        )
    } else if contains(msg, "file not found"@) {
        Some("hint: ensure the dependency providing this header is listed in c3pg.toml (`c3pg add <pkg>`)"@)
    } else if contains(msg, "No module named 'conans"@) {
        Some(
            "hint: stale Conan 1 plugins detected; remove custom commands from ~/.conan2/extensions/commands/ or reinstall Conan 2"@,
        )
    } else if contains(msg, "Failed to load c3pg.toml"@) {
        Some("hint: are you inside a c3pg project? Create one with `c3pg new` or `c3pg init`"@)
    } else {
        None
    }
}

/// A human-friendly hint for an error message (see [`hint_for`]).
pub fn hint_for_error(msg: &str) -> (r: Option<&'static str>)
    ensures
        match hint_for(msg@) {
            Some(h) => r matches Some(s) && s@ == h,
            None => r is None,
        },
{
    if str_contains(msg, "Could not find toolchain file") {
        Some("hint: run `c3pg build` first to generate the Conan toolchain")
    } else if str_contains(msg, "CMAKE_MAKE_PROGRAM is not set") {
        Some("hint: install a build tool such as `make` or `ninja`")
    } else if str_contains(msg, "unrecognized command-line option '-stdlib") {
        Some(
            "hint: your compiler does not support -stdlib; check your Conan profile (`conan profile detect --force`)",
        )
    } else if str_contains(msg, "file not found") {
        Some("hint: ensure the dependency providing this header is listed in c3pg.toml (`c3pg add <pkg>`)")
    } else if str_contains(msg, "No module named 'conans") {
        Some(
            "hint: stale Conan 1 plugins detected; remove custom commands from ~/.conan2/extensions/commands/ or reinstall Conan 2",
        )
    } else if str_contains(msg, "Failed to load c3pg.toml") {
        Some("hint: are you inside a c3pg project? Create one with `c3pg new` or `c3pg init`")
    } else {
        None
    }
}

} // verus!
