//! `c3pg fmt` and `c3pg lint`: `clang-format` and `clang-tidy` on the
//! project's files. The files are found by the caller.

use vstd::prelude::*;
use crate::command_runner::{
    one_more, pairs_view, spec_tool_stream_mode, tool_stream_mode, CommandCall, CommandError, CommandRunner, Runner,
    LogLevel,
};
use crate::text::{clone_strings, owned, push_str, strings_view};

verus! {

/// Why formatting or linting did not happen or failed.
#[derive(Debug)]
pub enum ToolError {
    /// There is no file to work on.
    NoFiles(String),
    /// `compile_commands.json` is missing from the build directory.
    NoCompileCommands(String),
    /// The tool could not be run or reported failure.
    Command(CommandError),
}

impl ToolError {
    pub open spec fn message(&self) -> Seq<char> {
        match self {
            ToolError::NoFiles(m) => m@,
            ToolError::NoCompileCommands(m) => m@,
            ToolError::Command(e) => e.message@,
        }
    }

    /// The error message.
    pub fn to_string(&self) -> (r: String)
        ensures
            r@ == self.message(),
    {
        match self {
            ToolError::NoFiles(m) => m.clone(),
            ToolError::NoCompileCommands(m) => m.clone(),
            ToolError::Command(e) => e.message.clone(),
        }
    }
}

/// The arguments of `clang-format`: a check that fails on any change, or
/// formatting in place; then the files.
pub open spec fn fmt_args(files: Seq<Seq<char>>, check: bool) -> Seq<Seq<char>> {
    (if check {
        seq!["--dry-run"@, "--Werror"@]
    } else {
        seq!["-i"@]
    }) + files
}

/// The arguments of `clang-tidy`: the build directory, `--fix` when asked,
/// then the files.
pub open spec fn lint_args(build_dir: Seq<char>, files: Seq<Seq<char>>, fix: bool) -> Seq<Seq<char>> {
    seq!["-p="@ + build_dir] + (if fix {
        seq!["--fix"@]
    } else {
        seq![]
    }) + files
}

/// Every `clang-tidy` call names the build directory first; asking for
/// fixes only puts `--fix` right after it, and the files follow unchanged.
pub proof fn lemma_lint_args(build_dir: Seq<char>, files: Seq<Seq<char>>)
    ensures
        lint_args(build_dir, files, false)[0] == "-p="@ + build_dir,
        lint_args(build_dir, files, true)[0] == "-p="@ + build_dir,
        lint_args(build_dir, files, false).skip(1) == files,
        lint_args(build_dir, files, true) == lint_args(build_dir, files, false).insert(1, "--fix"@),
{
    assert(lint_args(build_dir, files, false).skip(1) =~= files);
    assert(lint_args(build_dir, files, true) =~= lint_args(build_dir, files, false).insert(1, "--fix"@));
}

/// Runs `clang-format` on `files` (the C/C++ sources and headers of the
/// project): in place, or, when `check`, as a check that fails if any file
/// would change. Fails without running anything when there are no files.
pub fn cmd_fmt<R: CommandRunner>(runner: &mut Runner<R>, lvl: LogLevel, files: &Vec<String>, check: bool) -> (r: Result<
    (),
    ToolError,
>)
    ensures
        files@.len() == 0 ==> final(runner).calls() == old(runner).calls() && (r matches Err(ToolError::NoFiles(m))
            && m@ == "no source files found to format"@),
        files@.len() > 0 ==> final(runner).calls() == old(runner).calls().push(
            CommandCall {
                cmd: "clang-format"@,
                args: fmt_args(strings_view(files@), check),
                mode: spec_tool_stream_mode(lvl),
                env: seq![],
            },
        ),
        files@.len() > 0 ==> (r is Err ==> r matches Err(ToolError::Command(_))),
        files@.len() == 0 ==> final(runner).answers() == old(runner).answers(),
        files@.len() > 0 ==> one_more(old(runner).answers(), final(runner).answers()),
        files@.len() > 0 ==> (r is Ok <==> final(runner).answers().last().succeeded()),
        files@.len() > 0 ==> (r matches Err(e) ==> e.message() == final(runner).answers().last().failure(
            "clang-format failed"@,
        )),
{
    if files.len() == 0 {
        return Err(ToolError::NoFiles(owned("no source files found to format")));
    }
    let mut args: Vec<String> = Vec::new();
    if check {
        args.push(owned("--dry-run"));
        args.push(owned("--Werror"));
    } else {
        args.push(owned("-i"));
    }
    let mut fs = clone_strings(files);
    args.append(&mut fs);
    let b = runner.command("clang-format").args_owned(args).stream_mode(tool_stream_mode(lvl));
    proof {
        assert(strings_view(b.args@) =~= fmt_args(strings_view(files@), check));
        assert(pairs_view(b.env@) =~= Seq::<(Seq<char>, Seq<char>)>::empty());
    }
    match b.run(runner) {
        Ok(res) => match res.expect_success("clang-format failed") {
            Ok(()) => Ok(()),
            Err(e) => Err(ToolError::Command(e)),
        },
        Err(e) => Err(ToolError::Command(e)),
    }
}

/// Runs `clang-tidy` on `files` (the C/C++ sources of the project), with
/// the compile commands of `build_dir`, fixing in place when `fix`.
/// `has_compile_commands` says whether `build_dir/compile_commands.json`
/// exists; without it, or without files, nothing runs.
pub fn cmd_lint<R: CommandRunner>(
    runner: &mut Runner<R>,
    lvl: LogLevel,
    build_dir: &str,
    has_compile_commands: bool,
    files: &Vec<String>,
    fix: bool,
) -> (r: Result<(), ToolError>)
    ensures
        !has_compile_commands ==> final(runner).calls() == old(runner).calls() && (r matches Err(
            ToolError::NoCompileCommands(m),
        ) && m@ == "compile_commands.json not found in "@ + build_dir@ + "/ -- run `c3pg build` first"@),
        has_compile_commands && files@.len() == 0 ==> final(runner).calls() == old(runner).calls() && (r matches Err(
            ToolError::NoFiles(m),
        ) && m@ == "no source files found to lint"@),
        has_compile_commands && files@.len() > 0 ==> final(runner).calls() == old(runner).calls().push(
            CommandCall {
                cmd: "clang-tidy"@,
                args: lint_args(build_dir@, strings_view(files@), fix),
                mode: spec_tool_stream_mode(lvl),
                env: seq![],
            },
        ),
        has_compile_commands && files@.len() > 0 ==> (r is Err ==> r matches Err(ToolError::Command(_))),
        !(has_compile_commands && files@.len() > 0) ==> final(runner).answers() == old(runner).answers(),
        has_compile_commands && files@.len() > 0 ==> one_more(old(runner).answers(), final(runner).answers()),
        has_compile_commands && files@.len() > 0 ==> (r is Ok <==> final(runner).answers().last().succeeded()),
        has_compile_commands && files@.len() > 0 ==> (r matches Err(e) ==> e.message() == final(
            runner).answers().last().failure("clang-tidy failed"@)),
{
    if !has_compile_commands {
        let mut m = owned("compile_commands.json not found in ");
        push_str(&mut m, build_dir);
        push_str(&mut m, "/ -- run `c3pg build` first");
        return Err(ToolError::NoCompileCommands(m));
    }
    if files.len() == 0 {
        return Err(ToolError::NoFiles(owned("no source files found to lint")));
    }
    let mut p_flag = owned("-p=");
    push_str(&mut p_flag, build_dir);
    let mut args: Vec<String> = Vec::new();
    args.push(p_flag);
    if fix {
        args.push(owned("--fix"));
    }
    let mut fs = clone_strings(files);
    args.append(&mut fs);
    let b = runner.command("clang-tidy").args_owned(args).stream_mode(tool_stream_mode(lvl));
    proof {
        assert(strings_view(b.args@) =~= lint_args(build_dir@, strings_view(files@), fix));
        assert(pairs_view(b.env@) =~= Seq::<(Seq<char>, Seq<char>)>::empty());
    }
    match b.run(runner) {
        Ok(res) => match res.expect_success("clang-tidy failed") {
            Ok(()) => Ok(()),
            Err(e) => Err(ToolError::Command(e)),
        },
        Err(e) => Err(ToolError::Command(e)),
    }
}

} // verus!
