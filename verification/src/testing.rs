//! `c3pg test`: building the test targets, running them with `ctest`, and
//! the skeleton of a new GoogleTest file.

use vstd::prelude::*;
use crate::command_runner::{
    one_more, Answer, pairs_view, spec_binary_stream_mode, spec_tool_stream_mode, binary_stream_mode, tool_stream_mode,
    CommandCall, CommandError, CommandRunner, Runner, LogLevel,
};
use crate::config::Config;
use crate::text::{decimal, decimal_string, owned, push_str, strings_view};

verus! {

/// A new GoogleTest source file.
#[derive(Debug)]
pub struct TestSuite {
    pub name: String,
}

/// The text of a new test file: one test in the suite `name`.
pub open spec fn gtest_source(name: Seq<char>) -> Seq<char> {
    "#include <gtest/gtest.h>\n\nTEST("@ + name + ", hello_test)\n{\n    EXPECT_EQ(2 + 2, 4);\n}"@
}

/// `test_<name>.cpp`, the file of a new test.
pub open spec fn test_file_name_of(name: Seq<char>) -> Seq<char> {
    "test_"@ + name + ".cpp"@
}

impl TestSuite {
    pub fn new(name: &str) -> (r: Self)
        ensures
            r.name@ == name@,
    {
        TestSuite { name: owned(name) }
    }

    /// The text of the file (see [`gtest_source`]).
    pub fn to_string(&self) -> (r: String)
        ensures
            r@ == gtest_source(self.name@),
    {
        let mut r = owned("#include <gtest/gtest.h>\n\nTEST(");
        push_str(&mut r, self.name.as_str());
        push_str(&mut r, ", hello_test)\n{\n    EXPECT_EQ(2 + 2, 4);\n}");
        r
    }
}

/// See [`test_file_name_of`].
pub fn test_file_name(name: &str) -> (r: String)
    ensures
        r@ == test_file_name_of(name@),
{
    let mut r = owned("test_");
    push_str(&mut r, name);
    push_str(&mut r, ".cpp");
    r
}

/// The number of jobs to show: the one asked for, or 1.
pub open spec fn jobs_text(jobs: Option<u8>) -> Seq<char> {
    match jobs {
        Some(j) => decimal(j as nat),
        None => "1"@,
    }
}

/// "tests (N jobs)", shown while the tests build.
pub fn building_status(jobs: Option<u8>) -> (r: String)
    ensures
        r@ == "tests ("@ + jobs_text(jobs) + " jobs)"@,
{
    let mut r = owned("tests (");
    let n = match jobs {
        Some(j) => decimal_string(j as u64),
        None => owned("1"),
    };
    push_str(&mut r, n.as_str());
    push_str(&mut r, " jobs)");
    r
}

/// "FILTER (N jobs)", shown while the tests run; `*` without a filter.
pub fn testing_status(filter: Option<&str>, jobs: Option<u8>) -> (r: String)
    ensures
        r@ == match filter {
            Some(f) => f@,
            None => "*"@,
        } + " ("@ + jobs_text(jobs) + " jobs)"@,
{
    let mut r = match filter {
        Some(f) => owned(f),
        None => owned("*"),
    };
    push_str(&mut r, " (");
    let n = match jobs {
        Some(j) => decimal_string(j as u64),
        None => owned("1"),
    };
    push_str(&mut r, n.as_str());
    push_str(&mut r, " jobs)");
    r
}

/// `cmake --build <cache_dir> --target <project>_tests [-jN]`
pub open spec fn test_build_call(config: Config, jobs: Option<u8>, lvl: LogLevel) -> CommandCall {
    CommandCall {
        cmd: "cmake"@,
        args: seq!["--build"@, config.project.cache_dir@, "--target"@, config.project.name@ + "_tests"@] + match jobs {
            Some(j) => seq!["-j"@ + decimal(j as nat)],
            None => seq![],
        },
        mode: spec_tool_stream_mode(lvl),
        env: seq![],
    }
}

/// `ctest --test-dir <cache_dir> --output-on-failure [-R filter] [-j N]`
pub open spec fn ctest_call(config: Config, filter: Option<Seq<char>>, jobs: Option<u8>, lvl: LogLevel) -> CommandCall {
    CommandCall {
        cmd: "ctest"@,
        args: seq!["--test-dir"@, config.project.cache_dir@, "--output-on-failure"@] + match filter {
            Some(f) => seq!["-R"@, f],
            None => seq![],
        } + match jobs {
            Some(j) => seq!["-j"@, decimal(j as nat)],
            None => seq![],
        },
        mode: spec_binary_stream_mode(lvl),
        env: seq![],
    }
}

pub open spec fn opt_str_view(o: Option<&str>) -> Option<Seq<char>> {
    match o {
        Some(s) => Some(s@),
        None => None,
    }
}

/// Builds the project's test target `<project>_tests`. Fails when the run
/// fails or CMake reports failure ("Failed to build tests: ...").
pub fn testing_build<R: CommandRunner>(runner: &mut Runner<R>, lvl: LogLevel, config: &Config, jobs: Option<u8>) -> (r:
    Result<(), CommandError>)
    ensures
        final(runner).calls() == old(runner).calls().push(test_build_call(*config, jobs, lvl)),
        one_more(old(runner).answers(), final(runner).answers()),
        r is Ok <==> final(runner).answers().last().succeeded(),
        r matches Err(e) ==> e.message@ == final(runner).answers().last().failure("Failed to build tests"@),
{
    let mut target = config.project.name.clone();
    push_str(&mut target, "_tests");
    let mut args: Vec<String> = Vec::new();
    args.push(owned("--build"));
    args.push(config.project.cache_dir.clone());
    args.push(owned("--target"));
    args.push(target);
    match jobs {
        Some(j) => {
            let mut flag = owned("-j");
            let n = decimal_string(j as u64);
            push_str(&mut flag, n.as_str());
            args.push(flag);
        },
        None => {},
    }
    let b = runner.command("cmake").args_owned(args).stream_mode(tool_stream_mode(lvl));
    proof {
        assert(strings_view(b.args@) =~= test_build_call(*config, jobs, lvl).args);
        assert(pairs_view(b.env@) =~= Seq::<(Seq<char>, Seq<char>)>::empty());
    }
    match b.run(runner) {
        Ok(res) => res.expect_success("Failed to build tests"),
        Err(e) => Err(e),
    }
}

/// The answers of a test run: `ctest` runs only when the test build
/// succeeded, and the run succeeds only when both did; otherwise the error
/// is that of the step that failed ("Failed to build tests: ..." or "Tests
/// failed: ...").
pub open spec fn test_run_answered(
    before: Seq<CommandCall>,
    after: Seq<CommandCall>,
    answers_before: Seq<Answer>,
    answers_after: Seq<Answer>,
    r: Result<(), CommandError>,
) -> bool {
    &&& answers_after.len() - answers_before.len() == after.len() - before.len()
    &&& answers_after.take(answers_before.len() as int) == answers_before
    &&& (after.len() == before.len() + 2 <==> answers_after[answers_before.len() as int].succeeded())
    &&& (r is Ok <==> (after.len() == before.len() + 2 && answers_after.last().succeeded()))
    &&& (r matches Err(e) ==> e.message@ == if after.len() == before.len() + 1 {
        answers_after.last().failure("Failed to build tests"@)
    } else {
        answers_after.last().failure("Tests failed"@)
    })
}

/// Builds the test target, then, when that succeeded, runs the tests with
/// `ctest`, keeping only those matching `filter`. Fails when either step
/// fails (see [`test_run_answered`]).
pub fn testing_run<R: CommandRunner>(
    runner: &mut Runner<R>,
    lvl: LogLevel,
    config: &Config,
    filter: Option<&str>,
    jobs: Option<u8>,
) -> (r: Result<(), CommandError>)
    ensures
        test_calls_made(old(runner).calls(), final(runner).calls(), *config, filter, jobs, lvl),
        r is Ok ==> final(runner).calls() == old(runner).calls().push(test_build_call(*config, jobs, lvl)).push(
            ctest_call(*config, opt_str_view(filter), jobs, lvl),
        ),
        test_run_answered(old(runner).calls(), final(runner).calls(), old(runner).answers(), final(runner).answers(), r),
{
    let ghost a0 = runner.answers();
    match testing_build(runner, lvl, config, jobs) {
        Ok(()) => {},
        Err(e) => {
            assert(runner.answers().take(a0.len() as int) =~= a0);
            return Err(e);
        },
    }
    let ghost a1 = runner.answers();
    let mut args: Vec<String> = Vec::new();
    args.push(owned("--test-dir"));
    args.push(config.project.cache_dir.clone());
    args.push(owned("--output-on-failure"));
    match filter {
        Some(f) => {
            args.push(owned("-R"));
            args.push(owned(f));
        },
        None => {},
    }
    match jobs {
        Some(j) => {
            args.push(owned("-j"));
            args.push(decimal_string(j as u64));
        },
        None => {},
    }
    let b = runner.command("ctest").args_owned(args).stream_mode(binary_stream_mode(lvl));
    proof {
        assert(strings_view(b.args@) =~= ctest_call(*config, opt_str_view(filter), jobs, lvl).args);
        assert(pairs_view(b.env@) =~= Seq::<(Seq<char>, Seq<char>)>::empty());
    }
    let res = b.run(runner);
    assert(runner.answers().take(a0.len() as int) =~= a0);
    assert(runner.answers()[a0.len() as int] == a1[a0.len() as int]);
    match res {
        Ok(out) => out.expect_success("Tests failed"),
        Err(e) => Err(e),
    }
}

/// The calls of a test run: the test build, and `ctest` when the build
/// succeeded.
pub open spec fn test_calls_made(
    before: Seq<CommandCall>,
    after: Seq<CommandCall>,
    config: Config,
    filter: Option<&str>,
    jobs: Option<u8>,
    lvl: LogLevel,
) -> bool {
    let built = before.push(test_build_call(config, jobs, lvl));
    after == built || after == built.push(ctest_call(config, opt_str_view(filter), jobs, lvl))
}

/// Runs the tests (see [`testing_run`]) when the project has test files;
/// with none, runs nothing and answers `false`.
pub fn run_tests<R: CommandRunner>(
    runner: &mut Runner<R>,
    lvl: LogLevel,
    config: &Config,
    test_files: &Vec<String>,
    filter: Option<&str>,
    jobs: Option<u8>,
) -> (r: Result<bool, CommandError>)
    ensures
        test_files@.len() == 0 ==> final(runner).calls() == old(runner).calls() && r == Ok::<
            bool,
            CommandError,
        >(false),
        test_files@.len() > 0 ==> test_calls_made(
            old(runner).calls(),
            final(runner).calls(),
            *config,
            filter,
            jobs,
            lvl,
        ),
        test_files@.len() > 0 ==> (r is Ok <==> r == Ok::<bool, CommandError>(true)),
        r is Ok && test_files@.len() > 0 ==> final(runner).calls() == old(runner).calls().push(
            test_build_call(*config, jobs, lvl),
        ).push(ctest_call(*config, opt_str_view(filter), jobs, lvl)),
        test_files@.len() == 0 ==> final(runner).answers() == old(runner).answers(),
        test_files@.len() > 0 ==> test_run_answered(
            old(runner).calls(),
            final(runner).calls(),
            old(runner).answers(),
            final(runner).answers(),
            match r {
                Ok(_) => Ok(()),
                Err(e) => Err(e),
            },
        ),
{
    if test_files.len() == 0 {
        return Ok(false);
    }
    match testing_run(runner, lvl, config, filter, jobs) {
        Ok(()) => Ok(true),
        Err(e) => Err(e),
    }
}

} // verus!
