use c3pg::command_runner::{Runner, CommandResult, LogLevel};
use c3pg::format::{cmd_fmt, cmd_lint};
use c3pg::testing::{
    building_status, run_tests, test_file_name, testing_build, testing_run, testing_status, TestSuite,
};
use c3pg::config::Config;
use c3pg::test_utils::MockCommandRunner;

fn strings(v: &[&str]) -> Vec<String> {
    v.iter().map(|s| s.to_string()).collect()
}

#[test]
fn test_fmt_invokes_clang_format() {
    let mut runner = Runner::new(MockCommandRunner::default());
    cmd_fmt(&mut runner, LogLevel::Info, &strings(&["src/main.cpp", "include/a.hpp"]), false).unwrap();
    let cmds = runner.inner.executed_commands();
    assert_eq!(cmds.len(), 1);
    assert_eq!(cmds[0].0, "clang-format");
    assert_eq!(cmds[0].1, vec!["-i", "src/main.cpp", "include/a.hpp"]);
    assert!(runner.inner.has_run("clang-format", &["-i", "src/main.cpp"]));
}

#[test]
fn test_fmt_check_mode() {
    let mut runner = Runner::new(MockCommandRunner::default());
    cmd_fmt(&mut runner, LogLevel::Info, &strings(&["src/main.cpp"]), true).unwrap();
    assert_eq!(
        runner.inner.executed_commands()[0].1,
        vec!["--dry-run", "--Werror", "src/main.cpp"]
    );
}

#[test]
fn fmt_without_files_fails_and_runs_nothing() {
    let mut runner = Runner::new(MockCommandRunner::default());
    let err = cmd_fmt(&mut runner, LogLevel::Info, &vec![], false).unwrap_err();
    assert_eq!(err.to_string(), "no source files found to format");
    assert!(runner.inner.has_not_run("clang-format"));
}

#[test]
fn fmt_reports_clang_format_failure() {
    let mut runner = Runner::new(MockCommandRunner::new(None));
    let err = cmd_fmt(&mut runner, LogLevel::Info, &strings(&["a.cpp"]), true).unwrap_err();
    assert_eq!(err.to_string(), "clang-format failed: Error");
}

#[test]
fn test_lint_requires_compile_commands() {
    let mut runner = Runner::new(MockCommandRunner::default());
    let err = cmd_lint(&mut runner, LogLevel::Info, "build", false, &strings(&["src/main.cpp"]), false)
        .unwrap_err();
    assert!(err.to_string().contains("compile_commands.json"));
    assert_eq!(
        err.to_string(),
        "compile_commands.json not found in build/ -- run `c3pg build` first"
    );
    assert!(runner.inner.has_not_run("clang-tidy"));
}

#[test]
fn test_lint_invokes_clang_tidy() {
    let mut runner = Runner::new(MockCommandRunner::default());
    cmd_lint(&mut runner, LogLevel::Info, "build", true, &strings(&["src/main.cpp"]), false).unwrap();
    let cmds = runner.inner.executed_commands();
    assert_eq!(cmds[0].0, "clang-tidy");
    assert_eq!(cmds[0].1, vec!["-p=build", "src/main.cpp"]);
}

#[test]
fn test_lint_fix_mode() {
    let mut runner = Runner::new(MockCommandRunner::default());
    cmd_lint(&mut runner, LogLevel::Info, "build", true, &strings(&["src/main.cpp"]), true).unwrap();
    assert!(runner.inner.has_run("clang-tidy", &["--fix"]));
}

#[test]
fn gtest_skeleton_text() {
    let suite = TestSuite::new("math");
    assert_eq!(
        suite.to_string(),
        "#include <gtest/gtest.h>\n\nTEST(math, hello_test)\n{\n    EXPECT_EQ(2 + 2, 4);\n}"
    );
    assert_eq!(test_file_name("math"), "test_math.cpp");
}

#[test]
fn test_test_run_invokes_cmake_and_ctest() {
    let mut runner = Runner::new(MockCommandRunner::default());
    let mut config = Config::default();
    config.project.name = "runtest".to_string();
    testing_run(&mut runner, LogLevel::Info, &config, None, None).unwrap();
    let cmds = runner.inner.executed_commands();
    assert_eq!(cmds.len(), 2);
    assert_eq!(cmds[0].0, "cmake");
    assert_eq!(cmds[0].1, vec!["--build", "build", "--target", "runtest_tests"]);
    assert_eq!(cmds[1].0, "ctest");
    assert_eq!(cmds[1].1, vec!["--test-dir", "build", "--output-on-failure"]);
}

#[test]
fn test_test_run_with_filter_and_jobs() {
    let mut runner = Runner::new(MockCommandRunner::default());
    let config = Config::default();
    testing_run(&mut runner, LogLevel::Info, &config, Some("Math*"), Some(4)).unwrap();
    let cmds = runner.inner.executed_commands();
    assert_eq!(cmds[0].1, vec!["--build", "build", "--target", "sandbox_tests", "-j4"]);
    assert_eq!(
        cmds[1].1,
        vec!["--test-dir", "build", "--output-on-failure", "-R", "Math*", "-j", "4"]
    );
    assert_eq!(testing_status(Some("Math*"), Some(4)), "Math* (4 jobs)");
    assert_eq!(testing_status(None, None), "* (1 jobs)");
    assert_eq!(building_status(Some(12)), "tests (12 jobs)");
}

#[test]
fn failed_test_build_stops_before_ctest() {
    let mut runner = Runner::new(MockCommandRunner::default());
    runner.inner.on(
        "cmake",
        &["--build"],
        CommandResult {
            stdout: String::new(),
            stderr: "no target".to_string(),
            success: false,
        },
    );
    let config = Config::default();
    let err = testing_build(&mut runner, LogLevel::Info, &config, None).unwrap_err();
    assert_eq!(err.to_string(), "Failed to build tests: no target");
    let err = testing_run(&mut runner, LogLevel::Info, &config, None, None).unwrap_err();
    assert_eq!(err.to_string(), "Failed to build tests: no target");
    assert!(runner.inner.has_not_run("ctest"));
}

#[test]
fn test_test_run_with_no_tests_prints_message() {
    let mut runner = Runner::new(MockCommandRunner::new(Some(String::new())));
    let config = Config::default();
    let ran = run_tests(&mut runner, LogLevel::Info, &config, &vec![], None, None);
    assert!(ran.is_ok());
    assert!(!ran.unwrap());
    assert!(runner.inner.has_not_run("cmake"));
    assert!(runner.inner.has_not_run("ctest"));
}

#[test]
fn run_tests_with_test_files_builds_and_runs_them() {
    let mut runner = Runner::new(MockCommandRunner::default());
    let config = Config::default();
    let files = strings(&["tests/test_math.cpp"]);
    assert!(run_tests(&mut runner, LogLevel::Info, &config, &files, None, None).unwrap());
    let cmds = runner.inner.executed_commands();
    assert_eq!(cmds.len(), 2);
    assert_eq!(cmds[1].0, "ctest");
}

#[test]
fn failing_tests_fail_the_run() {
    let mut runner = Runner::new(MockCommandRunner::default());
    runner.inner.on(
        "ctest",
        &[],
        CommandResult {
            stdout: String::new(),
            stderr: "1 test failed".to_string(),
            success: false,
        },
    );
    let config = Config::default();
    let err = testing_run(&mut runner, LogLevel::Info, &config, None, None).unwrap_err();
    assert_eq!(err.to_string(), "Tests failed: 1 test failed");
}
