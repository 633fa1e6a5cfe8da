use c3pg::command_runner::Runner;
use c3pg::diagnostics::{check_tool, hint_for_error, preflight_build};
use c3pg::test_utils::MockCommandRunner;

#[test]
fn test_check_tool_found() {
    let mut runner = Runner::new(MockCommandRunner::default());
    assert!(check_tool(&mut runner, "cmake", "install cmake").is_ok());
}

#[test]
fn test_check_tool_not_found() {
    let mut runner = Runner::new(MockCommandRunner::new(None));
    let result = check_tool(&mut runner, "cmake", "install cmake");
    assert!(result.is_err());
    let msg = result.unwrap_err().to_string();
    assert!(msg.contains("cmake"));
    assert!(msg.contains("install cmake"));
}

#[test]
fn test_hint_for_error_matches() {
    assert!(hint_for_error("Could not find toolchain file: build/conan_toolchain.cmake")
        .unwrap()
        .contains("c3pg build"));
}

#[test]
fn test_hint_for_error_no_match() {
    assert!(hint_for_error("some random error").is_none());
}

#[test]
fn test_hint_for_error_cmake_make_program() {
    let hint = hint_for_error("CMAKE_MAKE_PROGRAM is not set").unwrap();
    assert!(hint.contains("make") || hint.contains("ninja"));
}

#[test]
fn test_hint_for_error_config_not_found() {
    let hint = hint_for_error("Failed to load c3pg.toml or cpppg.toml").unwrap();
    assert!(hint.contains("c3pg new") || hint.contains("c3pg init"));
}

#[test]
fn hint_takes_first_matching_pattern() {
    let hint = hint_for_error("file not found; CMAKE_MAKE_PROGRAM is not set").unwrap();
    assert_eq!(hint, "hint: install a build tool such as `make` or `ninja`");
    assert_eq!(
        hint_for_error("fatal error: fmt/core.h: file not found").unwrap(),
        "hint: ensure the dependency providing this header is listed in c3pg.toml (`c3pg add <pkg>`)"
    );
}

#[test]
fn check_tool_message_is_exact() {
    let mut runner = Runner::new(MockCommandRunner::new(None));
    let err = check_tool(&mut runner, "conan", "pip install conan").unwrap_err();
    assert_eq!(err.to_string(), "`conan` not found on PATH -- pip install conan");
    assert_eq!(runner.inner.executed_commands()[0].1, vec!["--version"]);
}

#[test]
fn preflight_all_present() {
    let mut runner = Runner::new(MockCommandRunner::default());
    let warnings = preflight_build(&mut runner, "");
    assert!(warnings.is_empty());
    let cmds: Vec<String> = runner.inner.executed_commands().into_iter().map(|c| c.0).collect();
    assert_eq!(cmds, vec!["cmake", "conan", "c++"]);
}

#[test]
fn preflight_nothing_present() {
    let mut runner = Runner::new(MockCommandRunner::new(None));
    let warnings = preflight_build(&mut runner, "");
    assert_eq!(warnings.len(), 3);
    assert_eq!(warnings[2], "no C++ compiler found on PATH -- install g++ or clang++");
    assert_eq!(runner.inner.executed_commands().len(), 5);

    let mut runner = Runner::new(MockCommandRunner::new(None));
    let warnings = preflight_build(&mut runner, "clang++");
    assert_eq!(warnings.len(), 2);
    assert_eq!(runner.inner.executed_commands().len(), 2);
}

#[test]
fn tool_answer_follows_the_exit_status() {
    let ok = c3pg::command_runner::CommandResult {
        stdout: "cmake 3.28".to_string(),
        stderr: String::new(),
        success: true,
    };
    assert!(c3pg::diagnostics::tool_answer(Ok(ok), "cmake", "install it").is_ok());
    let failed = c3pg::command_runner::CommandResult::default();
    let e = c3pg::diagnostics::tool_answer(Ok(failed), "cmake", "install it").unwrap_err();
    assert_eq!(e.to_string(), "`cmake` not found on PATH -- install it");
    let not_run = c3pg::command_runner::CommandError { message: "no such file".to_string() };
    assert!(c3pg::diagnostics::tool_answer(Err(not_run), "ninja", "").is_err());
}
