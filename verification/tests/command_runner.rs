use c3pg::command_runner::{live_prefix, live_streams};
use c3pg::command_runner::{
    binary_stream_mode, tool_stream_mode, CommandError, CommandResult, CommandRunner, LogLevel,
    Runner, StreamMode,
};

/// Echoes its arguments, fails on `fail`, and knows no other command.
#[derive(Default)]
struct MockRunner {
    recorded_cmd: Option<String>,
    recorded_args: Vec<String>,
    recorded_mode: Option<StreamMode>,
}

impl CommandRunner for MockRunner {
    fn execute(
        &mut self,
        cmd: &str,
        args: &[String],
        mode: StreamMode,
        _env: &[(String, String)],
    ) -> Result<CommandResult, CommandError> {
        self.recorded_cmd = Some(cmd.to_string());
        self.recorded_args = args.to_vec();
        self.recorded_mode = Some(mode);
        match cmd {
            "echo" => Ok(CommandResult {
                stdout: args.join(" "),
                stderr: String::new(),
                success: true,
            }),
            "fail" => Ok(CommandResult {
                stdout: String::new(),
                stderr: "Something went wrong!".to_string(),
                success: false,
            }),
            _ => Err(CommandError {
                message: "Unknown command".to_string(),
            }),
        }
    }
}

#[test]
fn test_command_builder_success() {
    let mut runner = Runner::new(MockRunner::default());
    let result = runner
        .command("echo")
        .args(&["Hello", "world!"])
        .run(&mut runner)
        .expect("Command should succeed");

    assert_eq!(result.stdout, "Hello world!");
    assert!(result.success);
}

#[test]
fn test_command_builder_failure() {
    let mut runner = Runner::new(MockRunner::default());
    let result = runner
        .command("fail")
        .run(&mut runner)
        .unwrap()
        .expect_success("This should return an error");

    assert!(result.is_err());
    let error = result.unwrap_err().to_string();
    assert!(error.contains("Something went wrong!"));
}

#[test]
fn test_command_invalid() {
    let mut runner = Runner::new(MockRunner::default());
    let result = runner.command("invalid_command").run(&mut runner);

    assert!(result.is_err());
    let error = result.unwrap_err().to_string();
    assert!(error.contains("Unknown command"));
}

#[test]
fn test_command_result_expect_success_with_stdout() {
    let result = CommandResult {
        stdout: "All good!".to_string(),
        stderr: String::new(),
        success: true,
    };

    let stdout = result.expect_success_with_stdout("mock_cmd").unwrap();
    assert_eq!(stdout, "All good!");
}

#[test]
fn test_command_result_expect_success_failure() {
    let result = CommandResult {
        stdout: String::new(),
        stderr: "Error!".to_string(),
        success: false,
    };

    let err = result.expect_success("Command failed").unwrap_err();
    assert_eq!(err.to_string(), "Command failed: Error!");
}

#[test]
fn expect_success_with_stdout_names_the_command() {
    let result = CommandResult {
        stdout: String::new(),
        stderr: "bad".to_string(),
        success: false,
    };
    let err = result.expect_success_with_stdout("tool").unwrap_err();
    assert_eq!(err.to_string(), "Command `tool` failed: bad");
}

#[test]
fn builder_passes_mode_and_environment() {
    let mut runner = Runner::new(MockRunner::default());
    let b = runner
        .command("echo")
        .args(&["a"])
        .stream_mode(StreamMode::Buffer)
        .env("CC", "clang")
        .envs(&[("CXX".to_string(), "clang++".to_string())]);
    assert_eq!(b.env.len(), 2);
    assert_eq!(b.env[1].0, "CXX");
    b.run(&mut runner).unwrap();
    assert_eq!(runner.inner.recorded_cmd.as_deref(), Some("echo"));
    assert_eq!(runner.inner.recorded_args, vec!["a"]);
    assert!(matches!(runner.inner.recorded_mode, Some(StreamMode::Buffer)));
}

#[test]
fn stream_modes_by_level() {
    assert!(matches!(
        tool_stream_mode(LogLevel::Info),
        StreamMode::Stream { stream_stdout: false, stream_stderr: true, prefix: false }
    ));
    assert!(matches!(
        tool_stream_mode(LogLevel::Trace),
        StreamMode::Stream { stream_stdout: true, stream_stderr: true, prefix: true }
    ));
    assert!(matches!(binary_stream_mode(LogLevel::Warn), StreamMode::Buffer));
    assert!(matches!(
        binary_stream_mode(LogLevel::Info),
        StreamMode::Stream { stream_stdout: true, stream_stderr: true, prefix: false }
    ));
}

#[test]
fn live_output_follows_the_stream_mode() {
    assert_eq!(live_streams(StreamMode::Buffer), (false, false, false));
    assert_eq!(
        live_streams(StreamMode::Stream { stream_stdout: false, stream_stderr: true, prefix: true }),
        (false, true, true)
    );
    assert_eq!(live_prefix("cmake", true), Some("cmake: ".to_string()));
    assert_eq!(live_prefix("cmake", false), None);
}
