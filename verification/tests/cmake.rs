use c3pg::cmake::{BuildType, CMake, CppStandard, Sanitizers};
use c3pg::command_runner::{LogLevel, Runner};
use c3pg::test_utils::MockCommandRunner;

const TOOLCHAIN: &str = "/work/build_dir/conan_toolchain.cmake";

#[test]
fn test_cmake_build() {
    let mut mock_runner = Runner::new(MockCommandRunner::default());

    let result = CMake::build(
        &mut mock_runner,
        BuildType::Debug,
        "build_dir",
        "src_dir",
        TOOLCHAIN,
        LogLevel::Info,
        &[],
        &Sanitizers::default(),
    );

    assert!(result.is_ok());

    let commands = mock_runner.inner.executed_commands();
    assert_eq!(commands.len(), 2);

    let conf = &commands[0];
    assert_eq!(conf.0, "cmake");
    assert!(conf.1.contains(&"-B".to_string()));
    assert!(conf.1.contains(&"build_dir".to_string()));
    assert!(conf.1.contains(&"-DCMAKE_BUILD_TYPE=Debug".to_string()));
    assert!(conf.1.contains(&"-S".to_string()));
    assert!(conf.1.contains(&"src_dir".to_string()));
    let tc_arg = conf
        .1
        .iter()
        .find(|a| a.starts_with("-DCMAKE_TOOLCHAIN_FILE="))
        .unwrap();
    assert!(
        tc_arg.ends_with("build_dir/conan_toolchain.cmake"),
        "Expected toolchain arg to end with build_dir/conan_toolchain.cmake, got: {tc_arg}"
    );

    assert_eq!(commands[1].0, "cmake");
    assert_eq!(commands[1].1, vec!["--build", "build_dir"]);
}

#[test]
fn test_cmake_build_with_release_type() {
    let mut mock_runner = Runner::new(MockCommandRunner::default());

    let result = CMake::build(
        &mut mock_runner,
        BuildType::Release,
        "release_build_dir",
        "src_dir",
        "/work/release_build_dir/conan_toolchain.cmake",
        LogLevel::Info,
        &[],
        &Sanitizers::default(),
    );

    assert!(result.is_ok());

    let commands = mock_runner.inner.executed_commands();

    assert_eq!(commands[0].0, "cmake");
    assert!(commands[0]
        .1
        .contains(&"-DCMAKE_BUILD_TYPE=Release".to_string()));

    assert_eq!(commands[1].0, "cmake");
    assert_eq!(commands[1].1, vec!["--build", "release_build_dir"]);
}

#[test]
fn test_cmake_build_with_asan() {
    let mut mock_runner = Runner::new(MockCommandRunner::default());
    let san = Sanitizers {
        asan: true,
        tsan: false,
        ubsan: false,
    };

    let result = CMake::build(
        &mut mock_runner,
        BuildType::Debug,
        "build_dir",
        "src_dir",
        TOOLCHAIN,
        LogLevel::Info,
        &[],
        &san,
    );

    assert!(result.is_ok());

    let commands = mock_runner.inner.executed_commands();
    let conf_args = &commands[0].1;
    let cxx_flag = conf_args
        .iter()
        .find(|a| a.starts_with("-DCMAKE_CXX_FLAGS="))
        .expect("expected CMAKE_CXX_FLAGS");
    assert!(cxx_flag.contains("-fsanitize=address"));
    assert!(cxx_flag.contains("-fno-omit-frame-pointer"));

    let linker_flag = conf_args
        .iter()
        .find(|a| a.starts_with("-DCMAKE_EXE_LINKER_FLAGS="))
        .expect("expected CMAKE_EXE_LINKER_FLAGS");
    assert!(linker_flag.contains("-fsanitize=address"));
}

#[test]
fn test_sanitizer_asan_tsan_conflict() {
    let san = Sanitizers {
        asan: true,
        tsan: true,
        ubsan: false,
    };
    assert!(san.validate().is_err());
}

#[test]
fn test_sanitizer_no_flags_when_disabled() {
    let san = Sanitizers::default();
    assert!(san.cmake_args().is_empty());
    assert!(san.flag_string().is_none());
}

#[test]
fn cmake_configure_failure_skips_build_step() {
    let mut runner = Runner::new(MockCommandRunner::default());
    runner.inner.on(
        "cmake",
        &["-S"],
        c3pg::command_runner::CommandResult {
            stdout: String::new(),
            stderr: "boom".to_string(),
            success: false,
        },
    );
    let result = CMake::build(
        &mut runner,
        BuildType::Debug,
        "b",
        "s",
        TOOLCHAIN,
        LogLevel::Info,
        &[("CC".to_string(), "clang".to_string())],
        &Sanitizers::default(),
    );
    let err = result.unwrap_err();
    assert_eq!(err.to_string(), "Failed to configure with cmake: boom");
    assert_eq!(runner.inner.executed_commands().len(), 1);
}

#[test]
fn build_type_text_roundtrip() {
    for bt in [BuildType::Debug, BuildType::RelWithDebInfo, BuildType::Release] {
        let text = bt.to_string();
        let back = BuildType::from_str(&text).unwrap();
        assert_eq!(back.to_string(), text);
    }
    assert_eq!(BuildType::from_str("release").unwrap().to_string(), "Release");
    assert!(BuildType::from_str("fast").is_err());
}

#[test]
fn cpp_standard_text_roundtrip() {
    for s in ["03", "11", "14", "17", "20", "23"] {
        let std = CppStandard::from_str(s).unwrap();
        assert_eq!(std.to_string(), s);
    }
    assert_eq!(CppStandard::from_str("20").unwrap().number(), 20);
    assert!(CppStandard::default().is_default());
    let err = CppStandard::from_str("98").unwrap_err();
    assert_eq!(err.to_string(), "Could not match string 98 to CppStandard");
}

#[test]
fn sanitizer_flags_for_asan_and_ubsan() {
    let san = Sanitizers {
        asan: true,
        tsan: false,
        ubsan: true,
    };
    assert!(san.validate().is_ok());
    let flags = san.flag_string().unwrap();
    assert!(flags.contains("address"));
    assert!(flags.contains("undefined"));
    assert_eq!(san.cmake_args().len(), 2);
}

#[test]
fn build_type_names_ignore_case() {
    assert_eq!(BuildType::from_str("RELEASE").unwrap().to_string(), "Release");
    assert_eq!(BuildType::from_str("RelWithDebInfo").unwrap().to_string(), "RelWithDebInfo");
}
