use c3pg::cli::build_type;
use c3pg::cmake::{BuildType, Sanitizers};
use c3pg::command_runner::{LogLevel, Runner};
use c3pg::commands::{binary_name, cmd_build, cmd_run, find_and_add_dependency};
use c3pg::conan::ConanError;
use c3pg::config::{Config, DependencyValue};
use c3pg::test_utils::MockCommandRunner;

const REMOTES: &str = "conancenter: https://center2.conan.io [Verify SSL: True, Enabled: True]";

fn runner_with_remote() -> Runner<MockCommandRunner> {
    let mut runner = Runner::new(MockCommandRunner::default());
    runner.inner.on_success("conan", &["remote", "list"], REMOTES);
    runner.inner.on_success("conan", &["search", "fmt"], "fmt/10.0.0\nfmt/10.2.0\n");
    runner
}

#[test]
fn test_add_dependency() {
    let mut runner = runner_with_remote();
    let mut config = Config::default();
    let d = find_and_add_dependency(&mut runner, "fmt", &mut config).unwrap();
    assert_eq!(d.to_string(), "fmt/10.2.0");
    assert_eq!(
        config.dependencies.get("fmt"),
        Some(&DependencyValue::Simple("10.2.0".to_string()))
    );
    assert!(runner.inner.has_run("conan", &["search", "-r", "conancenter", "fmt"]));
}

#[test]
fn adding_an_unknown_package_changes_nothing() {
    let mut runner = runner_with_remote();
    let mut config = Config::default();
    let err = find_and_add_dependency(&mut runner, "nothere", &mut config).unwrap_err();
    assert!(matches!(err, ConanError::NotFound(_)));
    assert_eq!(err.to_string(), "Could not find dependency nothere in remotes");
    assert!(config.dependencies.is_empty());
}

#[test]
fn test_build_invokes_conan_install_then_cmake() {
    let mut runner = runner_with_remote();
    let config = Config::default();
    cmd_build(
        &mut runner,
        &config,
        BuildType::Debug,
        LogLevel::Info,
        "/p/build/conan_toolchain.cmake",
        &[],
        &Sanitizers::default(),
        false,
    )
    .unwrap();
    assert!(runner.inner.has_run("conan", &["install"]));
    assert!(runner.inner.has_run("cmake", &["-B"]));
    assert!(runner.inner.has_run("cmake", &["--build"]));
    let cmds = runner.inner.executed_commands();
    let names: Vec<&str> = cmds.iter().map(|c| c.0.as_str()).collect();
    assert_eq!(names, vec!["conan", "conan", "conan", "cmake", "cmake"]);
    assert_eq!(cmds[1].1[..2], ["lock", "create"]);
    assert_eq!(cmds[2].1[0], "install");
    assert!(cmds[2].1.contains(&"build_type=Debug".to_string()));
    assert!(cmds[3].1.contains(&"-B".to_string()));
    assert_eq!(cmds[4].1, vec!["--build", "build"]);
}

#[test]
fn test_build_passes_build_type() {
    let mut runner = runner_with_remote();
    let mut config = Config::default();
    config.conan.remote = Some("conancenter".to_string());
    cmd_build(
        &mut runner,
        &config,
        build_type(true),
        LogLevel::Info,
        "/p/build/conan_toolchain.cmake",
        &[],
        &Sanitizers::default(),
        false,
    )
    .unwrap();
    let cmds = runner.inner.executed_commands();
    assert_eq!(cmds.len(), 4);
    assert!(runner.inner.has_run("conan", &["install", "build_type=Release"]));
    assert!(cmds[1].1.contains(&"build_type=Release".to_string()));
    assert!(cmds[2].1.contains(&"-DCMAKE_BUILD_TYPE=Release".to_string()));
}

#[test]
fn test_run_builds_then_executes_binary() {
    let mut runner = runner_with_remote();
    runner.inner.on_success("build/runtest", &[], "Hello from C3PG!");
    let mut config = Config::default();
    config.project.name = "runtest".to_string();
    let path = format!("build/{}", binary_name(&config.project.name, false));
    cmd_run(
        &mut runner,
        &config,
        BuildType::Debug,
        LogLevel::Info,
        "/p/build/conan_toolchain.cmake",
        &[],
        &Sanitizers::default(),
        false,
        &path,
    )
    .unwrap();
    let cmds = runner.inner.executed_commands();
    assert_eq!(cmds.last().unwrap().0, "build/runtest");
    assert_eq!(binary_name("app", true), "app.exe");
}

#[test]
fn failing_install_stops_the_build() {
    let mut runner = Runner::new(MockCommandRunner::new(None));
    let mut config = Config::default();
    config.conan.remote = Some("r".to_string());
    let err = cmd_build(
        &mut runner,
        &config,
        BuildType::Debug,
        LogLevel::Info,
        "/tc",
        &[],
        &Sanitizers::default(),
        true,
    )
    .unwrap_err();
    match err {
        c3pg::commands::BuildError::Conan(e) => {
            assert_eq!(e.to_string(), "Conan install failed: Error")
        }
        other => panic!("unexpected {other:?}"),
    }
    assert!(runner.inner.has_not_run("cmake"));
}

fn target(name: &str, exe: bool) -> c3pg::config::EffectiveTarget {
    c3pg::config::EffectiveTarget {
        name: name.to_string(),
        target_type: if exe {
            c3pg::config::TargetType::Executable
        } else {
            c3pg::config::TargetType::StaticLibrary
        },
        source_files: vec![],
        public_include: vec![],
        link: vec![],
    }
}

#[test]
fn run_target_picks_the_only_executable() {
    let ts = vec![target("core", false), target("app", true)];
    assert_eq!(c3pg::commands::run_target(&ts, None).unwrap(), "app");
}

#[test]
fn run_target_needs_a_name_among_several() {
    let ts = vec![target("a", true), target("b", true)];
    let e = c3pg::commands::run_target(&ts, None).unwrap_err();
    assert_eq!(
        e.to_string(),
        "multiple executable targets (a, b); pick one with --target"
    );
    assert_eq!(c3pg::commands::run_target(&ts, Some("b")).unwrap(), "b");
}

#[test]
fn run_target_refuses_libraries_and_unknown_names() {
    let ts = vec![target("core", false)];
    let e = c3pg::commands::run_target(&ts, None).unwrap_err();
    assert_eq!(e.to_string(), "the project has no executable target");
    let e = c3pg::commands::run_target(&ts, Some("core")).unwrap_err();
    assert_eq!(e.to_string(), "no executable target named 'core'");
}

#[test]
fn test_build_calls_conan_lock_create() {
    let mut runner = runner_with_remote();
    let config = Config::default();
    cmd_build(
        &mut runner,
        &config,
        BuildType::Debug,
        LogLevel::Info,
        "/p/build/conan_toolchain.cmake",
        &[],
        &Sanitizers::default(),
        false,
    )
    .unwrap();
    assert!(runner.inner.has_run("conan", &["lock", "create"]));
    let cmds = runner.inner.executed_commands();
    assert!(cmds[1].1.contains(&"--lockfile-out=c3pg.lock".to_string()));
}

#[test]
fn test_build_with_existing_lockfile_passes_it_to_install() {
    let mut runner = runner_with_remote();
    let config = Config::default();
    cmd_build(
        &mut runner,
        &config,
        BuildType::Debug,
        LogLevel::Info,
        "/p/build/conan_toolchain.cmake",
        &[],
        &Sanitizers::default(),
        true,
    )
    .unwrap();
    assert!(runner.inner.has_run("conan", &["install", "--lockfile=c3pg.lock"]));
    assert!(!runner.inner.has_run("conan", &["lock", "create"]));
}

#[test]
fn failing_lock_creation_stops_the_build() {
    let mut runner = Runner::new(MockCommandRunner::new(None));
    let mut config = Config::default();
    config.conan.remote = Some("r".to_string());
    let err = cmd_build(
        &mut runner,
        &config,
        BuildType::Debug,
        LogLevel::Info,
        "/tc",
        &[],
        &Sanitizers::default(),
        false,
    )
    .unwrap_err();
    match err {
        c3pg::commands::BuildError::Conan(e) => {
            assert_eq!(e.to_string(), "Conan lock create failed: Error")
        }
        other => panic!("unexpected {other:?}"),
    }
    assert_eq!(runner.inner.executed_commands().len(), 1);
}

/// The targets of a project with a library `mylib` and two executables,
/// `myapp` and `mytool`, that link it.
fn multitarget_config(name: &str) -> Config {
    let mut config = Config::default();
    config.project.name = name.to_string();
    config.lib = vec![c3pg::config::LibConfig {
        name: "mylib".to_string(),
        sources: vec!["src/lib".to_string()],
        public_include: vec!["include".to_string()],
        link: vec![],
    }];
    config.bin = vec![
        c3pg::config::BinConfig {
            name: "myapp".to_string(),
            sources: vec!["src/main.cpp".to_string()],
            link: vec!["mylib".to_string()],
        },
        c3pg::config::BinConfig {
            name: "mytool".to_string(),
            sources: vec!["src/tool".to_string()],
            link: vec!["mylib".to_string()],
        },
    ];
    config
}

fn multitarget_targets(config: &Config) -> Vec<c3pg::config::EffectiveTarget> {
    let dirs = vec![
        c3pg::cmake_gen::SourceDir {
            path: "src/lib".to_string(),
            files: vec!["src/lib/math.cpp".to_string()],
        },
        c3pg::cmake_gen::SourceDir {
            path: "src/tool".to_string(),
            files: vec!["src/tool/tool.cpp".to_string()],
        },
    ];
    let src = vec![
        "src/lib/math.cpp".to_string(),
        "src/main.cpp".to_string(),
        "src/tool/tool.cpp".to_string(),
    ];
    c3pg::cmake_gen::effective_targets(config, &src, &dirs).unwrap()
}

#[test]
fn test_multitarget_build_invokes_cmake() {
    let mut runner = runner_with_remote();
    let config = multitarget_config("multitest");
    cmd_build(
        &mut runner,
        &config,
        BuildType::Debug,
        LogLevel::Info,
        "/p/build/conan_toolchain.cmake",
        &[],
        &Sanitizers::default(),
        false,
    )
    .unwrap();
    assert!(runner.inner.has_run("conan", &["install"]));
    assert!(runner.inner.has_run("cmake", &["--build"]));
}

#[test]
fn test_multitarget_run_requires_target() {
    let config = multitarget_config("runmulti");
    let targets = multitarget_targets(&config);
    let result = c3pg::commands::run_target(&targets, None);
    assert!(result.is_err());
    let err_msg = result.unwrap_err().to_string();
    assert!(
        err_msg.contains("multiple") || err_msg.contains("--target"),
        "Error should mention multiple targets, got: {err_msg}"
    );
}

#[test]
fn test_multitarget_run_with_target() {
    let mut runner = runner_with_remote();
    runner.inner.on_success("build/myapp", &[], "Hello!");
    let config = multitarget_config("runtarget");
    let targets = multitarget_targets(&config);
    let exe = c3pg::commands::run_target(&targets, Some("myapp")).unwrap();
    let path = format!("{}/{}", config.project.cache_dir, binary_name(&exe, false));
    cmd_run(
        &mut runner,
        &config,
        BuildType::Debug,
        LogLevel::Info,
        "/p/build/conan_toolchain.cmake",
        &[],
        &Sanitizers::default(),
        false,
        &path,
    )
    .unwrap();
    assert!(runner.inner.has_run("build/myapp", &[]));
}

#[test]
fn test_multitarget_run_with_wrong_target() {
    let config = multitarget_config("runwrong");
    let targets = multitarget_targets(&config);
    let result = c3pg::commands::run_target(&targets, Some("nonexistent"));
    assert!(result.is_err());
    let err_msg = result.unwrap_err().to_string();
    assert!(
        err_msg.contains("nonexistent"),
        "Error should mention the bad target name, got: {err_msg}"
    );
}

const CONAN_REMOTE_LIST: &str = "conancenter: https://center2.conan.io [Enabled]\n";

fn mock_with_conan_responses() -> Runner<MockCommandRunner> {
    let mut runner = Runner::new(MockCommandRunner::new(Some(String::new())));
    runner.inner.on_success("conan", &["remote", "list"], CONAN_REMOTE_LIST);
    runner.inner.on_success("conan", &["search", "gtest"], "gtest/1.14.0\ngtest/1.15.0\n");
    runner.inner.on_success("conan", &["search", "fmt"], "fmt/10.1.0\nfmt/10.2.0\nfmt/11.0.0\n");
    runner
}

#[test]
fn test_add_dependency_replaces_existing() {
    let mut config = Config::default();
    config.project.name = "replacetest".to_string();

    let mut runner1 = mock_with_conan_responses();
    find_and_add_dependency(&mut runner1, "fmt", &mut config).unwrap();
    assert_eq!(
        config.dependencies.get("fmt"),
        Some(&DependencyValue::Simple("11.0.0".to_string()))
    );

    let mut runner2 = Runner::new(MockCommandRunner::new(Some(String::new())));
    runner2.inner.on_success("conan", &["remote", "list"], CONAN_REMOTE_LIST);
    runner2.inner.on_success("conan", &["search", "fmt"], "fmt/10.0.0\nfmt/10.2.0\n");
    find_and_add_dependency(&mut runner2, "fmt", &mut config).unwrap();
    assert_eq!(
        config.dependencies.get("fmt"),
        Some(&DependencyValue::Simple("10.2.0".to_string()))
    );
    let fmt_entries = config
        .dependencies
        .entries()
        .iter()
        .filter(|(k, _)| k.as_str() == "fmt")
        .count();
    assert_eq!(fmt_entries, 1);
}

#[test]
fn test_remove_dependency() {
    let mut config = Config::default();
    config.project.name = "removetest".to_string();
    let mut runner = mock_with_conan_responses();
    find_and_add_dependency(&mut runner, "fmt", &mut config).unwrap();
    assert!(config.has_dependency("fmt"));

    assert!(config.remove_dependency("fmt"));
    assert!(!config.has_dependency("fmt"));
    let mut runner2 = mock_with_conan_responses();
    let conanfile = c3pg::conan::Conan::from_config(&mut runner2, &config).unwrap().to_string();
    assert!(!conanfile.contains("self.requires(\"fmt"));
    assert!(!config.remove_dependency("fmt"));
}

#[test]
fn failing_configure_stops_before_the_cmake_build() {
    let mut runner = runner_with_remote();
    runner.inner.on(
        "cmake",
        &["-B"],
        c3pg::command_runner::CommandResult {
            stdout: String::new(),
            stderr: "no compiler".to_string(),
            success: false,
        },
    );
    let config = Config::default();
    let err = cmd_build(
        &mut runner,
        &config,
        BuildType::Debug,
        LogLevel::Info,
        "/tc",
        &[],
        &Sanitizers::default(),
        true,
    )
    .unwrap_err();
    match err {
        c3pg::commands::BuildError::Command(e) => {
            assert_eq!(e.to_string(), "Failed to configure with cmake: no compiler")
        }
        other => panic!("unexpected {other:?}"),
    }
    assert!(!runner.inner.has_run("cmake", &["--build"]));
}
