use c3pg::cmake::BuildType;
use c3pg::command_runner::{LogLevel, Runner};
use c3pg::conan::{
    conan_verbosity_args, conanfile, first_remote, is_build_env_script, parse_build_env_script,
    select_latest, Conan, ConanError,
};
use c3pg::config::Config;
use c3pg::dependency::Dependency;
use c3pg::test_utils::MockCommandRunner;

#[test]
fn test_conan_from_config_with_remote_fallback() {
    let mut mock_runner = Runner::new(MockCommandRunner::new(Some(
        "default_remote: https://example.com [Enabled]".to_string(),
    )));

    let mut config = Config::default();
    config.project.name = "TestProject".to_string();
    config.project.cache_dir = "build".to_string();
    config.add_dependency(&Dependency {
        name: "TestDependency".to_string(),
        ..Default::default()
    });

    let conan = Conan::from_config(&mut mock_runner, &config)
        .expect("Failed to create Conan instance");

    assert_eq!(conan.bin, "conan");
    assert_eq!(conan.remote, "default_remote");
    assert_eq!(conan.requirements.len(), 1);
    assert_eq!(conan.requirements[0].name, "TestDependency");

    let commands = mock_runner.inner.executed_commands();
    assert_eq!(commands.len(), 1);
    assert_eq!(commands[0].0, "conan");
    assert_eq!(commands[0].1, vec!["remote", "list"]);
}

#[test]
fn test_conan_install() {
    let mut mock_runner = Runner::new(MockCommandRunner::new(Some(String::new())));

    let conan = Conan {
        bin: "conan".to_string(),
        remote: "default_remote".to_string(),
        requirements: vec![Dependency {
            name: "TestDependency".to_string(),
            ..Default::default()
        }],
        project_name: "example".to_string(),
    };

    conan
        .install(
            &mut mock_runner,
            "source_dir",
            "build_dir",
            BuildType::Debug,
            LogLevel::Info,
        )
        .expect("Conan install failed");

    let commands = mock_runner.inner.executed_commands();
    assert_eq!(commands.len(), 1);
    assert_eq!(commands[0].0, "conan");
    assert_eq!(
        commands[0].1,
        vec![
            "install",
            "--build=missing",
            "-s",
            "build_type=Debug",
            "--output-folder",
            "build_dir",
            "source_dir",
            "-vwarning"
        ]
    );
}

#[test]
fn test_conan_search() {
    let mut mock_runner = Runner::new(MockCommandRunner::new(Some(
        "TestDependency/1.0.0\nTestDependency/1.1.0".to_string(),
    )));

    let conan = Conan {
        bin: "conan".to_string(),
        remote: "default_remote".to_string(),
        project_name: "example".to_string(),
        requirements: vec![],
    };

    let result = conan
        .search(&mut mock_runner, "TestDependency")
        .expect("Conan search failed");

    assert_eq!(result, "TestDependency/1.0.0\nTestDependency/1.1.0");

    let commands = mock_runner.inner.executed_commands();
    assert_eq!(commands.len(), 1);
    assert_eq!(commands[0].0, "conan");
    assert_eq!(
        commands[0].1,
        vec!["search", "-r", "default_remote", "TestDependency"]
    );
}

#[test]
fn test_conan_fmt_empty_requirements() {
    let conan = Conan {
        bin: "conan".to_string(),
        remote: "default_remote".to_string(),
        project_name: "example".to_string(),
        requirements: vec![],
    };

    let formatted = conan.to_string();
    assert!(formatted.contains("def requirements(self):"));
    assert!(formatted.contains("pass"));
}

#[test]
fn test_conan_fmt_with_requirements() {
    let conan = Conan {
        bin: "conan".to_string(),
        remote: "default_remote".to_string(),
        project_name: "example".to_string(),
        requirements: vec![
            Dependency {
                name: "Dep1".to_string(),
                ..Default::default()
            },
            Dependency {
                name: "Dep2".to_string(),
                ..Default::default()
            },
        ],
    };

    let formatted = conan.to_string();
    assert!(formatted.contains("def requirements(self):"));
    assert!(formatted.contains("self.requires(\"Dep1\")"));
    assert!(formatted.contains("self.requires(\"Dep2\")"));
}

#[test]
fn conanfile_exact_text() {
    let reqs = vec![Dependency {
        name: "fmt".to_string(),
        version: Some("10.2.1".to_string()),
        user: None,
        channel: None,
    }];
    let text = conanfile("MyApp", "my-app", &reqs);
    assert_eq!(
        text,
        "from conan import ConanFile\n\n\nclass MyApp(ConanFile):\n    name = \"my-app\"\n    version = \"0.1\"\n    settings = \"os\", \"compiler\", \"build_type\", \"arch\"\n    generators = \"CMakeDeps\", \"CMakeToolchain\"\n\n    def requirements(self):\n        self.requires(\"fmt/10.2.1\")\n"
    );
}

#[test]
fn class_name_is_pascal_case() {
    let conan = Conan {
        bin: "conan".to_string(),
        remote: "r".to_string(),
        project_name: "my_cool-app".to_string(),
        requirements: vec![],
    };
    assert!(conan.to_string().contains("class MyCoolApp(ConanFile):"));
}

#[test]
fn first_remote_cases() {
    assert_eq!(
        first_remote("\n  \nconancenter: https://center2.conan.io [Verify SSL: True]\nother: x").unwrap(),
        "conancenter"
    );
    assert!(matches!(first_remote(" \n\n"), Err(ConanError::NoRemote)));
    assert!(matches!(first_remote("no colon here"), Err(ConanError::RemoteListFormat)));
    assert_eq!(
        ConanError::NoRemote.to_string(),
        "no Conan remotes configured -- run `conan remote add` first"
    );
}

#[test]
fn configured_remote_needs_no_lookup() {
    let mut runner = Runner::new(MockCommandRunner::new(None));
    let mut config = Config::default();
    config.conan.remote = Some("mine".to_string());
    let conan = Conan::from_config(&mut runner, &config).unwrap();
    assert_eq!(conan.remote, "mine");
    assert!(runner.inner.executed_commands().is_empty());
}

#[test]
fn latest_prefers_stable_versions() {
    let wanted = Dependency {
        name: "fmt".to_string(),
        ..Default::default()
    };
    let out = "fmt/9.1.0\nfmt/10.2.1\nfmt/11.0.0-rc.1\nzlib/1.3\nfmt/not-a-version\n";
    let d = select_latest(out, &wanted).unwrap();
    assert_eq!(d.version.as_deref(), Some("10.2.1"));

    let only_pre = "fmt/1.0.0-alpha\nfmt/1.0.0-beta\n";
    let d = select_latest(only_pre, &wanted).unwrap();
    assert_eq!(d.version.as_deref(), Some("1.0.0-beta"));

    assert!(select_latest("zlib/1.3\n", &wanted).is_none());
}

#[test]
fn latest_matching_respects_requested_version() {
    let mut runner = Runner::new(MockCommandRunner::new(Some("fmt/9.1.0\r\nfmt/10.2.1\r\n".to_string())));
    let conan = Conan {
        bin: "conan".to_string(),
        remote: "r".to_string(),
        project_name: "p".to_string(),
        requirements: vec![],
    };
    let d = conan
        .get_latest_matching_dependency(&mut runner, "fmt/9.1.0")
        .unwrap()
        .unwrap();
    assert_eq!(d.version.as_deref(), Some("9.1.0"));
    assert_eq!(runner.inner.executed_commands()[0].1, vec!["search", "-r", "r", "fmt"]);
}

#[test]
fn bad_reference_runs_nothing() {
    let mut runner = Runner::new(MockCommandRunner::default());
    let conan = Conan {
        bin: "conan".to_string(),
        remote: "r".to_string(),
        project_name: "p".to_string(),
        requirements: vec![],
    };
    let err = conan.get_latest_matching_dependency(&mut runner, "/1.0").unwrap_err();
    assert!(matches!(err, ConanError::BadReference(_)));
    assert!(runner.inner.executed_commands().is_empty());
}

#[test]
fn verbosity_flags() {
    assert_eq!(conan_verbosity_args(LogLevel::Off), vec!["-vquiet"]);
    assert_eq!(conan_verbosity_args(LogLevel::Warn), vec!["-verror"]);
    assert_eq!(conan_verbosity_args(LogLevel::Debug), vec!["-vstatus"]);
    assert_eq!(conan_verbosity_args(LogLevel::Trace), vec!["-v"]);
}

#[test]
fn build_env_scripts() {
    assert!(is_build_env_script("conanbuildenv-release-x86_64.sh", false));
    assert!(!is_build_env_script("conanbuildenv-release-x86_64.sh", true));
    assert!(is_build_env_script("conanbuildenv-debug.bat", true));
    assert!(!is_build_env_script("conanrunenv-debug.sh", false));

    let unix = "# generated\nexport CC=\"clang\"\n  export CXX='clang++'  \nexport PATH\nunset X\n";
    assert_eq!(
        parse_build_env_script(unix, false),
        vec![
            ("CC".to_string(), "clang".to_string()),
            ("CXX".to_string(), "clang++".to_string())
        ]
    );
    let win = "@echo off\r\nset \"CC=cl.exe\"\r\nset \"CXX=cl.exe\"\r\nset NOQUOTE=1\r\n";
    assert_eq!(
        parse_build_env_script(win, true),
        vec![
            ("CC".to_string(), "cl.exe".to_string()),
            ("CXX".to_string(), "cl.exe".to_string())
        ]
    );
}

#[test]
fn conan_step_result_reports_stderr() {
    let failed = c3pg::command_runner::CommandResult {
        stdout: String::new(),
        stderr: "boom".to_string(),
        success: false,
    };
    let e = c3pg::conan::conan_step_result(Ok(failed), "Conan install failed").unwrap_err();
    assert_eq!(e.to_string(), "Conan install failed: boom");
    let ok = c3pg::command_runner::CommandResult {
        stdout: String::new(),
        stderr: String::new(),
        success: true,
    };
    assert!(c3pg::conan::conan_step_result(Ok(ok), "Conan install failed").is_ok());
}
