use c3pg::config::{validate_targets, BinConfig, Config, DependencyValue, LibConfig};
use c3pg::dependency::Dependency;

#[test]
fn test_config_add_dependency() {
    let mut config = Config::default();

    config.add_dependency(&Dependency {
        name: "DependencyA".to_string(),
        version: Some("1.0".to_string()),
        ..Default::default()
    });
    assert_eq!(config.dependencies.len(), 1);
    assert!(config.dependencies.contains_key("DependencyA"));

    config.add_dependency(&Dependency {
        name: "DependencyB".to_string(),
        version: Some("2.0".to_string()),
        ..Default::default()
    });
    assert_eq!(config.dependencies.len(), 2);
    assert!(config.dependencies.contains_key("DependencyB"));

    config.add_dependency(&Dependency {
        name: "DependencyA".to_string(),
        version: Some("1.1".to_string()),
        ..Default::default()
    });
    assert_eq!(config.dependencies.len(), 2);
    assert_eq!(
        config.dependencies.get("DependencyA"),
        Some(&DependencyValue::Simple("1.1".to_string()))
    );
}

#[test]
fn test_dependency_value_simple_roundtrip() {
    let dep = Dependency {
        name: "fmt".to_string(),
        version: Some("11.0.0".to_string()),
        user: None,
        channel: None,
    };
    let val = DependencyValue::from_dependency(&dep);
    assert_eq!(val, DependencyValue::Simple("11.0.0".to_string()));

    let back = val.to_dependency("fmt");
    assert_eq!(back.name, "fmt");
    assert_eq!(back.version.as_deref(), Some("11.0.0"));
    assert!(back.user.is_none());
    assert!(back.channel.is_none());
}

#[test]
fn test_dependency_value_detailed_roundtrip() {
    let dep = Dependency {
        name: "mylib".to_string(),
        version: Some("1.0.0".to_string()),
        user: Some("probe".to_string()),
        channel: Some("release".to_string()),
    };
    let val = DependencyValue::from_dependency(&dep);
    assert!(matches!(val, DependencyValue::Detailed { .. }));

    let back = val.to_dependency("mylib");
    assert_eq!(back.name, "mylib");
    assert_eq!(back.version.as_deref(), Some("1.0.0"));
    assert_eq!(back.user.as_deref(), Some("probe"));
    assert_eq!(back.channel.as_deref(), Some("release"));
}

#[test]
fn test_validate_empty_targets_ok() {
    assert!(validate_targets(&[], &[]).is_ok());
}

#[test]
fn test_validate_valid_targets() {
    let libs = vec![LibConfig {
        name: "mylib".into(),
        sources: vec!["src/lib".into()],
        public_include: vec!["include".into()],
        link: vec![],
    }];
    let bins = vec![BinConfig {
        name: "myapp".into(),
        sources: vec!["src/main.cpp".into()],
        link: vec!["mylib".into()],
    }];
    assert!(validate_targets(&libs, &bins).is_ok());
}

#[test]
fn test_validate_duplicate_names() {
    let libs = vec![LibConfig {
        name: "dup".into(),
        sources: vec![],
        public_include: vec![],
        link: vec![],
    }];
    let bins = vec![BinConfig {
        name: "dup".into(),
        sources: vec![],
        link: vec![],
    }];
    let err = validate_targets(&libs, &bins).unwrap_err().to_string();
    assert!(err.contains("duplicate"), "Expected duplicate error, got: {err}");
}

#[test]
fn test_validate_dangling_link() {
    let bins = vec![BinConfig {
        name: "app".into(),
        sources: vec![],
        link: vec!["nonexistent".into()],
    }];
    let err = validate_targets(&[], &bins).unwrap_err().to_string();
    assert!(err.contains("nonexistent"), "Expected dangling link error, got: {err}");
}

#[test]
fn test_validate_cycle() {
    let libs = vec![
        LibConfig {
            name: "a".into(),
            sources: vec![],
            public_include: vec![],
            link: vec!["b".into()],
        },
        LibConfig {
            name: "b".into(),
            sources: vec![],
            public_include: vec![],
            link: vec!["a".into()],
        },
    ];
    let err = validate_targets(&libs, &[]).unwrap_err().to_string();
    assert!(err.contains("cycle"), "Expected cycle error, got: {err}");
}

#[test]
fn test_validate_self_link_is_cycle() {
    let libs = vec![LibConfig {
        name: "self".into(),
        sources: vec![],
        public_include: vec![],
        link: vec!["self".into()],
    }];
    let err = validate_targets(&libs, &[]).unwrap_err().to_string();
    assert!(err.contains("cycle"), "Expected cycle error, got: {err}");
}

fn lib(name: &str, links: &[&str]) -> LibConfig {
    LibConfig {
        name: name.into(),
        sources: vec![],
        public_include: vec![],
        link: links.iter().map(|s| s.to_string()).collect(),
    }
}

#[test]
fn validation_reports_first_problem_in_order() {
    // a duplicate is reported before a dangling link
    let libs = vec![lib("a", &["zzz"]), lib("a", &[])];
    assert_eq!(
        validate_targets(&libs, &[]).unwrap_err().to_string(),
        "duplicate target name: 'a'"
    );
    // library links are checked before executable links
    let libs = vec![lib("a", &["missing"])];
    let bins = vec![BinConfig {
        name: "app".into(),
        sources: vec![],
        link: vec!["gone".into()],
    }];
    assert_eq!(
        validate_targets(&libs, &bins).unwrap_err().to_string(),
        "library 'a' links to 'missing', which is not a declared [[lib]] target"
    );
    // a diamond is no cycle
    let libs = vec![lib("top", &["l", "r"]), lib("l", &["base"]), lib("r", &["base"]), lib("base", &[])];
    assert!(validate_targets(&libs, &[]).is_ok());
    // a longer cycle names one of its members
    let libs = vec![lib("x", &["y"]), lib("y", &["z"]), lib("z", &["x"]), lib("w", &["x"])];
    let msg = validate_targets(&libs, &[]).unwrap_err().to_string();
    assert!(msg.starts_with("dependency cycle detected involving target '"));
    assert!(msg.contains("'x'") || msg.contains("'y'") || msg.contains("'z'"));
}

#[test]
fn remove_and_query_dependencies() {
    let mut config = Config::default();
    config.add_dependency(&Dependency {
        name: "zlib".to_string(),
        version: Some("1.3".to_string()),
        ..Default::default()
    });
    config.add_dependency(&Dependency {
        name: "boost".to_string(),
        version: Some("1.88".to_string()),
        ..Default::default()
    });
    assert!(config.has_dependency("zlib"));
    let names: Vec<String> = config.dependency_vec().into_iter().map(|d| d.name).collect();
    assert_eq!(names, vec!["boost", "zlib"]);
    assert!(config.remove_dependency("zlib"));
    assert!(!config.has_dependency("zlib"));
    assert!(!config.remove_dependency("zlib"));
    assert_eq!(config.dependencies.len(), 1);
}

#[test]
fn defaults() {
    let config = Config::default();
    assert_eq!(config.project.name, "sandbox");
    assert_eq!(config.project.cache_dir, "build");
    assert_eq!(config.conan.bin, "conan");
    assert!(config.conan.remote.is_none());
    assert_eq!(config.testing.dir, "tests");
    assert!(config.cmake.export_compile_commands);
    assert!(config.dependencies.is_empty());
}
