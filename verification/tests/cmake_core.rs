use c3pg::cmake_core::{q, EmitError, LibType, Package, Project, Scope, Target, Value};

#[test]
fn quoting_only_when_needed() {
    assert_eq!(q("plain"), "plain");
    assert_eq!(q("${VAR}/x"), "${VAR}/x");
    assert_eq!(q("has space"), "\"has space\"");
    assert_eq!(q("a;b"), "\"a;b\"");
    assert_eq!(q("say \"hi\" \\o/"), "\"say \\\"hi\\\" \\\\o/\"");
}

#[test]
fn minimal_project_text() {
    let out = Project::new("demo").emit().unwrap();
    assert!(out.starts_with("cmake_minimum_required(VERSION 3.21)\nproject(demo LANGUAGES CXX)\n"));
}

#[test]
fn targets_and_packages_are_rendered() {
    let lib = Target::library("core", LibType::Static)
        .src(Value::Str("src/core.cpp".to_string()))
        .include_dir(Scope::PUBLIC, Value::Str("include".to_string()))
        .def(Scope::PRIVATE, Value::Str("FOO=1".to_string()))
        .link(Scope::PUBLIC, Value::Str("fmt::fmt".to_string()));
    let app = Target::executable("app")
        .srcs(vec![Value::Str("src/main.cpp".to_string())])
        .link(Scope::PRIVATE, Value::Str("core".to_string()));
    let out = Project::new("demo")
        .set_var("CMAKE_CXX_STANDARD", Value::Str("20".to_string()))
        .set_on("CMAKE_CXX_STANDARD_REQUIRED")
        .find_package(Package {
            name: "fmt".to_string(),
            required: true,
            config_only: true,
            components: vec![],
        })
        .target(lib)
        .target(app)
        .emit()
        .unwrap();
    assert!(out.contains("set(CMAKE_CXX_STANDARD 20)"), "{out}");
    assert!(out.contains("add_library(core STATIC"), "{out}");
    assert!(out.contains("add_executable(app"), "{out}");
    assert!(out.contains("target_link_libraries(app"), "{out}");
    assert!(out.contains("find_package(fmt"), "{out}");
}

#[test]
fn interface_library_with_sources_is_refused() {
    let t = Target::library("hdr", LibType::Interface).src(Value::Str("x.cpp".to_string()));
    let err = Project::new("demo").target(t).emit().unwrap_err();
    assert!(matches!(err, EmitError::InterfaceWithSources(_)));
}
