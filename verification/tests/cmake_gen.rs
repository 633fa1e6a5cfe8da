use c3pg::cmake::CppStandard;
use c3pg::cmake_gen::{
    cmake_project_root_ref, effective_targets, generate_cmakelists, resolve_source_entry,
    resolve_targets, sanitize_to_c_identifier, SourceDir,
};
use c3pg::config::{BinConfig, Config, LibConfig, TargetType};

fn test_config(name: &str, standard: CppStandard) -> Config {
    let mut config = Config::default();
    config.project.name = name.to_string();
    config.project.standard = standard;
    config.project.cache_dir = "build".to_string();
    config
}

fn strings(v: &[&str]) -> Vec<String> {
    v.iter().map(|s| s.to_string()).collect()
}

#[test]
fn test_cmake_project_root_ref() {
    assert_eq!(
        cmake_project_root_ref("build"),
        "${CMAKE_CURRENT_LIST_DIR}/.."
    );
    assert_eq!(
        cmake_project_root_ref("build/debug"),
        "${CMAKE_CURRENT_LIST_DIR}/../.."
    );
}

#[test]
fn test_sanitize_to_c_identifier() {
    assert_eq!(sanitize_to_c_identifier("test_math"), "test_math");
    assert_eq!(sanitize_to_c_identifier("test-utils"), "test_utils");
    assert_eq!(sanitize_to_c_identifier("3test"), "_3test");
    assert_eq!(sanitize_to_c_identifier("hello world"), "hello_world");
}

#[test]
fn test_resolve_source_entry_nonexistent() {
    // Paths that are not listed as directories are returned as-is.
    let result = resolve_source_entry("/nonexistent/path", &[]);
    assert_eq!(result, vec!["/nonexistent/path"]);
}

#[test]
fn test_resolve_source_entry_file() {
    let result = resolve_source_entry("/tmp/x/hello.cpp", &[]);
    assert_eq!(result, vec!["/tmp/x/hello.cpp"]);
}

#[test]
fn test_resolve_source_entry_dir() {
    let dirs = vec![SourceDir {
        path: "/tmp/x/src".to_string(),
        files: strings(&["/tmp/x/src/a.cpp", "/tmp/x/src/c.cc"]),
    }];
    let result = resolve_source_entry("/tmp/x/src", &dirs);
    assert_eq!(result.len(), 2);
    assert!(result.iter().any(|p| p.contains("a.cpp")));
    assert!(result.iter().any(|p| p.contains("c.cc")));
}

#[test]
fn test_generate_basic_project() {
    let config = test_config("MyProject", CppStandard::Cpp20);
    let output = generate_cmakelists(&config, &vec![], &strings(&["src/main.cpp"]), &[]).unwrap();

    assert!(output.contains("cmake_minimum_required(VERSION 3.21)"));
    assert!(output.contains("project(MyProject LANGUAGES CXX)"));
    assert!(output.contains("set(CMAKE_CXX_STANDARD 20)"));
    assert!(output.contains("set(CMAKE_CXX_STANDARD_REQUIRED ON)"));
    assert!(output.contains("set(CMAKE_EXPORT_COMPILE_COMMANDS ON)"));
    assert!(output.contains("include(${CMAKE_BINARY_DIR}/conandeps_legacy.cmake)"));
    assert!(output.contains("add_executable(MyProject"));
    assert!(output.contains("src/main.cpp"));
    assert!(!output.contains("add_library("));
    assert!(output.contains("${CONANDEPS_LEGACY}"));
    assert!(!output.contains("include(CTest)"));
    assert!(!output.contains("enable_testing()"));
}

#[test]
fn test_generate_with_cpp17_and_no_export() {
    let mut config = test_config("NoDepsProject", CppStandard::Cpp17);
    config.cmake.export_compile_commands = false;
    let output = generate_cmakelists(&config, &vec![], &strings(&["src/main.cpp"]), &[]).unwrap();

    assert!(output.contains("set(CMAKE_CXX_STANDARD 17)"));
    assert!(output.contains("set(CMAKE_EXPORT_COMPILE_COMMANDS OFF)"));
    assert!(output.contains("project(NoDepsProject LANGUAGES CXX)"));
}

fn multi_config() -> Config {
    let mut config = test_config("multi", CppStandard::Cpp20);
    config.lib = vec![LibConfig {
        name: "mylib".into(),
        sources: strings(&["src/lib"]),
        public_include: strings(&["include"]),
        link: vec![],
    }];
    config.bin = vec![
        BinConfig {
            name: "myapp".into(),
            sources: strings(&["src/main.cpp"]),
            link: strings(&["mylib"]),
        },
        BinConfig {
            name: "mytool".into(),
            sources: strings(&["src/tool"]),
            link: strings(&["mylib"]),
        },
    ];
    config
}

fn multi_dirs() -> Vec<SourceDir> {
    vec![
        SourceDir {
            path: "src/lib".into(),
            files: strings(&["src/lib/math.cpp"]),
        },
        SourceDir {
            path: "src/tool".into(),
            files: strings(&["src/tool/tool.cpp"]),
        },
    ]
}

#[test]
fn test_generate_multitarget_project() {
    let output = generate_cmakelists(&multi_config(), &vec![], &vec![], &multi_dirs()).unwrap();
    assert!(output.contains("add_library(mylib STATIC"), "got:\n{output}");
    assert!(output.contains("add_executable(myapp"), "got:\n{output}");
    assert!(output.contains("add_executable(mytool"), "got:\n{output}");
    assert!(output.contains("include") && output.contains("PUBLIC"));
    assert!(output.contains("target_link_libraries(myapp"));
    assert!(output.contains("target_link_libraries(mytool"));
    assert!(output.contains("${CMAKE_CURRENT_LIST_DIR}/../src/lib/math.cpp"));
}

#[test]
fn test_resolve_targets_valid() {
    let libs = vec![LibConfig {
        name: "mylib".into(),
        sources: strings(&["/tmp/t/src"]),
        public_include: strings(&["include"]),
        link: vec![],
    }];
    let bins = vec![BinConfig {
        name: "myapp".into(),
        sources: strings(&["/tmp/t/main.cpp"]),
        link: strings(&["mylib"]),
    }];
    let dirs = vec![SourceDir {
        path: "/tmp/t/src".into(),
        files: strings(&["/tmp/t/src/lib.cpp"]),
    }];
    let effective = resolve_targets(&libs, &bins, &dirs).unwrap();
    assert_eq!(effective.len(), 2);
    assert_eq!(effective[0].name, "mylib");
    assert_eq!(effective[0].source_files.len(), 1);
    assert!(effective[0].source_files[0].contains("lib.cpp"));
    assert_eq!(effective[1].name, "myapp");
    assert_eq!(effective[1].link, vec!["mylib"]);
}

#[test]
fn resolved_sources_are_sorted_and_unique() {
    let libs = vec![LibConfig {
        name: "l".into(),
        sources: strings(&["d", "z.cpp", "a.cpp", "d"]),
        public_include: vec![],
        link: vec![],
    }];
    let dirs = vec![SourceDir {
        path: "d".into(),
        files: strings(&["d/m.cpp", "a.cpp", "d/b.cpp"]),
    }];
    let ts = resolve_targets(&libs, &[], &dirs).unwrap();
    assert_eq!(ts[0].source_files, vec!["a.cpp", "d/b.cpp", "d/m.cpp", "z.cpp"]);
    assert!(ts[0].target_type == TargetType::StaticLibrary);
}

#[test]
fn convention_target_uses_src_files_or_placeholder() {
    let config = test_config("demo", CppStandard::Cpp20);
    let ts = effective_targets(&config, &vec![], &[]).unwrap();
    assert_eq!(ts.len(), 1);
    assert_eq!(ts[0].name, "demo");
    assert_eq!(ts[0].source_files, vec!["src/main.cpp"]);
    let ts = effective_targets(&config, &strings(&["src/a.cpp", "src/main.cpp"]), &[]).unwrap();
    assert_eq!(ts[0].source_files, vec!["src/a.cpp", "src/main.cpp"]);
    assert!(ts[0].target_type == TargetType::Executable);
}

#[test]
fn invalid_targets_are_reported() {
    let mut config = test_config("bad", CppStandard::Cpp20);
    config.bin = vec![BinConfig {
        name: "app".into(),
        sources: vec![],
        link: strings(&["ghost"]),
    }];
    match generate_cmakelists(&config, &vec![], &vec![], &[]) {
        Err(c3pg::cmake_gen::GenerateError::Targets(e)) => {
            assert_eq!(
                e.to_string(),
                "executable 'app' links to 'ghost', which is not a declared [[lib]] target"
            );
        }
        other => panic!("unexpected: {other:?}"),
    }
}

#[test]
fn tests_get_a_suite_with_one_executable_per_file() {
    let config = test_config("calc", CppStandard::Cpp17);
    let output = generate_cmakelists(
        &config,
        &strings(&["tests/test_add.cpp", "tests/test-sub.cpp"]),
        &strings(&["src/main.cpp", "src/ops.cpp"]),
        &[],
    )
    .unwrap();
    assert!(output.contains("enable_testing()"), "got:\n{output}");
    assert!(output.contains("calc_tests"));
    assert!(output.contains("test_add"));
    assert!(output.contains("test_sub"));
    assert!(output.contains("gtest::gtest"));
    assert!(output.contains("${CMAKE_CURRENT_LIST_DIR}/../src/ops.cpp"));
    assert!(output.contains("cxx_std_17"));
}

#[test]
fn test_multitarget_generates_correct_cmake() {
    let mut config = test_config("cmakecheck", CppStandard::default());
    config.lib = vec![LibConfig {
        name: "mylib".to_string(),
        sources: strings(&["src/lib"]),
        public_include: strings(&["include"]),
        link: vec![],
    }];
    config.bin = vec![
        BinConfig {
            name: "myapp".to_string(),
            sources: strings(&["src/main.cpp"]),
            link: strings(&["mylib"]),
        },
        BinConfig {
            name: "mytool".to_string(),
            sources: strings(&["src/tool"]),
            link: strings(&["mylib"]),
        },
    ];
    let dirs = vec![
        SourceDir { path: "src/lib".to_string(), files: strings(&["src/lib/math.cpp"]) },
        SourceDir { path: "src/tool".to_string(), files: strings(&["src/tool/tool.cpp"]) },
    ];
    let src = strings(&["src/lib/math.cpp", "src/main.cpp", "src/tool/tool.cpp"]);
    let cmake = generate_cmakelists(&config, &vec![], &src, &dirs).unwrap();
    assert!(cmake.contains("add_library(mylib STATIC"), "Expected mylib library:\n{cmake}");
    assert!(cmake.contains("add_executable(myapp"), "Expected myapp executable:\n{cmake}");
    assert!(cmake.contains("add_executable(mytool"), "Expected mytool executable:\n{cmake}");
}

#[test]
fn test_names_come_from_the_file_stem_of_any_path() {
    let config = test_config("calc", CppStandard::Cpp17);
    let output = generate_cmakelists(
        &config,
        &strings(&["./tests/test_mul.cpp", "/abs/tests/test_div.cc"]),
        &strings(&["src/main.cpp"]),
        &[],
    )
    .unwrap();
    assert!(output.contains("test_mul"), "got:\n{output}");
    assert!(output.contains("test_div"), "got:\n{output}");
    assert!(!output.contains("test_mul.cpp."), "got:\n{output}");
}

#[test]
fn root_ref_counts_every_component_of_the_cache_dir() {
    assert_eq!(cmake_project_root_ref("./build"), "${CMAKE_CURRENT_LIST_DIR}/../..");
    assert_eq!(cmake_project_root_ref("out//build/"), "${CMAKE_CURRENT_LIST_DIR}/../..");
    assert_eq!(cmake_project_root_ref("/tmp/build"), "${CMAKE_CURRENT_LIST_DIR}/../../..");
}
