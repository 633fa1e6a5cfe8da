use c3pg::config_text::inline_dependency_subtables;

#[test]
fn folds_subtables_into_inline_tables() {
    let input = "[project]\nname = \"demo\"\n\n[dependencies]\nboost = \"1.88\"\n\n[dependencies.mylib]\nversion = \"1.0.0\"\nuser = \"probe\"\nchannel = \"release\"\n";
    let expected = "[project]\nname = \"demo\"\n\n[dependencies]\nboost = \"1.88\"\nmylib = { version = \"1.0.0\", user = \"probe\", channel = \"release\" }\n";
    assert_eq!(inline_dependency_subtables(input), expected);
}

#[test]
fn text_without_subtables_is_unchanged() {
    let input = "[project]\nname = \"demo\"\n\n[dependencies]\nfmt = \"11.0.0\"\n\n\n";
    assert_eq!(inline_dependency_subtables(input), input);
}

#[test]
fn heading_is_added_when_only_subtables_exist() {
    let input = "[project]\nname = \"p\"\n\n[dependencies.a]\nversion = \"1\"\n\n[dependencies.b]\nversion = \"2\"\nchannel = \"c\"\n\n[cmake]\nexport_compile_commands = false\n";
    let expected = "[project]\nname = \"p\"\n[dependencies]\na = { version = \"1\" }\nb = { version = \"2\", channel = \"c\" }\n\n[cmake]\nexport_compile_commands = false\n";
    assert_eq!(inline_dependency_subtables(input), expected);
}

#[test]
fn subtables_at_the_start_go_to_the_end() {
    let input = "[dependencies.a]\nversion = \"1\"\n[project]\nname = \"p\"\n";
    let expected = "[project]\nname = \"p\"\n\n[dependencies]\na = { version = \"1\" }\n";
    assert_eq!(inline_dependency_subtables(input), expected);
}

#[test]
fn folding_twice_is_folding_once() {
    for input in [
        "[project]\nname = \"p\"\n\n[dependencies.a]\nversion = \"1\"\n\n[dependencies.b]\nversion = \"2\"\n",
        "[dependencies.a]\nversion = \"1\"\n[project]\nname = \"p\"",
        "[dependencies.a]\nversion = \"1\"\n",
    ] {
        let once = inline_dependency_subtables(input);
        assert_eq!(inline_dependency_subtables(&once), once);
    }
}
