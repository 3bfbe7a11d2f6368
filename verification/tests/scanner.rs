use shader_docs::scan::{find_defs, parse_import_path_decl};

fn names(v: &Vec<String>) -> Vec<&str> {
    v.iter().map(|s| s.as_str()).collect()
}

#[test]
fn finds_ifdef_tokens() {
    let src = "#ifdef FOO\nlet x = 1;\n#endif\n";
    assert_eq!(names(&find_defs(src)), vec!["FOO"]);
}

#[test]
fn finds_ifndef_and_else_forms() {
    let src = "# ifndef BAR\n#else ifdef BAZ\n#endif\n";
    assert_eq!(names(&find_defs(src)), vec!["BAR", "BAZ"]);
}

#[test]
fn finds_comparison_tokens() {
    let src = "#if MAX_LIGHTS == 10\n#endif\n#if DEPTH >= 2\n#endif\n";
    assert_eq!(names(&find_defs(src)), vec!["MAX_LIGHTS", "DEPTH"]);
}

#[test]
fn finds_delimited_tokens() {
    let src = "const N: u32 = #{COUNT}u;\nlet a = #{WIDTH} * #{COUNT};\n";
    assert_eq!(names(&find_defs(src)), vec!["COUNT", "WIDTH"]);
}

#[test]
fn tolerates_unrecognized_directives() {
    let src = "#pragma once\n#if\n#ifdef\nplain text\n";
    assert_eq!(find_defs(src).len(), 0);
}

#[test]
fn deduplicates_tokens() {
    let src = "#ifdef A\n#ifdef A\n#if A > 1\n";
    assert_eq!(names(&find_defs(src)), vec!["A"]);
}

#[test]
fn no_evaluation_only_capture() {
    // the comparison itself never filters anything: both sides' names appear
    let src = "#if LEFT != 0\n#endif\n#ifdef LEFT\n#endif\n";
    assert_eq!(names(&find_defs(src)), vec!["LEFT"]);
}

#[test]
fn declared_import_path() {
    let src = "// a shader\n#define_import_path bevy_pbr::lighting\nfn f() {}\n";
    assert_eq!(parse_import_path_decl(src).unwrap().as_str(), "bevy_pbr::lighting");
}

#[test]
fn missing_import_path_means_standalone() {
    let src = "fn f() {}\n";
    assert!(parse_import_path_decl(src).is_none());
}
