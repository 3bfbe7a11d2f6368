use shader_docs::resolve::{compose_all, partition_units, ComposeError, Shader, ShaderSource};
use shader_docs::ImportDeclaration;

fn unit(name: Option<&str>, source: &str, imports: Vec<(&str, Vec<&str>)>) -> Shader {
    Shader {
        name: name.map(|n| n.to_string()),
        source: ShaderSource {
            path: format!("shaders/{}.wgsl", name.unwrap_or("standalone")),
            source: source.to_string(),
            shader_defs: Vec::new(),
            docsrs_url: String::new(),
        },
        imports: imports
            .into_iter()
            .map(|(import, items)| ImportDeclaration {
                import: import.to_string(),
                items: items.into_iter().map(|s| s.to_string()).collect(),
            })
            .collect(),
        defines: Vec::new(),
    }
}

#[test]
fn composes_imports_before_importers() {
    // for an acyclic graph every unit is composed after its transitive imports
    let a = unit(Some("foo::a"), "#define_import_path foo::a\nfn ha() -> f32 { return 1.0; }\n",
        vec![]);
    let b = unit(Some("foo::b"),
        "#define_import_path foo::b\n#import foo::a\nfn hb() -> f32 { return foo::a::ha(); }\n",
        vec![("foo::a", vec![])]);
    let c = unit(Some("foo::c"),
        "#define_import_path foo::c\n#import foo::b\nfn hc() -> f32 { return foo::b::hb(); }\n",
        vec![("foo::b", vec![])]);
    // hand them over in reverse order on purpose
    let units = vec![c, b, a];
    let (composer, order) = compose_all(&units).expect("composition must succeed");
    assert_eq!(order.len(), 3);
    let pos = |u: usize| order.iter().position(|&x| x == u).unwrap();
    // c is at index 0, b at 1, a at 2 of `units`
    assert!(pos(2) < pos(1), "a must be composed before b");
    assert!(pos(1) < pos(0), "b must be composed before c");
    assert!(composer.contains_module("foo::a"));
    assert!(composer.contains_module("foo::b"));
    assert!(composer.contains_module("foo::c"));
}

#[test]
fn missing_import_names_the_missing_unit() {
    let b = unit(Some("foo::b"), "#define_import_path foo::b\n#import foo::nope\n",
        vec![("foo::nope", vec![])]);
    match compose_all(&vec![b]) {
        Err(e @ ComposeError::MissingImport(_)) => {
            assert_eq!(e.message().as_str(), "shader not found: foo::nope");
        },
        other => panic!("expected a missing import, got {:?}", other.map(|_| ())),
    }
}

#[test]
fn cyclic_imports_are_detected() {
    let a = unit(Some("c::a"), "#define_import_path c::a\n#import c::b\n",
        vec![("c::b", vec![])]);
    let b = unit(Some("c::b"), "#define_import_path c::b\n#import c::a\n",
        vec![("c::a", vec![])]);
    match compose_all(&vec![a, b]) {
        Err(ComposeError::CyclicImport(_)) => {},
        other => panic!("expected a cycle, got {:?}", other.map(|_| ())),
    }
}

#[test]
fn partition_separates_standalone_units() {
    let named = unit(Some("x::y"), "#define_import_path x::y\n", vec![]);
    let nameless = unit(None, "fn main_pass() {}\n", vec![]);
    let split = partition_units(vec![named, nameless], true);
    assert_eq!(split.composable_modules.len(), 1);
    assert_eq!(split.standalone_shaders.len(), 1);

    let named = unit(Some("x::y"), "#define_import_path x::y\n", vec![]);
    let nameless = unit(None, "fn main_pass() {}\n", vec![]);
    let split = partition_units(vec![named, nameless], false);
    assert_eq!(split.standalone_shaders.len(), 0);
    assert_eq!(split.composable_modules.len(), 1);
}

#[test]
fn later_unit_of_same_name_replaces_earlier() {
    let first = unit(Some("x::y"), "#define_import_path x::y\n// first\n", vec![]);
    let second = unit(Some("x::y"), "#define_import_path x::y\n// second\n", vec![]);
    let split = partition_units(vec![first, second], false);
    assert_eq!(split.composable_modules.len(), 1);
    assert!(split.composable_modules[0].source.source.contains("second"));
}
