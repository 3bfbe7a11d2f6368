use shader_docs::model::{Constant, DefEntry, Doc, Expression, Ident, Module, ShaderDefValue,
    Type, Version, doc_new};
use shader_docs::post::{post_process, post_process_module};
use shader_docs::tree::{empty_payload, find_or_create_module, place_unit, split_namespace,
    UnitPayload};
use shader_docs::gen::unused_defs;

fn empty_doc() -> Doc {
    doc_new("bevy".to_string(), Version::new(0, 15, 0), Vec::new())
}

fn constant(name: &str) -> Constant {
    Constant {
        name: Ident::Named(name.to_string()),
        ty: Type::Named { name: "f32".to_string(), def_path: None },
        init: Expression::Unknown,
        comment: None,
    }
}

fn payload_with(constants: Vec<Constant>, defs: Vec<&str>) -> UnitPayload {
    UnitPayload {
        source_url: Some("https://docs.rs/crate/x/1.0.0/source/a.wgsl".to_string()),
        constants,
        global_variables: Vec::new(),
        structs: Vec::new(),
        functions: Vec::new(),
        shader_defs: defs.into_iter().map(|s| s.to_string()).collect(),
    }
}

#[test]
fn split_namespace_segments() {
    let segs = split_namespace("bevy_pbr::mesh::types");
    let segs: Vec<&str> = segs.iter().map(|s| s.as_str()).collect();
    assert_eq!(segs, vec!["bevy_pbr", "mesh", "types"]);
    let one = split_namespace("solo");
    assert_eq!(one.len(), 1);
    assert_eq!(one[0].as_str(), "solo");
}

#[test]
fn find_or_create_builds_the_chain() {
    let doc = empty_doc();
    let (doc, segs) = find_or_create_module(doc, "foo::bar");
    assert_eq!(segs.len(), 2);
    assert_eq!(doc.root.modules.len(), 1);
    assert_eq!(doc.root.modules[0].name.as_str(), "foo");
    assert_eq!(doc.root.modules[0].modules[0].name.as_str(), "bar");
    // a second walk reuses the same nodes
    let (doc, _) = find_or_create_module(doc, "foo::baz");
    assert_eq!(doc.root.modules.len(), 1);
    assert_eq!(doc.root.modules[0].modules.len(), 2);
}

#[test]
fn place_unit_appends_declarations() {
    let doc = empty_doc();
    let segs = split_namespace("foo::bar");
    let root = place_unit(doc.root, &segs, payload_with(vec![constant("B")], vec!["T1"]));
    let root = place_unit(root, &segs, payload_with(vec![constant("A")], vec!["T1", "T2"]));
    let bar = &root.modules[0].modules[0];
    assert_eq!(bar.constants.len(), 2);
    assert_eq!(bar.constants[0].name, Ident::Named("B".to_string()));
    assert_eq!(bar.constants[1].name, Ident::Named("A".to_string()));
    // token sets are united without duplicates
    let toks: Vec<&str> = bar.shader_defs.iter().map(|s| s.as_str()).collect();
    assert_eq!(toks, vec!["T1", "T2"]);
}

#[test]
fn empty_payload_creates_nothing_extra() {
    let doc = empty_doc();
    let segs = split_namespace("ns");
    let root = place_unit(doc.root, &segs, empty_payload());
    assert_eq!(root.modules[0].constants.len(), 0);
    assert!(root.modules[0].source_url.is_none());
}

#[test]
fn post_process_sorts_every_level() {
    let doc = empty_doc();
    let segs_b = split_namespace("zeta");
    let segs_a = split_namespace("alpha");
    let root = place_unit(doc.root, &segs_b, payload_with(vec![constant("z"), constant("a")],
        vec!["B_TOK", "A_TOK"]));
    let root = place_unit(root, &segs_a, payload_with(Vec::new(), Vec::new()));
    let root = post_process_module(root);
    assert_eq!(root.modules[0].name.as_str(), "alpha");
    assert_eq!(root.modules[1].name.as_str(), "zeta");
    assert_eq!(root.modules[1].constants[0].name, Ident::Named("a".to_string()));
    assert_eq!(root.modules[1].constants[1].name, Ident::Named("z".to_string()));
    let toks: Vec<&str> = root.modules[1].shader_defs.iter().map(|s| s.as_str()).collect();
    assert_eq!(toks, vec!["A_TOK", "B_TOK"]);
}

#[test]
fn post_process_is_idempotent() {
    let doc = empty_doc();
    let segs = split_namespace("foo::deep::leaf");
    let root = place_unit(doc.root, &segs, payload_with(vec![constant("k"), constant("b")],
        vec!["Z", "A", "M"]));
    let doc = Doc {
        version: Version::new(0, 15, 0),
        root,
        compiled_with: vec![
            DefEntry { name: "Z".to_string(), value: ShaderDefValue::Bool(true) },
            DefEntry { name: "A".to_string(), value: ShaderDefValue::UInt(2) },
        ],
    };
    let once = post_process(doc);
    let once_again = post_process(Doc {
        version: once.version,
        root: clone_module(&once.root),
        compiled_with: once.compiled_with.clone(),
    });
    assert_eq!(once, once_again);
}

// The model deliberately offers no Clone for whole trees; tests copy by hand.
fn clone_module(m: &Module) -> Module {
    Module {
        name: m.name.clone(),
        source_url: m.source_url.clone(),
        modules: m.modules.iter().map(clone_module).collect(),
        constants: m.constants.iter().map(|c| Constant {
            name: c.name.clone(),
            ty: clone_type(&c.ty),
            init: c.init.clone(),
            comment: c.comment.clone(),
        }).collect(),
        global_variables: Vec::new(),
        structs: Vec::new(),
        functions: Vec::new(),
        shader_defs: m.shader_defs.clone(),
    }
}

fn clone_type(t: &Type) -> Type {
    match t {
        Type::Named { name, def_path } => Type::Named {
            name: name.clone(),
            def_path: def_path.clone(),
        },
        _ => panic!("only named types appear in these trees"),
    }
}

#[test]
fn tokens_propagate_to_every_ancestor() {
    // a leaf module referencing FOO puts FOO into each ancestor's set
    let doc = empty_doc();
    let segs = split_namespace("a::b::c");
    let root = place_unit(doc.root, &segs, payload_with(Vec::new(), vec!["FOO"]));
    let root = post_process_module(root);
    let a = &root.modules[0];
    let b = &a.modules[0];
    let c = &b.modules[0];
    assert!(root.shader_defs.iter().any(|s| s == "FOO"));
    assert!(a.shader_defs.iter().any(|s| s == "FOO"));
    assert!(b.shader_defs.iter().any(|s| s == "FOO"));
    assert!(c.shader_defs.iter().any(|s| s == "FOO"));
}

#[test]
fn unused_values_are_reported() {
    let doc = empty_doc();
    let segs = split_namespace("m");
    let root = place_unit(doc.root, &segs, payload_with(Vec::new(), vec!["USED"]));
    let doc = Doc {
        version: Version::new(0, 15, 0),
        root,
        compiled_with: vec![
            DefEntry { name: "USED".to_string(), value: ShaderDefValue::Bool(true) },
            DefEntry { name: "DANGLING".to_string(), value: ShaderDefValue::Bool(true) },
        ],
    };
    let doc = post_process(doc);
    let unused = unused_defs(&doc);
    let unused: Vec<&str> = unused.iter().map(|s| s.as_str()).collect();
    assert_eq!(unused, vec!["DANGLING"]);
}
