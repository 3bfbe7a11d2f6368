use shader_docs::gen::{all_items, builtin_str, display_array_size, display_binding,
    interpolation_str, merge_versions, module_path_class, render_type, sampling_str, to_html,
    version_is_latest, wrap_common_js, wrap_items_js, ItemKind, ModulePath};
use shader_docs::model::{Binding, BuiltIn, Constant, Doc, Expression, Ident, Interpolation,
    Sampling, Type, Version, doc_new};
use shader_docs::post::post_process;
use shader_docs::tree::{place_unit, split_namespace, UnitPayload};

#[test]
fn renders_nested_types() {
    let t = Type::ArrayConstant(
        Box::new(Type::Named { name: "vec4<f32>".to_string(), def_path: None }),
        Some(8),
    );
    assert_eq!(render_type(&t).as_str(), "array<vec4<f32>, 8>");
    let t = Type::ArrayDynamic(Box::new(Type::Named { name: "u32".to_string(), def_path: None }));
    assert_eq!(render_type(&t).as_str(), "array<u32>");
    let t = Type::PointerWithAddressSpace {
        base: Box::new(Type::Named { name: "f32".to_string(), def_path: None }),
        address_space: "storage".to_string(),
        maybe_access: Some("read_write".to_string()),
    };
    assert_eq!(render_type(&t).as_str(), "ptr<storage, f32, read_write>");
    assert_eq!(display_array_size(&None).as_str(), "?");
    assert_eq!(display_array_size(&Some(3)).as_str(), "3");
}

#[test]
fn renders_bindings() {
    let b = Some(Binding::BuiltIn(BuiltIn::VertexIndex));
    assert_eq!(display_binding(&b).unwrap().as_str(), "@builtin(vertex_index) ");
    // a built-in WGSL cannot write has no display at all
    let b = Some(Binding::BuiltIn(BuiltIn::DrawID));
    assert!(display_binding(&b).is_none());
    let b = Some(Binding::Location {
        location: 2,
        second_blend_source: false,
        interpolation: Some(Interpolation::Flat),
        sampling: None,
    });
    assert_eq!(display_binding(&b).unwrap().as_str(), "@location(2) @interpolate(flat) ");
    let b = Some(Binding::Location {
        location: 0,
        second_blend_source: false,
        interpolation: None,
        sampling: Some(Sampling::Centroid),
    });
    assert_eq!(
        display_binding(&b).unwrap().as_str(),
        "@location(0) @interpolate(perspective, centroid) "
    );
    assert_eq!(display_binding(&None).unwrap().as_str(), "");
    assert_eq!(builtin_str(&BuiltIn::FragDepth), Some("frag_depth"));
    assert_eq!(interpolation_str(Interpolation::Linear), "linear");
    assert_eq!(sampling_str(Sampling::Center), "");
}

#[test]
fn markdown_comments_become_html() {
    let html = to_html(&Some("*emphasis* and `code`".to_string()));
    assert!(html.contains("<em>emphasis</em>"));
    assert!(html.contains("<code>code</code>"));
    assert_eq!(to_html(&None).as_str(), "");
}

#[test]
fn item_index_lists_each_named_declaration() {
    let doc = doc_new("root".to_string(), Version::new(1, 0, 0), Vec::new());
    let segs = split_namespace("m");
    let root = place_unit(doc.root, &segs, UnitPayload {
        source_url: None,
        constants: vec![Constant {
            name: Ident::Named("K".to_string()),
            ty: Type::Named { name: "u32".to_string(), def_path: None },
            init: Expression::Unknown,
            comment: None,
        }],
        global_variables: Vec::new(),
        structs: Vec::new(),
        functions: Vec::new(),
        shader_defs: Vec::new(),
    });
    let doc = post_process(Doc { version: Version::new(1, 0, 0), root, compiled_with: Vec::new() });
    let items = all_items(&doc);
    assert!(items.iter().any(|i| i.name == "m" && i.url == "root/m/index.html"));
    assert!(items.iter().any(|i| i.name == "K" && i.url == "root/m/const.K.html"));
}

#[test]
fn breadcrumbs_climb_one_level_per_child() {
    let root = ModulePath { segments: Vec::new(), level: 0 };
    let root = root.extend("crate".to_string(), "index.html".to_string(), ItemKind::Module, false);
    let child = root.extend("inner".to_string(), "index.html".to_string(), ItemKind::Module, true);
    assert_eq!(child.level, 1);
    assert_eq!(child.segments.len(), 2);
    assert_eq!(child.segments[0].href.as_str(), "../index.html");
    assert_eq!(child.segments[1].href.as_str(), "index.html");
    let leaf = child.extend("K".to_string(), "#".to_string(), ItemKind::Constant, false);
    assert_eq!(leaf.level, 1);
    assert_eq!(leaf.segments[0].href.as_str(), "../index.html");
    assert_eq!(module_path_class(&ItemKind::Constant, &true), "const");
    assert_eq!(module_path_class(&ItemKind::Constant, &false), "");
}

#[test]
fn script_wrappers() {
    assert_eq!(wrap_common_js("{}").as_str(), "window.DOCS_COMMON = {};\n");
    assert_eq!(wrap_items_js("[]").as_str(), "window.DOCS_ITEMS = [];\n");
}

#[test]
fn version_lists_merge_newest_first() {
    let existing = vec![Version::new(0, 14, 0), Version::new(0, 12, 1)];
    assert!(version_is_latest(&Version::new(0, 15, 0), &existing));
    assert!(!version_is_latest(&Version::new(0, 13, 0), &existing));
    let merged = merge_versions(existing.clone(), Version::new(0, 13, 0));
    let texts: Vec<String> = merged.iter().map(|v| v.text()).collect();
    assert_eq!(texts, vec!["0.14.0", "0.13.0", "0.12.1"]);
    // merging a version already published changes nothing
    let merged = merge_versions(existing, Version::new(0, 14, 0));
    let texts: Vec<String> = merged.iter().map(|v| v.text()).collect();
    assert_eq!(texts, vec!["0.14.0", "0.12.1"]);
}
