use shader_docs::ir::{ir_module_wf_check, IrAddressSpace, IrBinding, IrBuiltIn, IrConstant,
    IrExpression, IrFunction, IrFunctionArgument, IrGlobalVariable, IrImageClass,
    IrImageDimension, IrInterpolation, IrLiteral, IrModule, IrResourceBinding, IrSampling,
    IrScalar, IrScalarKind, IrStorageAccess, IrStorageFormat, IrStructMember, IrType,
    IrTypeInner, IrVectorSize};
use shader_docs::lower::{build_ty, contains_pre, demangle, lower_unit, sanitize_comments,
    DefPathMap, Mangling};
use shader_docs::model::{Ident, Type, Version, doc_new};
use shader_docs::gen::render_type;

fn f32_scalar() -> IrScalar {
    IrScalar { kind: IrScalarKind::Float, width: 4 }
}

fn unnamed(inner: IrTypeInner) -> IrType {
    IrType { name: None, inner }
}

fn named_str(t: &Type) -> &str {
    match t {
        Type::Named { name, .. } => name.as_str(),
        _ => panic!("expected a named type"),
    }
}

#[test]
fn renders_vector_type() {
    let types = vec![unnamed(IrTypeInner::Vector { size: IrVectorSize::Tri, scalar: f32_scalar() })];
    let t = build_ty(&types, 0, &DefPathMap::new(), &Mangling::engine_default()).unwrap();
    assert_eq!(named_str(&t), "vec3<f32>");
}

#[test]
fn renders_matrix_type() {
    let types = vec![unnamed(IrTypeInner::Matrix {
        columns: IrVectorSize::Quad,
        rows: IrVectorSize::Quad,
        scalar: f32_scalar(),
    })];
    let t = build_ty(&types, 0, &DefPathMap::new(), &Mangling::engine_default()).unwrap();
    assert_eq!(named_str(&t), "mat4x4<f32>");
}

#[test]
fn renders_constant_array_structurally() {
    let types = vec![
        unnamed(IrTypeInner::Scalar(f32_scalar())),
        unnamed(IrTypeInner::Array { base: 0, size: Some(4) }),
    ];
    let t = build_ty(&types, 1, &DefPathMap::new(), &Mangling::engine_default()).unwrap();
    match &t {
        Type::ArrayConstant(elem, Some(4)) => assert_eq!(named_str(elem), "f32"),
        other => panic!("unexpected shape: {:?}", other),
    }
    assert_eq!(render_type(&t).as_str(), "array<f32, 4>");
}

#[test]
fn renders_sampled_array_texture() {
    let types = vec![unnamed(IrTypeInner::Image {
        dim: IrImageDimension::D2,
        arrayed: true,
        class: IrImageClass::Sampled { kind: IrScalarKind::Float, multi: false },
    })];
    let t = build_ty(&types, 0, &DefPathMap::new(), &Mangling::engine_default()).unwrap();
    assert_eq!(named_str(&t), "texture_2d_array<f32>");
}

#[test]
fn renders_storage_texture_with_access() {
    let types = vec![unnamed(IrTypeInner::Image {
        dim: IrImageDimension::D2,
        arrayed: false,
        class: IrImageClass::Storage {
            format: IrStorageFormat::Rgba8Unorm,
            access: IrStorageAccess { load: false, store: true },
        },
    })];
    let t = build_ty(&types, 0, &DefPathMap::new(), &Mangling::engine_default()).unwrap();
    assert_eq!(named_str(&t), "texture_storage_2d<rgba8unorm,write>");
}

#[test]
fn renders_atomic_sampler_and_pointer() {
    let types = vec![
        unnamed(IrTypeInner::Atomic(IrScalar { kind: IrScalarKind::Uint, width: 4 })),
        unnamed(IrTypeInner::Sampler { comparison: true }),
        unnamed(IrTypeInner::Pointer { base: 0, space: IrAddressSpace::Function }),
        unnamed(IrTypeInner::Pointer { base: 0, space: IrAddressSpace::Handle }),
    ];
    let dp = DefPathMap::new();
    let m = Mangling::engine_default();
    assert_eq!(named_str(&build_ty(&types, 0, &dp, &m).unwrap()), "atomic<u32>");
    assert_eq!(named_str(&build_ty(&types, 1, &dp, &m).unwrap()), "sampler_comparison");
    match build_ty(&types, 2, &dp, &m).unwrap() {
        Type::PointerWithAddressSpace { base, address_space, maybe_access } => {
            assert_eq!(named_str(&base), "atomic<u32>");
            assert_eq!(address_space.as_str(), "function");
            assert!(maybe_access.is_none());
        },
        other => panic!("unexpected shape: {:?}", other),
    }
    // a pointer into the handle space degenerates to its base type
    assert_eq!(named_str(&build_ty(&types, 3, &dp, &m).unwrap()), "atomic<u32>");
}

#[test]
fn invalid_scalar_is_an_error() {
    let types = vec![unnamed(IrTypeInner::Scalar(IrScalar {
        kind: IrScalarKind::Float,
        width: 2,
    }))];
    assert!(build_ty(&types, 0, &DefPathMap::new(), &Mangling::engine_default()).is_err());
}

#[test]
fn demangling_strips_marker_and_terminator() {
    let m = Mangling::engine_default();
    assert_eq!(demangle("FooX_naga_oil_mod_XABCDX", &m).as_str(), "Foo");
    // the marker without the terminator at the very end is left alone
    assert_eq!(demangle("FooX_naga_oil_mod_XABCD", &m).as_str(), "FooX_naga_oil_mod_XABCD");
    assert_eq!(demangle("Plain", &m).as_str(), "Plain");
    assert!(contains_pre(Some("FooX_naga_oil_mod_X1X"), &m));
    assert!(!contains_pre(Some("Foo"), &m));
    assert!(!contains_pre(None, &m));
}

#[test]
fn mangled_declarations_are_filtered() {
    // a declaration named Foo<marker>1<terminator> is absent; Foo is present
    let unit = IrModule {
        types: vec![unnamed(IrTypeInner::Scalar(f32_scalar()))],
        constants: vec![
            IrConstant {
                name: Some("FooX_naga_oil_mod_X1X".to_string()),
                ty: 0,
                init: IrExpression::Unknown,
                comment: None,
            },
            IrConstant {
                name: Some("Foo".to_string()),
                ty: 0,
                init: IrExpression::Unknown,
                comment: None,
            },
        ],
        global_variables: Vec::new(),
        functions: Vec::new(),
    };
    assert!(ir_module_wf_check(&unit));
    let doc = doc_new("crate".to_string(), Version::new(1, 0, 0), Vec::new());
    let doc = lower_unit(doc, "ns", &unit, &Vec::new(), &Vec::new(), None,
        &Mangling::engine_default()).unwrap();
    let module = &doc.root.modules[0];
    assert_eq!(module.constants.len(), 1);
    assert_eq!(module.constants[0].name, Ident::Named("Foo".to_string()));
}

#[test]
fn comments_are_sanitized() {
    let lines = vec![
        "/// leading slashes  ".to_string(),
        " * starred line */".to_string(),
    ];
    assert_eq!(sanitize_comments(&lines).as_str(), "leading slashes\nstarred line\n");
}
