use shader_docs::ir::{ir_module_wf_check, IrAddressSpace, IrBinding, IrBuiltIn, IrConstant,
    IrExpression, IrFunction, IrFunctionArgument, IrGlobalVariable, IrImageClass,
    IrImageDimension, IrInterpolation, IrLiteral, IrModule, IrResourceBinding, IrSampling,
    IrScalar, IrScalarKind, IrStorageAccess, IrStorageFormat, IrStructMember, IrType,
    IrTypeInner, IrVectorSize};
use shader_docs::lower::{lower_unit, Mangling};
use shader_docs::model::{Ident, Type, Version, doc_new};
use shader_docs::post::post_process;
use shader_docs::resolve::{compose_all, Shader, ShaderSource};
use shader_docs::ImportDeclaration;

fn convert_scalar(s: naga::Scalar) -> IrScalar {
    IrScalar {
        kind: match s.kind {
            naga::ScalarKind::Sint => IrScalarKind::Sint,
            naga::ScalarKind::Uint => IrScalarKind::Uint,
            naga::ScalarKind::Float => IrScalarKind::Float,
            naga::ScalarKind::Bool => IrScalarKind::Bool,
            naga::ScalarKind::AbstractInt => IrScalarKind::AbstractInt,
            naga::ScalarKind::AbstractFloat => IrScalarKind::AbstractFloat,
        },
        width: s.width,
    }
}

fn convert_size(s: naga::VectorSize) -> IrVectorSize {
    match s {
        naga::VectorSize::Bi => IrVectorSize::Bi,
        naga::VectorSize::Tri => IrVectorSize::Tri,
        naga::VectorSize::Quad => IrVectorSize::Quad,
    }
}

fn convert_space(s: naga::AddressSpace) -> IrAddressSpace {
    match s {
        naga::AddressSpace::Function => IrAddressSpace::Function,
        naga::AddressSpace::Private => IrAddressSpace::Private,
        naga::AddressSpace::WorkGroup => IrAddressSpace::WorkGroup,
        naga::AddressSpace::Uniform => IrAddressSpace::Uniform,
        naga::AddressSpace::Storage { access } => IrAddressSpace::Storage {
            load: access.contains(naga::StorageAccess::LOAD),
            store: access.contains(naga::StorageAccess::STORE),
        },
        naga::AddressSpace::Handle => IrAddressSpace::Handle,
        naga::AddressSpace::PushConstant => IrAddressSpace::PushConstant,
    }
}

fn convert_builtin(b: naga::BuiltIn) -> IrBuiltIn {
    match b {
        naga::BuiltIn::Position { invariant } => IrBuiltIn::Position { invariant },
        naga::BuiltIn::ViewIndex => IrBuiltIn::ViewIndex,
        naga::BuiltIn::BaseInstance => IrBuiltIn::BaseInstance,
        naga::BuiltIn::BaseVertex => IrBuiltIn::BaseVertex,
        naga::BuiltIn::ClipDistance => IrBuiltIn::ClipDistance,
        naga::BuiltIn::CullDistance => IrBuiltIn::CullDistance,
        naga::BuiltIn::InstanceIndex => IrBuiltIn::InstanceIndex,
        naga::BuiltIn::PointSize => IrBuiltIn::PointSize,
        naga::BuiltIn::VertexIndex => IrBuiltIn::VertexIndex,
        naga::BuiltIn::FragDepth => IrBuiltIn::FragDepth,
        naga::BuiltIn::PointCoord => IrBuiltIn::PointCoord,
        naga::BuiltIn::FrontFacing => IrBuiltIn::FrontFacing,
        naga::BuiltIn::PrimitiveIndex => IrBuiltIn::PrimitiveIndex,
        naga::BuiltIn::SampleIndex => IrBuiltIn::SampleIndex,
        naga::BuiltIn::SampleMask => IrBuiltIn::SampleMask,
        naga::BuiltIn::GlobalInvocationId => IrBuiltIn::GlobalInvocationId,
        naga::BuiltIn::LocalInvocationId => IrBuiltIn::LocalInvocationId,
        naga::BuiltIn::LocalInvocationIndex => IrBuiltIn::LocalInvocationIndex,
        naga::BuiltIn::WorkGroupId => IrBuiltIn::WorkGroupId,
        naga::BuiltIn::WorkGroupSize => IrBuiltIn::WorkGroupSize,
        naga::BuiltIn::NumWorkGroups => IrBuiltIn::NumWorkGroups,
        naga::BuiltIn::NumSubgroups => IrBuiltIn::NumSubgroups,
        naga::BuiltIn::SubgroupId => IrBuiltIn::SubgroupId,
        naga::BuiltIn::SubgroupSize => IrBuiltIn::SubgroupSize,
        naga::BuiltIn::SubgroupInvocationId => IrBuiltIn::SubgroupInvocationId,
    }
}

fn convert_binding(b: &naga::Binding) -> IrBinding {
    match b {
        naga::Binding::BuiltIn(bi) => IrBinding::BuiltIn(convert_builtin(*bi)),
        naga::Binding::Location { location, second_blend_source, interpolation, sampling } =>
            IrBinding::Location {
                location: *location,
                second_blend_source: *second_blend_source,
                interpolation: interpolation.map(|i| match i {
                    naga::Interpolation::Perspective => IrInterpolation::Perspective,
                    naga::Interpolation::Linear => IrInterpolation::Linear,
                    naga::Interpolation::Flat => IrInterpolation::Flat,
                }),
                sampling: sampling.map(|s| match s {
                    naga::Sampling::Center => IrSampling::Center,
                    naga::Sampling::Centroid => IrSampling::Centroid,
                    naga::Sampling::Sample => IrSampling::Sample,
                }),
            },
    }
}

fn convert_array_size(s: naga::ArraySize) -> Option<u32> {
    match s {
        naga::ArraySize::Constant(n) => Some(n.get()),
        naga::ArraySize::Dynamic => None,
    }
}

fn convert_format(f: naga::StorageFormat) -> IrStorageFormat {
    match f {
        naga::StorageFormat::Rgba8Unorm => IrStorageFormat::Rgba8Unorm,
        naga::StorageFormat::R32Float => IrStorageFormat::R32Float,
        _ => IrStorageFormat::R8Unorm,
    }
}

fn convert_inner(inner: &naga::TypeInner) -> IrTypeInner {
    match inner {
        naga::TypeInner::Scalar(s) => IrTypeInner::Scalar(convert_scalar(*s)),
        naga::TypeInner::Vector { size, scalar } => IrTypeInner::Vector {
            size: convert_size(*size),
            scalar: convert_scalar(*scalar),
        },
        naga::TypeInner::Matrix { columns, rows, scalar } => IrTypeInner::Matrix {
            columns: convert_size(*columns),
            rows: convert_size(*rows),
            scalar: convert_scalar(*scalar),
        },
        naga::TypeInner::Atomic(s) => IrTypeInner::Atomic(convert_scalar(*s)),
        naga::TypeInner::Pointer { base, space } => IrTypeInner::Pointer {
            base: base.index(),
            space: convert_space(*space),
        },
        naga::TypeInner::ValuePointer { size, scalar, space } => IrTypeInner::ValuePointer {
            size: size.map(convert_size),
            scalar: convert_scalar(*scalar),
            space: convert_space(*space),
        },
        naga::TypeInner::Array { base, size, .. } => IrTypeInner::Array {
            base: base.index(),
            size: convert_array_size(*size),
        },
        naga::TypeInner::BindingArray { base, size } => IrTypeInner::BindingArray {
            base: base.index(),
            size: convert_array_size(*size),
        },
        naga::TypeInner::Struct { members, .. } => IrTypeInner::Struct {
            members: members
                .iter()
                .map(|m| IrStructMember {
                    name: m.name.clone(),
                    ty: m.ty.index(),
                    binding: m.binding.as_ref().map(convert_binding),
                    comment: None,
                })
                .collect(),
        },
        naga::TypeInner::Image { dim, arrayed, class } => IrTypeInner::Image {
            dim: match dim {
                naga::ImageDimension::D1 => IrImageDimension::D1,
                naga::ImageDimension::D2 => IrImageDimension::D2,
                naga::ImageDimension::D3 => IrImageDimension::D3,
                naga::ImageDimension::Cube => IrImageDimension::Cube,
            },
            arrayed: *arrayed,
            class: match class {
                naga::ImageClass::Sampled { kind, multi } => IrImageClass::Sampled {
                    kind: convert_scalar(naga::Scalar { kind: *kind, width: 4 }).kind,
                    multi: *multi,
                },
                naga::ImageClass::Depth { multi } => IrImageClass::Depth { multi: *multi },
                naga::ImageClass::Storage { format, access } => IrImageClass::Storage {
                    format: convert_format(*format),
                    access: IrStorageAccess {
                        load: access.contains(naga::StorageAccess::LOAD),
                        store: access.contains(naga::StorageAccess::STORE),
                    },
                },
            },
        },
        naga::TypeInner::Sampler { comparison } => IrTypeInner::Sampler { comparison: *comparison },
        naga::TypeInner::AccelerationStructure => IrTypeInner::AccelerationStructure,
        naga::TypeInner::RayQuery => IrTypeInner::RayQuery,
    }
}

fn convert_expression(module: &naga::Module, h: naga::Handle<naga::Expression>) -> IrExpression {
    match &module.global_expressions[h] {
        naga::Expression::Literal(l) => IrExpression::Literal(match *l {
            naga::Literal::F64(v) => IrLiteral::F64(format!("{}", v)),
            naga::Literal::F32(v) => IrLiteral::F32(format!("{}", v)),
            naga::Literal::U32(v) => IrLiteral::U32(v),
            naga::Literal::I32(v) => IrLiteral::I32(v),
            naga::Literal::U64(v) => IrLiteral::U64(v),
            naga::Literal::I64(v) => IrLiteral::I64(v),
            naga::Literal::Bool(v) => IrLiteral::Bool(v),
            naga::Literal::AbstractInt(v) => IrLiteral::AbstractInt(v),
            naga::Literal::AbstractFloat(v) => IrLiteral::AbstractFloat(format!("{}", v)),
        }),
        _ => IrExpression::Unknown,
    }
}

fn convert_module(module: &naga::Module) -> IrModule {
    IrModule {
        types: module
            .types
            .iter()
            .map(|(_, t)| IrType { name: t.name.clone(), inner: convert_inner(&t.inner) })
            .collect(),
        constants: module
            .constants
            .iter()
            .map(|(_, c)| IrConstant {
                name: c.name.clone(),
                ty: c.ty.index(),
                init: convert_expression(module, c.init),
                comment: None,
            })
            .collect(),
        global_variables: module
            .global_variables
            .iter()
            .map(|(_, v)| IrGlobalVariable {
                name: v.name.clone(),
                space: convert_space(v.space),
                binding: v.binding.as_ref().map(|b| IrResourceBinding {
                    group: b.group,
                    binding: b.binding,
                }),
                ty: v.ty.index(),
                init: v.init.map(|h| convert_expression(module, h)),
                comment: None,
            })
            .collect(),
        functions: module
            .functions
            .iter()
            .map(|(_, f)| IrFunction {
                name: f.name.clone(),
                arguments: f
                    .arguments
                    .iter()
                    .map(|a| IrFunctionArgument {
                        name: a.name.clone(),
                        ty: a.ty.index(),
                        binding: a.binding.as_ref().map(convert_binding),
                    })
                    .collect(),
                ret: f.result.as_ref().map(|r| r.ty.index()),
                comment: None,
            })
            .collect(),
    }
}

#[test]
fn two_units_compose_lower_and_sort() {
    let src_a = "#define_import_path foo::a\nstruct S { x: f32, }\n";
    let src_b =
        "#define_import_path foo::b\n#import foo::a::S\nfn f(s: S) -> f32 { return s.x; }\n";
    let units = vec![
        Shader {
            name: Some("foo::b".to_string()),
            source: ShaderSource {
                path: "b.wgsl".to_string(),
                source: src_b.to_string(),
                shader_defs: Vec::new(),
                docsrs_url: String::new(),
            },
            imports: vec![ImportDeclaration {
                import: "foo::a".to_string(),
                items: vec!["S".to_string()],
            }],
            defines: Vec::new(),
        },
        Shader {
            name: Some("foo::a".to_string()),
            source: ShaderSource {
                path: "a.wgsl".to_string(),
                source: src_a.to_string(),
                shader_defs: Vec::new(),
                docsrs_url: String::new(),
            },
            imports: Vec::new(),
            defines: Vec::new(),
        },
    ];
    let (mut composer, order) = compose_all(&units).expect("composition must succeed");
    assert_eq!(order.len(), 2);

    let mangling = Mangling::engine_default();
    let mut doc = doc_new("root".to_string(), Version::new(1, 0, 0), Vec::new());
    for unit in &units {
        let naga_module = composer
            .make_naga_module(naga_oil::compose::NagaModuleDescriptor {
                source: unit.source.source.as_str(),
                file_path: unit.source.path.as_str(),
                ..Default::default()
            })
            .expect("the engine must compile each unit");
        let ir = convert_module(&naga_module);
        assert!(ir_module_wf_check(&ir));
        doc = lower_unit(
            doc,
            unit.name.as_ref().unwrap().as_str(),
            &ir,
            &unit.imports,
            &unit.source.shader_defs,
            None,
            &mangling,
        )
        .expect("lowering must succeed");
    }
    let doc = post_process(doc);

    assert_eq!(doc.root.modules.len(), 1);
    let foo = &doc.root.modules[0];
    assert_eq!(foo.name.as_str(), "foo");
    assert_eq!(foo.modules.len(), 2);
    // sorting places `a` before `b`
    let a = &foo.modules[0];
    let b = &foo.modules[1];
    assert_eq!(a.name.as_str(), "a");
    assert_eq!(b.name.as_str(), "b");

    // unit a: struct S with member x of the named type f32
    let s = a.structs.iter().find(|s| s.name == Ident::Named("S".to_string()))
        .expect("struct S must be documented in foo::a");
    assert_eq!(s.members.len(), 1);
    assert_eq!(s.members[0].name, Ident::Named("x".to_string()));
    match &s.members[0].ty {
        Type::Named { name, .. } => assert_eq!(name.as_str(), "f32"),
        other => panic!("unexpected member type: {:?}", other),
    }

    // unit b: function f whose argument refers back to foo::a::S
    let f = b.functions.iter().find(|f| f.name == Ident::Named("f".to_string()))
        .expect("function f must be documented in foo::b");
    assert_eq!(f.arguments.len(), 1);
    assert_eq!(f.arguments[0].name, Ident::Named("s".to_string()));
    match &f.arguments[0].ty {
        Type::Named { name, def_path } => {
            assert_eq!(name.as_str(), "S");
            assert_eq!(
                def_path.as_ref().expect("the argument must resolve to its defining module"),
                &vec!["foo".to_string(), "a".to_string()]
            );
        },
        other => panic!("unexpected argument type: {:?}", other),
    }
    match &f.ret {
        Some(Type::Named { name, .. }) => assert_eq!(name.as_str(), "f32"),
        other => panic!("unexpected return type: {:?}", other),
    }

    // the mangled re-export of S inside unit b never reaches the tree
    assert!(b.structs.iter().all(|st| st.name != Ident::Named("S".to_string())));
}

#[test]
fn tokens_flow_from_source_into_the_tree() {
    let src = "#define_import_path bar::leaf\n#ifdef EXTRA\nfn g() -> f32 { return 2.0; }\n#endif\nfn h() -> f32 { return 1.0; }\n";
    let unit = Shader {
        name: Some("bar::leaf".to_string()),
        source: ShaderSource {
            path: "leaf.wgsl".to_string(),
            source: src.to_string(),
            shader_defs: shader_docs::scan::find_defs(src),
            docsrs_url: String::new(),
        },
        imports: Vec::new(),
        defines: Vec::new(),
    };
    let units = vec![unit];
    let (mut composer, _order) = compose_all(&units).expect("composition must succeed");

    let naga_module = composer
        .make_naga_module(naga_oil::compose::NagaModuleDescriptor {
            source: units[0].source.source.as_str(),
            file_path: units[0].source.path.as_str(),
            ..Default::default()
        })
        .expect("the engine must compile the unit");
    let ir = convert_module(&naga_module);
    assert!(ir_module_wf_check(&ir));

    let doc = doc_new(
        "root".to_string(),
        Version::new(1, 0, 0),
        vec![
            shader_docs::model::DefEntry {
                name: "EXTRA".to_string(),
                value: shader_docs::model::ShaderDefValue::Bool(true),
            },
            shader_docs::model::DefEntry {
                name: "NEVER_SEEN".to_string(),
                value: shader_docs::model::ShaderDefValue::Bool(true),
            },
        ],
    );
    let doc = lower_unit(
        doc,
        "bar::leaf",
        &ir,
        &units[0].imports,
        &units[0].source.shader_defs,
        None,
        &Mangling::engine_default(),
    )
    .expect("lowering must succeed");
    let doc = post_process(doc);

    // the leaf's token climbs to every ancestor
    let bar = &doc.root.modules[0];
    let leaf = &bar.modules[0];
    assert!(leaf.shader_defs.iter().any(|t| t == "EXTRA"));
    assert!(bar.shader_defs.iter().any(|t| t == "EXTRA"));
    assert!(doc.root.shader_defs.iter().any(|t| t == "EXTRA"));

    // a supplied value nothing references is reported, a used one is not
    let unused = shader_docs::gen::unused_defs(&doc);
    let unused: Vec<&str> = unused.iter().map(|s| s.as_str()).collect();
    assert_eq!(unused, vec!["NEVER_SEEN"]);
}
