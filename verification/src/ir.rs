//! The compiled intermediate representation of one fully resolved shader
//! unit, as plain values: a type table addressed by indices, and the
//! constants, global variables and function signatures declared by the unit.
//! The external engine's compiled module is converted into this form before
//! lowering; the type table keeps the engine's invariant that a type only
//! refers to types stored before it.
use vstd::prelude::*;

verus! {

/// The kind of a scalar type.
#[derive(Debug, Clone, Copy, PartialEq, Eq, Structural)]
pub enum IrScalarKind {
    Sint,
    Uint,
    Float,
    Bool,
    AbstractInt,
    AbstractFloat,
}

/// A scalar type: its kind and width in bytes.
#[derive(Debug, Clone, Copy, PartialEq, Eq, Structural)]
pub struct IrScalar {
    pub kind: IrScalarKind,
    pub width: u8,
}

/// The number of rows or columns of a vector or matrix.
#[derive(Debug, Clone, Copy, PartialEq, Eq, Structural)]
pub enum IrVectorSize {
    Bi,
    Tri,
    Quad,
}

/// The dimensionality of a texture.
#[derive(Debug, Clone, Copy, PartialEq, Eq, Structural)]
pub enum IrImageDimension {
    D1,
    D2,
    D3,
    Cube,
}

/// One of the storage texel formats.
#[derive(Debug, Clone, Copy, PartialEq, Eq, Structural)]
pub enum IrStorageFormat {
    R8Unorm,
    R8Snorm,
    R8Uint,
    R8Sint,
    R16Uint,
    R16Sint,
    R16Float,
    Rg8Unorm,
    Rg8Snorm,
    Rg8Uint,
    Rg8Sint,
    R32Uint,
    R32Sint,
    R32Float,
    Rg16Uint,
    Rg16Sint,
    Rg16Float,
    Rgba8Unorm,
    Rgba8Snorm,
    Rgba8Uint,
    Rgba8Sint,
    Bgra8Unorm,
    Rgb10a2Uint,
    Rgb10a2Unorm,
    Rg11b10Ufloat,
    Rg32Uint,
    Rg32Sint,
    Rg32Float,
    Rgba16Uint,
    Rgba16Sint,
    Rgba16Float,
    Rgba32Uint,
    Rgba32Sint,
    Rgba32Float,
    R16Unorm,
    R16Snorm,
    Rg16Unorm,
    Rg16Snorm,
    Rgba16Unorm,
    Rgba16Snorm,
}

/// Which accesses a storage resource allows.
#[derive(Debug, Clone, Copy, PartialEq, Eq, Structural)]
pub struct IrStorageAccess {
    pub load: bool,
    pub store: bool,
}

/// The class of a texture type.
#[derive(Debug, Clone, Copy, PartialEq, Eq, Structural)]
pub enum IrImageClass {
    Sampled { kind: IrScalarKind, multi: bool },
    Depth { multi: bool },
    Storage { format: IrStorageFormat, access: IrStorageAccess },
}

/// The address space of a global variable or pointer.
#[derive(Debug, Clone, Copy, PartialEq, Eq, Structural)]
pub enum IrAddressSpace {
    Function,
    Private,
    WorkGroup,
    Uniform,
    Storage { load: bool, store: bool },
    Handle,
    PushConstant,
}

/// A built-in-variable tag.
#[derive(Debug, Clone, Copy, PartialEq, Eq, Structural)]
pub enum IrBuiltIn {
    Position { invariant: bool },
    ViewIndex,
    BaseInstance,
    BaseVertex,
    ClipDistance,
    CullDistance,
    InstanceIndex,
    PointSize,
    VertexIndex,
    FragDepth,
    PointCoord,
    FrontFacing,
    PrimitiveIndex,
    SampleIndex,
    SampleMask,
    GlobalInvocationId,
    LocalInvocationId,
    LocalInvocationIndex,
    WorkGroupId,
    WorkGroupSize,
    NumWorkGroups,
    NumSubgroups,
    SubgroupId,
    SubgroupSize,
    SubgroupInvocationId,
    DrawID,
}

/// An interpolation mode.
#[derive(Debug, Clone, Copy, PartialEq, Eq, Structural)]
pub enum IrInterpolation {
    Perspective,
    Linear,
    Flat,
}

/// A sampling mode.
#[derive(Debug, Clone, Copy, PartialEq, Eq, Structural)]
pub enum IrSampling {
    Center,
    Centroid,
    Sample,
    First,
    Either,
}

/// A binding attribute on an argument or struct member.
#[derive(Debug, Clone, Copy, PartialEq, Eq, Structural)]
pub enum IrBinding {
    BuiltIn(IrBuiltIn),
    Location {
        location: u32,
        second_blend_source: bool,
        interpolation: Option<IrInterpolation>,
        sampling: Option<IrSampling>,
    },
}

/// A bind-group/binding pair.
#[derive(Debug, Clone, Copy, PartialEq, Eq, Structural)]
pub struct IrResourceBinding {
    pub group: u32,
    pub binding: u32,
}

/// A literal value; floating-point literals carry their decimal rendering.
#[derive(Debug, Clone, PartialEq)]
pub enum IrLiteral {
    F64(String),
    F32(String),
    U32(u32),
    I32(i32),
    U64(u64),
    I64(i64),
    Bool(bool),
    AbstractInt(i64),
    AbstractFloat(String),
}

/// An initializer expression: a literal, or anything else.
#[derive(Debug, Clone, PartialEq)]
pub enum IrExpression {
    Literal(IrLiteral),
    Unknown,
}

/// One member of a struct type.
#[derive(Debug, PartialEq)]
pub struct IrStructMember {
    pub name: Option<String>,
    pub ty: usize,
    pub binding: Option<IrBinding>,
    pub comment: Option<Vec<String>>,
}

/// The shape of one entry of the type table. Type references are indices
/// into the same table.
#[derive(Debug, PartialEq)]
pub enum IrTypeInner {
    Scalar(IrScalar),
    Vector { size: IrVectorSize, scalar: IrScalar },
    Matrix { columns: IrVectorSize, rows: IrVectorSize, scalar: IrScalar },
    Atomic(IrScalar),
    Pointer { base: usize, space: IrAddressSpace },
    ValuePointer { size: Option<IrVectorSize>, scalar: IrScalar, space: IrAddressSpace },
    Array { base: usize, size: Option<u32> },
    BindingArray { base: usize, size: Option<u32> },
    Struct { members: Vec<IrStructMember> },
    Image { dim: IrImageDimension, arrayed: bool, class: IrImageClass },
    Sampler { comparison: bool },
    AccelerationStructure,
    RayQuery,
}

/// One entry of the type table.
#[derive(Debug, PartialEq)]
pub struct IrType {
    pub name: Option<String>,
    pub inner: IrTypeInner,
}

/// A constant declaration.
#[derive(Debug, PartialEq)]
pub struct IrConstant {
    pub name: Option<String>,
    pub ty: usize,
    pub init: IrExpression,
    pub comment: Option<Vec<String>>,
}

/// A global-variable declaration.
#[derive(Debug, PartialEq)]
pub struct IrGlobalVariable {
    pub name: Option<String>,
    pub space: IrAddressSpace,
    pub binding: Option<IrResourceBinding>,
    pub ty: usize,
    pub init: Option<IrExpression>,
    pub comment: Option<Vec<String>>,
}

/// One argument of a function.
#[derive(Debug, PartialEq)]
pub struct IrFunctionArgument {
    pub name: Option<String>,
    pub ty: usize,
    pub binding: Option<IrBinding>,
}

/// A function declaration.
#[derive(Debug, PartialEq)]
pub struct IrFunction {
    pub name: Option<String>,
    pub arguments: Vec<IrFunctionArgument>,
    pub ret: Option<usize>,
    pub comment: Option<Vec<String>>,
}

/// The compiled module of one unit.
#[derive(Debug, PartialEq)]
pub struct IrModule {
    pub types: Vec<IrType>,
    pub constants: Vec<IrConstant>,
    pub global_variables: Vec<IrGlobalVariable>,
    pub functions: Vec<IrFunction>,
}

/// The references a type-table entry makes all point backwards: strictly
/// below the entry's own index.
pub open spec fn ir_type_refs_below(inner: IrTypeInner, bound: int) -> bool {
    match inner {
        IrTypeInner::Pointer { base, .. } => base < bound,
        IrTypeInner::Array { base, .. } => base < bound,
        IrTypeInner::BindingArray { base, .. } => base < bound,
        IrTypeInner::Struct { members } => forall|k: int|
            0 <= k < members@.len() ==> (#[trigger] members@[k]).ty < bound,
        _ => true,
    }
}

/// A well-formed type table: every reference points to an earlier entry.
pub open spec fn ir_types_wf(types: Seq<IrType>) -> bool {
    forall|i: int| 0 <= i < types.len() ==> ir_type_refs_below((#[trigger] types[i]).inner, i)
}

/// A well-formed module: a well-formed type table, and every declaration's
/// type reference within it.
pub open spec fn ir_module_wf(m: &IrModule) -> bool {
    &&& ir_types_wf(m.types@)
    &&& forall|i: int|
        0 <= i < m.constants@.len() ==> (#[trigger] m.constants@[i]).ty < m.types@.len()
    &&& forall|i: int|
        0 <= i < m.global_variables@.len() ==> (#[trigger] m.global_variables@[i]).ty
            < m.types@.len()
    &&& forall|i: int, k: int|
        0 <= i < m.functions@.len() && 0 <= k < m.functions@[i].arguments@.len() ==> (
        #[trigger] m.functions@[i].arguments@[k]).ty < m.types@.len()
    &&& forall|i: int|
        0 <= i < m.functions@.len() ==> match (#[trigger] m.functions@[i]).ret {
            Some(t) => t < m.types@.len(),
            None => true,
        }
}

#[verifier::loop_isolation(false)]
fn check_inner_refs(inner: &IrTypeInner, bound: usize) -> (r: bool)
    ensures
        r == ir_type_refs_below(*inner, bound as int),
{
    match inner {
        IrTypeInner::Pointer { base, .. } => *base < bound,
        IrTypeInner::Array { base, .. } => *base < bound,
        IrTypeInner::BindingArray { base, .. } => *base < bound,
        IrTypeInner::Struct { members } => {
            let mut k: usize = 0;
            while k != members.len()
                invariant
                    k <= members@.len(),
                    forall|t: int| 0 <= t < k ==> (#[trigger] members@[t]).ty < bound,
                decreases members@.len() - k,
            {
                if members[k].ty >= bound {
                    proof {
                        let kk = k as int;
                        assert(!((#[trigger] members@[kk]).ty < bound as int));
                    }
                    return false;
                }
                k = k + 1;
            }
            true
        },
        _ => true,
    }
}

/// Decide whether a module is well formed; lowering requires it.
#[verifier::loop_isolation(false)]
pub fn ir_module_wf_check(m: &IrModule) -> (r: bool)
    ensures
        r == ir_module_wf(m),
{
    let nt = m.types.len();
    let mut i: usize = 0;
    while i != m.types.len()
        invariant
            i <= m.types@.len(),
            nt == m.types@.len(),
            forall|t: int| 0 <= t < i ==> ir_type_refs_below((#[trigger] m.types@[t]).inner, t),
        decreases m.types@.len() - i,
    {
        if !check_inner_refs(&m.types[i].inner, i) {
            return false;
        }
        i = i + 1;
    }
    let mut i: usize = 0;
    while i != m.constants.len()
        invariant
            i <= m.constants@.len(),
            nt == m.types@.len(),
            forall|t: int| 0 <= t < i ==> (#[trigger] m.constants@[t]).ty < nt,
        decreases m.constants@.len() - i,
    {
        if m.constants[i].ty >= nt {
            return false;
        }
        i = i + 1;
    }
    let mut i: usize = 0;
    while i != m.global_variables.len()
        invariant
            i <= m.global_variables@.len(),
            nt == m.types@.len(),
            forall|t: int| 0 <= t < i ==> (#[trigger] m.global_variables@[t]).ty < nt,
        decreases m.global_variables@.len() - i,
    {
        if m.global_variables[i].ty >= nt {
            return false;
        }
        i = i + 1;
    }
    let mut i: usize = 0;
    while i != m.functions.len()
        invariant
            i <= m.functions@.len(),
            nt == m.types@.len(),
            forall|t: int, k: int|
                0 <= t < i && 0 <= k < m.functions@[t].arguments@.len() ==> (
                #[trigger] m.functions@[t].arguments@[k]).ty < nt,
            forall|t: int|
                0 <= t < i ==> match (#[trigger] m.functions@[t]).ret {
                    Some(h) => h < nt,
                    None => true,
                },
        decreases m.functions@.len() - i,
    {
        let f = &m.functions[i];
        let mut k: usize = 0;
        while k != f.arguments.len()
            invariant
                k <= f.arguments@.len(),
                nt == m.types@.len(),
                f == &m.functions@[i as int],
                i < m.functions@.len(),
                forall|t: int| 0 <= t < k ==> (#[trigger] f.arguments@[t]).ty < nt,
            decreases f.arguments@.len() - k,
        {
            if f.arguments[k].ty >= nt {
                return false;
            }
            k = k + 1;
        }
        if let Some(h) = f.ret {
            if h >= nt {
                return false;
            }
        }
        i = i + 1;
    }
    true
}

} // verus!
