//! The documentation model: a normalized, engine-version-independent
//! description of the public surface of a tree of shader modules.
use vstd::prelude::*;
use vstd::string::*;

use crate::text::{bool_text, bool_str, dec_int, dec_nat, i32_to_string, i64_to_string,
    u32_to_string, u64_to_string};

verus! {

/// The name of a declaration; the engine cannot always name one
/// (anonymous struct members keep a placeholder slot).
#[derive(Debug, Clone, PartialEq, Eq, Hash)]
pub enum Ident {
    Named(String),
    Unnamed,
}

/// The textual form of an identifier: its name, or `unknown`.
pub open spec fn ident_text(i: &Ident) -> Seq<char> {
    match i {
        Ident::Named(name) => name@,
        Ident::Unnamed => "unknown"@,
    }
}

impl Ident {
    pub fn from_option(name: Option<String>) -> (r: Ident)
        ensures
            r == match name {
                Some(n) => Ident::Named(n),
                None => Ident::Unnamed,
            },
    {
        match name {
            Some(n) => Ident::Named(n),
            None => Ident::Unnamed,
        }
    }

    /// The identifier's display text.
    pub fn text(&self) -> (r: String)
        ensures
            r@ == ident_text(self),
    {
        match self {
            Ident::Named(name) => name.clone(),
            Ident::Unnamed => "unknown".to_owned(),
        }
    }
}

/// A conditional-compilation value the tree was compiled with.
#[derive(Debug, Clone, Copy, PartialEq, Eq)]
pub enum ShaderDefValue {
    Bool(bool),
    Int(i32),
    UInt(u32),
}

/// The textual form of a conditional-compilation value: booleans plain,
/// signed values with an `i` suffix, unsigned values with a `u` suffix.
pub open spec fn shader_def_value_text(v: ShaderDefValue) -> Seq<char> {
    match v {
        ShaderDefValue::Bool(b) => bool_text(b),
        ShaderDefValue::Int(n) => dec_int(n as int) + "i"@,
        ShaderDefValue::UInt(n) => dec_nat(n as nat) + "u"@,
    }
}

impl ShaderDefValue {
    /// The value's display text.
    pub fn text(&self) -> (r: String)
        ensures
            r@ == shader_def_value_text(*self),
    {
        match self {
            ShaderDefValue::Bool(b) => bool_str(*b).to_owned(),
            ShaderDefValue::Int(n) => {
                let mut s = i32_to_string(*n);
                s.append("i");
                s
            },
            ShaderDefValue::UInt(n) => {
                let mut s = u32_to_string(*n);
                s.append("u");
                s
            },
        }
    }
}

/// The address space of a global variable.
#[derive(Debug, Clone, Copy, PartialEq, Eq)]
pub enum AddressSpace {
    Function,
    Private,
    WorkGroup,
    Uniform,
    Storage { load: bool, store: bool },
    Handle,
    PushConstant,
}

/// The textual form of an address space, as written after a `var` keyword;
/// the handle space is never written.
pub open spec fn address_space_text(s: AddressSpace) -> Seq<char> {
    match s {
        AddressSpace::Function => "<function>"@,
        AddressSpace::Private => "<private>"@,
        AddressSpace::WorkGroup => "<workgroup>"@,
        AddressSpace::Uniform => "<uniform>"@,
        AddressSpace::Storage { load, store } => if store {
            "<storage, read_write>"@
        } else {
            "<storage>"@
        },
        AddressSpace::Handle => ""@,
        AddressSpace::PushConstant => "<push_constant>"@,
    }
}

impl AddressSpace {
    /// The address space's display text.
    pub fn text(&self) -> (r: String)
        ensures
            r@ == address_space_text(*self),
    {
        match self {
            AddressSpace::Function => "<function>".to_owned(),
            AddressSpace::Private => "<private>".to_owned(),
            AddressSpace::WorkGroup => "<workgroup>".to_owned(),
            AddressSpace::Uniform => "<uniform>".to_owned(),
            AddressSpace::Storage { load, store } => {
                if *store {
                    "<storage, read_write>".to_owned()
                } else {
                    "<storage>".to_owned()
                }
            },
            AddressSpace::Handle => "".to_owned(),
            AddressSpace::PushConstant => "<push_constant>".to_owned(),
        }
    }
}

/// A bind-group/binding pair attached to a global variable.
#[derive(Debug, Clone, Copy, PartialEq, Eq)]
pub struct ResourceBinding {
    pub group: u32,
    pub binding: u32,
}

/// A literal initializer value. Floating-point literals carry their
/// decimal rendering, produced where the compiled value is read.
#[derive(Debug, Clone, PartialEq)]
pub enum Literal {
    F64(String),
    F32(String),
    U32(u32),
    I32(i32),
    U64(u64),
    I64(i64),
    Bool(bool),
    AbstractInt(i64),
    AbstractFloat(String),
}

/// The textual form of a literal.
pub open spec fn literal_text(l: &Literal) -> Seq<char> {
    match l {
        Literal::F64(s) => s@,
        Literal::F32(s) => s@,
        Literal::U32(n) => dec_nat(*n as nat),
        Literal::I32(n) => dec_int(*n as int),
        Literal::U64(n) => dec_nat(*n as nat),
        Literal::I64(n) => dec_int(*n as int),
        Literal::Bool(b) => bool_text(*b),
        Literal::AbstractInt(n) => dec_int(*n as int),
        Literal::AbstractFloat(s) => s@,
    }
}

impl Literal {
    /// The literal's display text.
    pub fn text(&self) -> (r: String)
        ensures
            r@ == literal_text(self),
    {
        match self {
            Literal::F64(s) => s.clone(),
            Literal::F32(s) => s.clone(),
            Literal::U32(n) => u32_to_string(*n),
            Literal::I32(n) => i32_to_string(*n),
            Literal::U64(n) => u64_to_string(*n),
            Literal::I64(n) => i64_to_string(*n),
            Literal::Bool(b) => bool_str(*b).to_owned(),
            Literal::AbstractInt(n) => i64_to_string(*n),
            Literal::AbstractFloat(s) => s.clone(),
        }
    }
}

/// An initializer expression; only literals are carried through,
/// anything else is opaque.
#[derive(Debug, Clone, PartialEq)]
pub enum Expression {
    Literal(Literal),
    Unknown,
}

/// The textual form of an initializer expression.
pub open spec fn expression_text(e: &Expression) -> Seq<char> {
    match e {
        Expression::Literal(l) => literal_text(l),
        Expression::Unknown => ".."@,
    }
}

impl Expression {
    /// The expression's display text.
    pub fn text(&self) -> (r: String)
        ensures
            r@ == expression_text(self),
    {
        match self {
            Expression::Literal(l) => l.text(),
            Expression::Unknown => "..".to_owned(),
        }
    }
}

/// A canonical type reference.
#[derive(Debug, PartialEq)]
pub enum Type {
    Named { name: String, def_path: Option<Vec<String>> },
    Pointer(Box<Type>),
    PointerWithAddressSpace {
        base: Box<Type>,
        address_space: String,
        maybe_access: Option<String>,
    },
    ArrayConstant(Box<Type>, Option<u32>),
    ArrayDynamic(Box<Type>),
    BindingArrayConstant(Box<Type>, Option<u32>),
    BindingArrayDynamic(Box<Type>),
    Unnamed,
}

/// A built-in-variable tag on a binding.
#[derive(Debug, Clone, Copy, PartialEq, Eq)]
pub enum BuiltIn {
    Position { invariant: bool },
    ViewIndex,
    BaseInstance,
    BaseVertex,
    ClipDistance,
    CullDistance,
    InstanceIndex,
    PointSize,
    VertexIndex,
    FragDepth,
    PointCoord,
    FrontFacing,
    PrimitiveIndex,
    SampleIndex,
    SampleMask,
    GlobalInvocationId,
    LocalInvocationId,
    LocalInvocationIndex,
    WorkGroupId,
    WorkGroupSize,
    NumWorkGroups,
    NumSubgroups,
    SubgroupId,
    SubgroupSize,
    SubgroupInvocationId,
    DrawID,
}

/// An interpolation mode on a location binding.
#[derive(Debug, Clone, Copy, PartialEq, Eq)]
pub enum Interpolation {
    Perspective,
    Linear,
    Flat,
}

/// A sampling mode on a location binding.
#[derive(Debug, Clone, Copy, PartialEq, Eq)]
pub enum Sampling {
    Center,
    Centroid,
    Sample,
    First,
    Either,
}

/// A binding attribute on a function argument or struct member.
#[derive(Debug, Clone, PartialEq)]
pub enum Binding {
    BuiltIn(BuiltIn),
    Location {
        location: u32,
        second_blend_source: bool,
        interpolation: Option<Interpolation>,
        sampling: Option<Sampling>,
    },
}

/// A module-level constant.
#[derive(Debug, PartialEq)]
pub struct Constant {
    pub name: Ident,
    pub ty: Type,
    pub init: Expression,
    pub comment: Option<String>,
}

/// A module-level global variable.
#[derive(Debug, PartialEq)]
pub struct GlobalVariable {
    pub name: Ident,
    pub space: AddressSpace,
    pub binding: Option<ResourceBinding>,
    pub ty: Type,
    pub init: Option<Expression>,
    pub comment: Option<String>,
}

/// One member of a struct declaration.
#[derive(Debug, PartialEq)]
pub struct StructMember {
    pub name: Ident,
    pub ty: Type,
    pub binding: Option<Binding>,
    pub comment: Option<String>,
}

/// A struct declaration.
#[derive(Debug, PartialEq)]
pub struct Struct {
    pub name: Ident,
    pub members: Vec<StructMember>,
    pub comment: Option<String>,
}

/// One argument of a function signature.
#[derive(Debug, PartialEq)]
pub struct FunctionArgument {
    pub name: Ident,
    pub ty: Type,
    pub binding: Option<Binding>,
}

/// A function signature.
#[derive(Debug, PartialEq)]
pub struct Function {
    pub name: Ident,
    pub arguments: Vec<FunctionArgument>,
    pub ret: Option<Type>,
    pub comment: Option<String>,
}

/// One node of the namespace tree: its declarations, child modules,
/// and the conditional-compilation tokens referenced beneath it.
#[derive(Debug, PartialEq)]
pub struct Module {
    pub name: String,
    pub source_url: Option<String>,
    pub modules: Vec<Module>,
    pub constants: Vec<Constant>,
    pub global_variables: Vec<GlobalVariable>,
    pub structs: Vec<Struct>,
    pub functions: Vec<Function>,
    pub shader_defs: Vec<String>,
}

impl Module {
    /// An empty module of the given name.
    pub fn new(name: String) -> (m: Module)
        ensures
            m.name == name,
            m.source_url is None,
            m.modules@.len() == 0,
            m.constants@.len() == 0,
            m.global_variables@.len() == 0,
            m.structs@.len() == 0,
            m.functions@.len() == 0,
            m.shader_defs@.len() == 0,
    {
        Module {
            name,
            source_url: None,
            modules: Vec::new(),
            constants: Vec::new(),
            global_variables: Vec::new(),
            structs: Vec::new(),
            functions: Vec::new(),
            shader_defs: Vec::new(),
        }
    }
}

/// The crate version a documentation tree was built for.
#[derive(Debug, Clone, Copy, PartialEq, Eq, Structural)]
pub struct Version {
    pub major: u64,
    pub minor: u64,
    pub patch: u64,
}

impl Version {
    pub fn new(major: u64, minor: u64, patch: u64) -> (v: Version)
        ensures
            v.major == major && v.minor == minor && v.patch == patch,
    {
        Version { major, minor, patch }
    }

    /// `major.minor.patch`.
    pub fn text(&self) -> (r: String)
        ensures
            r@ == version_text(*self),
    {
        let mut s = u64_to_string(self.major);
        s.append(".");
        let minor = u64_to_string(self.minor);
        s.append(minor.as_str());
        s.append(".");
        let patch = u64_to_string(self.patch);
        s.append(patch.as_str());
        s
    }

    /// Whether `self` precedes or equals `other`, comparing
    /// major, then minor, then patch.
    pub fn le(&self, other: &Version) -> (r: bool)
        ensures
            r == version_le(*self, *other),
    {
        if self.major != other.major {
            self.major < other.major
        } else if self.minor != other.minor {
            self.minor < other.minor
        } else {
            self.patch <= other.patch
        }
    }
}

/// The textual form of a version.
pub open spec fn version_text(v: Version) -> Seq<char> {
    dec_nat(v.major as nat) + "."@ + dec_nat(v.minor as nat) + "."@ + dec_nat(v.patch as nat)
}

/// Version precedence: major, then minor, then patch.
pub open spec fn version_le(a: Version, b: Version) -> bool {
    if a.major != b.major {
        a.major < b.major
    } else if a.minor != b.minor {
        a.minor < b.minor
    } else {
        a.patch <= b.patch
    }
}

/// One conditional-compilation value supplied for a build, by token name.
#[derive(Debug, Clone, PartialEq)]
pub struct DefEntry {
    pub name: String,
    pub value: ShaderDefValue,
}

/// A completed documentation tree: the root module, the version it was
/// built for, and the conditional-compilation values supplied for the build.
#[derive(Debug, PartialEq)]
pub struct Doc {
    pub version: Version,
    pub root: Module,
    pub compiled_with: Vec<DefEntry>,
}

/// A fresh documentation tree: an empty root module named after the crate.
pub fn doc_new(
    root_crate_name: String,
    root_crate_version: Version,
    shader_def_values: Vec<DefEntry>,
) -> (doc: Doc)
    ensures
        doc.version == root_crate_version,
        doc.compiled_with == shader_def_values,
        doc.root.name == root_crate_name,
        doc.root.modules@.len() == 0,
        doc.root.constants@.len() == 0,
        doc.root.global_variables@.len() == 0,
        doc.root.structs@.len() == 0,
        doc.root.functions@.len() == 0,
        doc.root.shader_defs@.len() == 0,
        doc.root.source_url is None,
{
    Doc {
        version: root_crate_version,
        root: Module::new(root_crate_name),
        compiled_with: shader_def_values,
    }
}

} // verus!
