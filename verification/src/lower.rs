//! Lowering of the compiled representation into the canonical documentation
//! model: name demangling, the type rendering table, and the translation of
//! declarations into a module's payload.
use vstd::prelude::*;
use vstd::string::*;

use crate::ir::{ir_type_refs_below, IrAddressSpace, IrBinding, IrBuiltIn, IrConstant, IrExpression, IrFunction,
    IrFunctionArgument, IrGlobalVariable, IrImageClass, IrImageDimension, IrInterpolation,
    IrLiteral, IrModule, IrResourceBinding, IrSampling, IrScalar, IrScalarKind, IrStorageAccess,
    IrStorageFormat, IrStructMember, IrType, IrTypeInner, IrVectorSize, ir_module_wf, ir_types_wf};
use crate::model::{AddressSpace, Binding, BuiltIn, Doc, Expression, Interpolation, Literal,
    ResourceBinding, Sampling, Type};
use crate::tree::UnitPayload;
use crate::scan::{exec_lit_at, lit_at};
use crate::text::{str_eq, u32_to_string};

verus! {

/// The engine's name-decoration markers: a start marker inserted into
/// names the engine synthesizes for cross-module inlining, and a
/// terminator appended at the very end of such names. Configuration of
/// the lowering step, not ambient state.
pub struct Mangling {
    pub pre: String,
    pub post: String,
}

impl Mangling {
    /// The marker pair the engine uses.
    pub fn engine_default() -> (m: Mangling)
        ensures
            m.pre@ == "X_naga_oil_mod_X"@,
            m.post@ == "X"@,
    {
        Mangling { pre: "X_naga_oil_mod_X".to_owned(), post: "X".to_owned() }
    }
}

/// The first position where `lit` occurs in `s`, or -1.
pub open spec fn find_lit(s: Seq<char>, lit: Seq<char>) -> int
    decreases s.len(),
{
    if lit_at(s, 0, lit) {
        0
    } else if s.len() == 0 {
        -1
    } else {
        let r = find_lit(s.skip(1), lit);
        if r < 0 {
            -1
        } else {
            r + 1
        }
    }
}

/// Whether `s` ends with `lit`.
pub open spec fn ends_with(s: Seq<char>, lit: Seq<char>) -> bool {
    s.len() >= lit.len() && lit_at(s, s.len() - lit.len(), lit)
}

/// Whether a name carries the start marker anywhere: such a declaration
/// is an engine-internal re-export artifact, not a declaration of the
/// unit under its own name.
pub open spec fn is_marked(name: Seq<char>, pre: Seq<char>) -> bool {
    find_lit(name, pre) >= 0
}

/// The demangled form of a name: when the start marker occurs and the
/// name ends with the terminator, the name truncated where the marker
/// starts; otherwise the name itself. A name that merely contains the
/// marker without the terminator is kept verbatim.
pub open spec fn demangled(name: Seq<char>, pre: Seq<char>, post: Seq<char>) -> Seq<char> {
    let p = find_lit(name, pre);
    if p >= 0 && ends_with(name, post) {
        name.take(p)
    } else {
        name
    }
}

proof fn lemma_find_lit_none(s: Seq<char>, lit: Seq<char>)
    requires
        forall|i: int| !lit_at(s, i, lit),
    ensures
        find_lit(s, lit) == -1,
    decreases s.len(),
{
    assert(!lit_at(s, 0, lit));
    if s.len() > 0 {
        assert forall|i: int| !lit_at(s.skip(1), i, lit) by {
            if lit_at(s.skip(1), i, lit) {
                assert(s.skip(1).subrange(i, i + lit.len()) =~= s.subrange(
                    i + 1,
                    i + 1 + lit.len(),
                ));
                assert(lit_at(s, i + 1, lit));
            }
        }
        lemma_find_lit_none(s.skip(1), lit);
    }
}

proof fn lemma_find_lit_at(s: Seq<char>, lit: Seq<char>, k: int)
    requires
        lit_at(s, k, lit),
        forall|i: int| 0 <= i < k ==> !lit_at(s, i, lit),
    ensures
        find_lit(s, lit) == k,
    decreases s.len(),
{
    if k == 0 {
    } else {
        assert(!lit_at(s, 0, lit));
        assert(s.len() > 0);
        assert(lit_at(s.skip(1), k - 1, lit)) by {
            assert(s.skip(1).subrange(k - 1, k - 1 + lit.len()) =~= s.subrange(k, k + lit.len()));
        }
        assert forall|i: int| 0 <= i < k - 1 implies !lit_at(s.skip(1), i, lit) by {
            if lit_at(s.skip(1), i, lit) {
                assert(s.skip(1).subrange(i, i + lit.len()) =~= s.subrange(
                    i + 1,
                    i + 1 + lit.len(),
                ));
                assert(lit_at(s, i + 1, lit));
            }
        }
        lemma_find_lit_at(s.skip(1), lit, k - 1);
    }
}

/// The position of the first occurrence of `lit` in `s`, if any.
pub fn exec_find_lit(s: &str, lit: &str) -> (r: Option<usize>)
    ensures
        match r {
            Some(i) => find_lit(s@, lit@) == i as int && i <= s@.len(),
            None => find_lit(s@, lit@) == -1,
        },
{
    let n = s.unicode_len();
    let mut i: usize = 0;
    loop
        invariant
            i <= n,
            n == s@.len(),
            forall|j: int| 0 <= j < i ==> !lit_at(s@, j, lit@),
        decreases n - i,
    {
        if exec_lit_at(s, i, lit) {
            proof {
                lemma_find_lit_at(s@, lit@, i as int);
            }
            return Some(i);
        }
        if i == n {
            proof {
                assert forall|j: int| !lit_at(s@, j, lit@) by {
                    if lit_at(s@, j, lit@) {
                        if j < i {
                        } else {
                            assert(j + lit@.len() > s@.len() || j >= i);
                            assert(!lit_at(s@, j, lit@) || j >= i && j + lit@.len() <= s@.len());
                            assert(lit@.len() == 0 ==> lit_at(s@, i as int, lit@));
                        }
                    }
                }
                lemma_find_lit_none(s@, lit@);
            }
            return None;
        }
        i = i + 1;
    }
}

/// Whether `s` ends with `lit`.
pub fn exec_ends_with(s: &str, lit: &str) -> (r: bool)
    ensures
        r == ends_with(s@, lit@),
{
    let n = s.unicode_len();
    let m = lit.unicode_len();
    if m > n {
        return false;
    }
    exec_lit_at(s, n - m, lit)
}

/// Whether the optional name carries the engine's start marker: a
/// declaration with such a name is skipped by the lowering step.
pub fn contains_pre(name: Option<&str>, mangling: &Mangling) -> (r: bool)
    ensures
        r == match name {
            Some(n) => is_marked(n@, mangling.pre@),
            None => false,
        },
{
    match name {
        Some(n) => exec_find_lit(n, mangling.pre.as_str()).is_some(),
        None => false,
    }
}

/// Demangle one name.
pub fn demangle(name: &str, mangling: &Mangling) -> (r: String)
    ensures
        r@ == demangled(name@, mangling.pre@, mangling.post@),
{
    match exec_find_lit(name, mangling.pre.as_str()) {
        Some(p) => {
            if exec_ends_with(name, mangling.post.as_str()) {
                name.substring_char(0, p).to_owned()
            } else {
                name.to_owned()
            }
        },
        None => name.to_owned(),
    }
}

/// A lowering failure: the compiled representation held a shape outside
/// the rendering table, a defect reported rather than guessed around.
#[derive(Debug, Clone, Copy, PartialEq, Eq, Structural)]
pub enum LowerError {
    UnsupportedScalar { kind: IrScalarKind, width: u8 },
}

/// The ghost image of a canonical type, names as character sequences.
pub ghost enum TyV {
    Named { name: Seq<char>, def_path: Option<Seq<Seq<char>>> },
    Pointer(Box<TyV>),
    PointerWithAddressSpace {
        base: Box<TyV>,
        address_space: Seq<char>,
        maybe_access: Option<Seq<char>>,
    },
    ArrayConstant(Box<TyV>, Option<u32>),
    ArrayDynamic(Box<TyV>),
    BindingArrayConstant(Box<TyV>, Option<u32>),
    BindingArrayDynamic(Box<TyV>),
    Unnamed,
}

/// The ghost image of a type.
pub open spec fn ty_view(t: Type) -> TyV
    decreases t,
{
    match t {
        Type::Named { name, def_path } => TyV::Named {
            name: name@,
            def_path: match def_path {
                Some(p) => Some(p.deep_view()),
                None => None,
            },
        },
        Type::Pointer(b) => TyV::Pointer(Box::new(ty_view(*b))),
        Type::PointerWithAddressSpace { base, address_space, maybe_access } => TyV::PointerWithAddressSpace {
            base: Box::new(ty_view(*base)),
            address_space: address_space@,
            maybe_access: match maybe_access {
                Some(a) => Some(a@),
                None => None,
            },
        },
        Type::ArrayConstant(b, n) => TyV::ArrayConstant(Box::new(ty_view(*b)), n),
        Type::ArrayDynamic(b) => TyV::ArrayDynamic(Box::new(ty_view(*b))),
        Type::BindingArrayConstant(b, n) => TyV::BindingArrayConstant(Box::new(ty_view(*b)), n),
        Type::BindingArrayDynamic(b) => TyV::BindingArrayDynamic(Box::new(ty_view(*b))),
        Type::Unnamed => TyV::Unnamed,
    }
}

/// One name-to-namespace entry consulted when a type reference is
/// resolved to its defining module.
#[derive(Debug, PartialEq)]
pub struct DefPathEntry {
    pub name: String,
    pub path: Vec<String>,
}

/// The name-to-namespace map built before declarations are lowered:
/// imported item names point to the imported-from namespace, and the
/// unit's own struct types point to the unit's namespace. A later entry
/// for the same name shadows an earlier one.
#[derive(Debug, PartialEq)]
pub struct DefPathMap {
    pub entries: Vec<DefPathEntry>,
}

/// The ghost image of the map.
pub open spec fn dp_view(m: DefPathMap) -> Seq<(Seq<char>, Seq<Seq<char>>)> {
    m.entries@.map_values(|e: DefPathEntry| (e.name@, e.path.deep_view()))
}

/// The namespace path a name resolves to: the last entry with that name.
pub open spec fn dp_lookup(es: Seq<(Seq<char>, Seq<Seq<char>>)>, key: Seq<char>) -> Option<
    Seq<Seq<char>>,
>
    decreases es.len(),
{
    if es.len() == 0 {
        None
    } else if es.last().0 == key {
        Some(es.last().1)
    } else {
        dp_lookup(es.drop_last(), key)
    }
}

fn clone_string_vec(v: &Vec<String>) -> (r: Vec<String>)
    ensures
        r@ == v@,
{
    let mut r: Vec<String> = Vec::new();
    let mut i: usize = 0;
    while i != v.len()
        invariant
            i <= v@.len(),
            r@ =~= v@.take(i as int),
        decreases v@.len() - i,
    {
        r.push(v[i].clone());
        proof {
            assert(r@ =~= v@.take(i + 1));
        }
        i = i + 1;
    }
    proof {
        assert(v@.take(v@.len() as int) =~= v@);
    }
    r
}

impl DefPathMap {
    /// An empty map.
    pub fn new() -> (m: DefPathMap)
        ensures
            dp_view(m) =~= Seq::<(Seq<char>, Seq<Seq<char>>)>::empty(),
    {
        DefPathMap { entries: Vec::new() }
    }

    /// Bind a name to a namespace path, shadowing earlier entries.
    pub fn insert(&mut self, name: String, path: Vec<String>)
        ensures
            dp_view(*final(self)) =~= dp_view(*old(self)).push((name@, path.deep_view())),
    {
        self.entries.push(DefPathEntry { name, path });
    }

    /// The namespace path a name resolves to, if it was bound.
    pub fn lookup(&self, key: &str) -> (r: Option<Vec<String>>)
        ensures
            match r {
                Some(p) => dp_lookup(dp_view(*self), key@) == Some(p.deep_view()),
                None => dp_lookup(dp_view(*self), key@) is None,
            },
    {
        let mut i: usize = self.entries.len();
        proof {
            assert(dp_view(*self).take(self.entries@.len() as int) =~= dp_view(*self));
        }
        loop
            invariant
                i <= self.entries@.len(),
                dp_lookup(dp_view(*self), key@) == dp_lookup(
                    dp_view(*self).take(i as int),
                    key@,
                ),
            decreases i,
        {
            proof {
                assert(dp_view(*self).take(i as int).len() == i as int);
            }
            if i == 0 {
                return None;
            }
            i = i - 1;
            if str_eq(self.entries[i].name.as_str(), key) {
                let p = clone_string_vec(&self.entries[i].path);
                proof {
                    let es = dp_view(*self).take(i + 1);
                    assert(es.last() == dp_view(*self)[i as int]);
                    assert(dp_view(*self)[i as int].0 == key@);
                    assert(dp_lookup(es, key@) == Some(dp_view(*self)[i as int].1));
                    assert(p.deep_view() =~= self.entries@[i as int].path.deep_view());
                }
                return Some(p);
            }
            proof {
                let es = dp_view(*self).take(i + 1);
                assert(es.last() == dp_view(*self)[i as int]);
                assert(es.last().0 != key@);
                assert(es.drop_last() =~= dp_view(*self).take(i as int));
            }
        }
    }
}


/// The scalar rendering table: the seven valid kind-and-width
/// combinations and their canonical tokens. Anything else is an
/// internal-consistency error.
pub open spec fn scalar_token(s: IrScalar) -> Option<Seq<char>> {
    match (s.kind, s.width) {
        (IrScalarKind::Float, 8u8) => Some("f64"@),
        (IrScalarKind::Float, 4u8) => Some("f32"@),
        (IrScalarKind::Sint, 4u8) => Some("i32"@),
        (IrScalarKind::Uint, 4u8) => Some("u32"@),
        (IrScalarKind::Sint, 8u8) => Some("i64"@),
        (IrScalarKind::Uint, 8u8) => Some("u64"@),
        (IrScalarKind::Bool, 1u8) => Some("bool"@),
        _ => None,
    }
}

/// The canonical token of a scalar type, or the internal-consistency
/// error for a combination outside the table.
pub fn scalar_kind_str(s: IrScalar) -> (r: Result<&'static str, LowerError>)
    ensures
        match r {
            Ok(t) => scalar_token(s) == Some(t@),
            Err(e) => scalar_token(s) is None && e == (LowerError::UnsupportedScalar {
                kind: s.kind,
                width: s.width,
            }),
        },
{
    match (s.kind, s.width) {
        (IrScalarKind::Float, 8u8) => Ok("f64"),
        (IrScalarKind::Float, 4u8) => Ok("f32"),
        (IrScalarKind::Sint, 4u8) => Ok("i32"),
        (IrScalarKind::Uint, 4u8) => Ok("u32"),
        (IrScalarKind::Sint, 8u8) => Ok("i64"),
        (IrScalarKind::Uint, 8u8) => Ok("u64"),
        (IrScalarKind::Bool, 1u8) => Ok("bool"),
        _ => Err(LowerError::UnsupportedScalar { kind: s.kind, width: s.width }),
    }
}

/// The digit a vector or matrix dimension renders as.
pub open spec fn vector_size_token(v: IrVectorSize) -> Seq<char> {
    match v {
        IrVectorSize::Bi => "2"@,
        IrVectorSize::Tri => "3"@,
        IrVectorSize::Quad => "4"@,
    }
}

pub fn vector_size_str(v: IrVectorSize) -> (r: &'static str)
    ensures
        r@ == vector_size_token(v),
{
    match v {
        IrVectorSize::Bi => "2",
        IrVectorSize::Tri => "3",
        IrVectorSize::Quad => "4",
    }
}

/// The token of a texture dimensionality.
pub open spec fn image_dimension_token(d: IrImageDimension) -> Seq<char> {
    match d {
        IrImageDimension::D1 => "1d"@,
        IrImageDimension::D2 => "2d"@,
        IrImageDimension::D3 => "3d"@,
        IrImageDimension::Cube => "cube"@,
    }
}

pub fn image_dimension_str(d: IrImageDimension) -> (r: &'static str)
    ensures
        r@ == image_dimension_token(d),
{
    match d {
        IrImageDimension::D1 => "1d",
        IrImageDimension::D2 => "2d",
        IrImageDimension::D3 => "3d",
        IrImageDimension::Cube => "cube",
    }
}

/// The token of a storage texel format.
pub open spec fn storage_format_token(f: IrStorageFormat) -> Seq<char> {
    match f {
        IrStorageFormat::R8Unorm => "r8unorm"@,
        IrStorageFormat::R8Snorm => "r8snorm"@,
        IrStorageFormat::R8Uint => "r8uint"@,
        IrStorageFormat::R8Sint => "r8sint"@,
        IrStorageFormat::R16Uint => "r16uint"@,
        IrStorageFormat::R16Sint => "r16sint"@,
        IrStorageFormat::R16Float => "r16float"@,
        IrStorageFormat::Rg8Unorm => "rg8unorm"@,
        IrStorageFormat::Rg8Snorm => "rg8snorm"@,
        IrStorageFormat::Rg8Uint => "rg8uint"@,
        IrStorageFormat::Rg8Sint => "rg8sint"@,
        IrStorageFormat::R32Uint => "r32uint"@,
        IrStorageFormat::R32Sint => "r32sint"@,
        IrStorageFormat::R32Float => "r32float"@,
        IrStorageFormat::Rg16Uint => "rg16uint"@,
        IrStorageFormat::Rg16Sint => "rg16sint"@,
        IrStorageFormat::Rg16Float => "rg16float"@,
        IrStorageFormat::Rgba8Unorm => "rgba8unorm"@,
        IrStorageFormat::Rgba8Snorm => "rgba8snorm"@,
        IrStorageFormat::Rgba8Uint => "rgba8uint"@,
        IrStorageFormat::Rgba8Sint => "rgba8sint"@,
        IrStorageFormat::Bgra8Unorm => "bgra8unorm"@,
        IrStorageFormat::Rgb10a2Uint => "rgb10a2uint"@,
        IrStorageFormat::Rgb10a2Unorm => "rgb10a2unorm"@,
        IrStorageFormat::Rg11b10Ufloat => "rg11b10float"@,
        IrStorageFormat::Rg32Uint => "rg32uint"@,
        IrStorageFormat::Rg32Sint => "rg32sint"@,
        IrStorageFormat::Rg32Float => "rg32float"@,
        IrStorageFormat::Rgba16Uint => "rgba16uint"@,
        IrStorageFormat::Rgba16Sint => "rgba16sint"@,
        IrStorageFormat::Rgba16Float => "rgba16float"@,
        IrStorageFormat::Rgba32Uint => "rgba32uint"@,
        IrStorageFormat::Rgba32Sint => "rgba32sint"@,
        IrStorageFormat::Rgba32Float => "rgba32float"@,
        IrStorageFormat::R16Unorm => "r16unorm"@,
        IrStorageFormat::R16Snorm => "r16snorm"@,
        IrStorageFormat::Rg16Unorm => "rg16unorm"@,
        IrStorageFormat::Rg16Snorm => "rg16snorm"@,
        IrStorageFormat::Rgba16Unorm => "rgba16unorm"@,
        IrStorageFormat::Rgba16Snorm => "rgba16snorm"@,
    }
}

pub fn storage_format_str(f: IrStorageFormat) -> (r: &'static str)
    ensures
        r@ == storage_format_token(f),
{
    match f {
        IrStorageFormat::R8Unorm => "r8unorm",
        IrStorageFormat::R8Snorm => "r8snorm",
        IrStorageFormat::R8Uint => "r8uint",
        IrStorageFormat::R8Sint => "r8sint",
        IrStorageFormat::R16Uint => "r16uint",
        IrStorageFormat::R16Sint => "r16sint",
        IrStorageFormat::R16Float => "r16float",
        IrStorageFormat::Rg8Unorm => "rg8unorm",
        IrStorageFormat::Rg8Snorm => "rg8snorm",
        IrStorageFormat::Rg8Uint => "rg8uint",
        IrStorageFormat::Rg8Sint => "rg8sint",
        IrStorageFormat::R32Uint => "r32uint",
        IrStorageFormat::R32Sint => "r32sint",
        IrStorageFormat::R32Float => "r32float",
        IrStorageFormat::Rg16Uint => "rg16uint",
        IrStorageFormat::Rg16Sint => "rg16sint",
        IrStorageFormat::Rg16Float => "rg16float",
        IrStorageFormat::Rgba8Unorm => "rgba8unorm",
        IrStorageFormat::Rgba8Snorm => "rgba8snorm",
        IrStorageFormat::Rgba8Uint => "rgba8uint",
        IrStorageFormat::Rgba8Sint => "rgba8sint",
        IrStorageFormat::Bgra8Unorm => "bgra8unorm",
        IrStorageFormat::Rgb10a2Uint => "rgb10a2uint",
        IrStorageFormat::Rgb10a2Unorm => "rgb10a2unorm",
        IrStorageFormat::Rg11b10Ufloat => "rg11b10float",
        IrStorageFormat::Rg32Uint => "rg32uint",
        IrStorageFormat::Rg32Sint => "rg32sint",
        IrStorageFormat::Rg32Float => "rg32float",
        IrStorageFormat::Rgba16Uint => "rgba16uint",
        IrStorageFormat::Rgba16Sint => "rgba16sint",
        IrStorageFormat::Rgba16Float => "rgba16float",
        IrStorageFormat::Rgba32Uint => "rgba32uint",
        IrStorageFormat::Rgba32Sint => "rgba32sint",
        IrStorageFormat::Rgba32Float => "rgba32float",
        IrStorageFormat::R16Unorm => "r16unorm",
        IrStorageFormat::R16Snorm => "r16snorm",
        IrStorageFormat::Rg16Unorm => "rg16unorm",
        IrStorageFormat::Rg16Snorm => "rg16snorm",
        IrStorageFormat::Rgba16Unorm => "rgba16unorm",
        IrStorageFormat::Rgba16Snorm => "rgba16snorm",
    }
}

/// The access suffix of a storage texture.
pub open spec fn storage_access_token(a: IrStorageAccess) -> Seq<char> {
    if a.load && a.store {
        ",read_write"@
    } else if a.load {
        ",read"@
    } else {
        ",write"@
    }
}

/// The written pointer qualifier of an address space, with its optional
/// access qualifier. The handle space has no written qualifier at all:
/// a pointer into it renders as its base type alone.
pub open spec fn space_qualifier(space: IrAddressSpace) -> Option<(Seq<char>, Option<Seq<char>>)> {
    match space {
        IrAddressSpace::Function => Some(("function"@, None)),
        IrAddressSpace::Private => Some(("private"@, None)),
        IrAddressSpace::WorkGroup => Some(("workgroup"@, None)),
        IrAddressSpace::Uniform => Some(("uniform"@, None)),
        IrAddressSpace::Storage { load, store } => if store {
            Some(("storage"@, Some("read_write"@)))
        } else {
            Some(("storage"@, None))
        },
        IrAddressSpace::Handle => None,
        IrAddressSpace::PushConstant => Some(("push_constant"@, None)),
    }
}

/// The written pointer qualifier of an address space.
pub fn address_space_str(space: &IrAddressSpace) -> (r: (
    Option<&'static str>,
    Option<&'static str>,
))
    ensures
        match space_qualifier(*space) {
            Some(q) => r.0 matches Some(a) && a@ == q.0 && match (r.1, q.1) {
                (Some(x), Some(y)) => x@ == y,
                (None, None) => true,
                _ => false,
            },
            None => r.0 is None && r.1 is None,
        },
{
    match space {
        IrAddressSpace::Function => (Some("function"), None),
        IrAddressSpace::Private => (Some("private"), None),
        IrAddressSpace::WorkGroup => (Some("workgroup"), None),
        IrAddressSpace::Uniform => (Some("uniform"), None),
        IrAddressSpace::Storage { load, store } => {
            if *store {
                (Some("storage"), Some("read_write"))
            } else {
                (Some("storage"), None)
            }
        },
        IrAddressSpace::Handle => (None, None),
        IrAddressSpace::PushConstant => (Some("push_constant"), None),
    }
}

/// The canonical name of a vector type.
pub open spec fn vector_name(size: IrVectorSize, tok: Seq<char>) -> Seq<char> {
    "vec"@ + vector_size_token(size) + "<"@ + tok + ">"@
}

/// The canonical name of a matrix type.
pub open spec fn matrix_name(c: IrVectorSize, r: IrVectorSize, tok: Seq<char>) -> Seq<char> {
    "mat"@ + vector_size_token(c) + "x"@ + vector_size_token(r) + "<"@ + tok + ">"@
}

/// The canonical name of a texture type.
pub open spec fn image_name(
    dim: IrImageDimension,
    arrayed: bool,
    class: IrImageClass,
) -> Option<Seq<char>> {
    let arr: Seq<char> = if arrayed {
        "_array"@
    } else {
        ""@
    };
    match class {
        IrImageClass::Sampled { kind, multi } => {
            match scalar_token(IrScalar { kind, width: 4u8 }) {
                Some(tok) => Some(
                    "texture_"@ + (if multi {
                        "multisampled_"@
                    } else {
                        ""@
                    }) + image_dimension_token(dim) + arr + "<"@ + tok + ">"@,
                ),
                None => None,
            }
        },
        IrImageClass::Depth { multi } => Some(
            "texture_depth_"@ + (if multi {
                "multisampled_"@
            } else {
                ""@
            }) + image_dimension_token(dim) + arr,
        ),
        IrImageClass::Storage { format, access } => Some(
            "texture_storage_"@ + image_dimension_token(dim) + arr + "<"@ + storage_format_token(
                format,
            ) + storage_access_token(access) + ">"@,
        ),
    }
}

/// A type reference under a name: the name resolved against the map.
pub open spec fn named_ty(n: Seq<char>, dp: Seq<(Seq<char>, Seq<Seq<char>>)>) -> TyV {
    TyV::Named { name: n, def_path: dp_lookup(dp, n) }
}

/// The canonical type of one type-table entry: the rendering table of
/// the lowering step. `None` is the internal-consistency failure, a
/// scalar combination outside the table.
pub open spec fn spec_lower_ty(
    types: Seq<IrType>,
    handle: int,
    dp: Seq<(Seq<char>, Seq<Seq<char>>)>,
    pre: Seq<char>,
    post: Seq<char>,
) -> Option<TyV>
    decreases handle, 1int,
{
    if !(0 <= handle < types.len()) {
        None
    } else {
        match types[handle].name {
            Some(name) => Some(named_ty(demangled(name@, pre, post), dp)),
            None => spec_lower_inner(types, handle, dp, pre, post),
        }
    }
}

/// The canonical type of an unnamed type-table entry, by its shape.
pub open spec fn spec_lower_inner(
    types: Seq<IrType>,
    handle: int,
    dp: Seq<(Seq<char>, Seq<Seq<char>>)>,
    pre: Seq<char>,
    post: Seq<char>,
) -> Option<TyV>
    decreases handle, 0int,
{
    if !(0 <= handle < types.len()) {
        None
    } else {
        match types[handle].inner {
            IrTypeInner::Scalar(s) => match scalar_token(s) {
                Some(tok) => Some(named_ty(tok, dp)),
                None => None,
            },
            IrTypeInner::Vector { size, scalar } => match scalar_token(scalar) {
                Some(tok) => Some(named_ty(vector_name(size, tok), dp)),
                None => None,
            },
            IrTypeInner::Matrix { columns, rows, scalar } => match scalar_token(scalar) {
                Some(tok) => Some(named_ty(matrix_name(columns, rows, tok), dp)),
                None => None,
            },
            IrTypeInner::Atomic(s) => match scalar_token(s) {
                Some(tok) => Some(named_ty("atomic<"@ + tok + ">"@, dp)),
                None => None,
            },
            IrTypeInner::Sampler { comparison } => if comparison {
                Some(named_ty("sampler_comparison"@, dp))
            } else {
                Some(named_ty("sampler"@, dp))
            },
            IrTypeInner::Image { dim, arrayed, class } => match image_name(dim, arrayed, class) {
                Some(n) => Some(named_ty(n, dp)),
                None => None,
            },
            IrTypeInner::Array { base, size } => if base < handle {
                match spec_lower_ty(types, base as int, dp, pre, post) {
                    Some(b) => match size {
                        Some(n) => Some(TyV::ArrayConstant(Box::new(b), Some(n))),
                        None => Some(TyV::ArrayDynamic(Box::new(b))),
                    },
                    None => None,
                }
            } else {
                None
            },
            IrTypeInner::BindingArray { base, size } => if base < handle {
                match spec_lower_ty(types, base as int, dp, pre, post) {
                    Some(b) => match size {
                        Some(n) => Some(TyV::BindingArrayConstant(Box::new(b), Some(n))),
                        None => Some(TyV::BindingArrayDynamic(Box::new(b))),
                    },
                    None => None,
                }
            } else {
                None
            },
            IrTypeInner::Pointer { base, space } => if base < handle {
                match spec_lower_ty(types, base as int, dp, pre, post) {
                    Some(b) => match space_qualifier(space) {
                        Some(q) => Some(
                            TyV::PointerWithAddressSpace {
                                base: Box::new(b),
                                address_space: q.0,
                                maybe_access: q.1,
                            },
                        ),
                        None => Some(b),
                    },
                    None => None,
                }
            } else {
                None
            },
            IrTypeInner::ValuePointer { size, scalar, space } => match scalar_token(scalar) {
                Some(tok) => {
                    let base = TyV::Named {
                        name: match size {
                            Some(sz) => vector_name(sz, tok),
                            None => tok,
                        },
                        def_path: None,
                    };
                    match space_qualifier(space) {
                        Some(q) => Some(
                            TyV::PointerWithAddressSpace {
                                base: Box::new(base),
                                address_space: q.0,
                                maybe_access: q.1,
                            },
                        ),
                        None => Some(base),
                    }
                },
                None => None,
            },
            IrTypeInner::AccelerationStructure => Some(named_ty("acceleration_structure"@, dp)),
            IrTypeInner::Struct { .. } => Some(named_ty("struct"@, dp)),
            IrTypeInner::RayQuery => Some(named_ty("ray_query"@, dp)),
        }
    }
}


/// Lower one type-table entry into a canonical type: a named entry is
/// demangled and resolved against the map, an unnamed one is rendered
/// from its shape.
pub fn build_ty(
    types: &Vec<IrType>,
    handle: usize,
    dp: &DefPathMap,
    mangling: &Mangling,
) -> (r: Result<Type, LowerError>)
    requires
        ir_types_wf(types@),
        handle < types@.len(),
    ensures
        match r {
            Ok(t) => spec_lower_ty(types@, handle as int, dp_view(*dp), mangling.pre@,
                mangling.post@) == Some(ty_view(t)),
            Err(_) => spec_lower_ty(types@, handle as int, dp_view(*dp), mangling.pre@,
                mangling.post@) is None,
        },
    decreases handle, 1int,
{
    match &types[handle].name {
        Some(name) => {
            let n = demangle(name.as_str(), mangling);
            let def_path = dp.lookup(n.as_str());
            let t = Type::Named { name: n, def_path };
            proof {
                assert(ty_view(t) =~~= named_ty(demangled(name@, mangling.pre@, mangling.post@),
                    dp_view(*dp)));
            }
            Ok(t)
        },
        None => build_ty_inner(types, handle, dp, mangling),
    }
}

fn named_of(n: String, dp: &DefPathMap) -> (t: Type)
    ensures
        ty_view(t) == named_ty(n@, dp_view(*dp)),
{
    let def_path = dp.lookup(n.as_str());
    let t = Type::Named { name: n, def_path };
    proof {
        assert(ty_view(t) =~~= named_ty(t->Named_name@, dp_view(*dp)));
    }
    t
}

/// Render an unnamed type-table entry by its shape.
pub fn build_ty_inner(
    types: &Vec<IrType>,
    handle: usize,
    dp: &DefPathMap,
    mangling: &Mangling,
) -> (r: Result<Type, LowerError>)
    requires
        ir_types_wf(types@),
        handle < types@.len(),
    ensures
        match r {
            Ok(t) => spec_lower_inner(types@, handle as int, dp_view(*dp), mangling.pre@,
                mangling.post@) == Some(ty_view(t)),
            Err(_) => spec_lower_inner(types@, handle as int, dp_view(*dp), mangling.pre@,
                mangling.post@) is None,
        },
    decreases handle, 0int,
{
    match &types[handle].inner {
        IrTypeInner::Scalar(s) => {
            let tok = scalar_kind_str(*s)?;
            Ok(named_of(tok.to_owned(), dp))
        },
        IrTypeInner::Vector { size, scalar } => {
            let tok = scalar_kind_str(*scalar)?;
            let mut n = "vec".to_owned();
            n.append(vector_size_str(*size));
            n.append("<");
            n.append(tok);
            n.append(">");
            proof {
                assert(n@ =~= vector_name(*size, tok@));
            }
            Ok(named_of(n, dp))
        },
        IrTypeInner::Matrix { columns, rows, scalar } => {
            let tok = scalar_kind_str(*scalar)?;
            let mut n = "mat".to_owned();
            n.append(vector_size_str(*columns));
            n.append("x");
            n.append(vector_size_str(*rows));
            n.append("<");
            n.append(tok);
            n.append(">");
            proof {
                assert(n@ =~= matrix_name(*columns, *rows, tok@));
            }
            Ok(named_of(n, dp))
        },
        IrTypeInner::Atomic(s) => {
            let tok = scalar_kind_str(*s)?;
            let mut n = "atomic<".to_owned();
            n.append(tok);
            n.append(">");
            proof {
                assert(n@ =~= "atomic<"@ + tok@ + ">"@);
            }
            Ok(named_of(n, dp))
        },
        IrTypeInner::Sampler { comparison } => {
            if *comparison {
                Ok(named_of("sampler_comparison".to_owned(), dp))
            } else {
                Ok(named_of("sampler".to_owned(), dp))
            }
        },
        IrTypeInner::Image { dim, arrayed, class } => {
            let arr: &'static str = if *arrayed {
                "_array"
            } else {
                ""
            };
            match class {
                IrImageClass::Sampled { kind, multi } => {
                    let tok = scalar_kind_str(IrScalar { kind: *kind, width: 4u8 })?;
                    let ms: &'static str = if *multi {
                        "multisampled_"
                    } else {
                        ""
                    };
                    let mut n = "texture_".to_owned();
                    n.append(ms);
                    n.append(image_dimension_str(*dim));
                    n.append(arr);
                    n.append("<");
                    n.append(tok);
                    n.append(">");
                    proof {
                        match image_name(*dim, *arrayed, *class) {
                            Some(e) => {
                                assert(n@ =~= e);
                            },
                            None => {
                                assert(false);
                            },
                        }
                    }
                    Ok(named_of(n, dp))
                },
                IrImageClass::Depth { multi } => {
                    let ms: &'static str = if *multi {
                        "multisampled_"
                    } else {
                        ""
                    };
                    let mut n = "texture_depth_".to_owned();
                    n.append(ms);
                    n.append(image_dimension_str(*dim));
                    n.append(arr);
                    proof {
                        match image_name(*dim, *arrayed, *class) {
                            Some(e) => {
                                assert(n@ =~= e);
                            },
                            None => {
                                assert(false);
                            },
                        }
                    }
                    Ok(named_of(n, dp))
                },
                IrImageClass::Storage { format, access } => {
                    let mut n = "texture_storage_".to_owned();
                    n.append(image_dimension_str(*dim));
                    n.append(arr);
                    n.append("<");
                    n.append(storage_format_str(*format));
                    if access.load && access.store {
                        n.append(",read_write");
                    } else if access.load {
                        n.append(",read");
                    } else {
                        n.append(",write");
                    }
                    n.append(">");
                    proof {
                        match image_name(*dim, *arrayed, *class) {
                            Some(e) => {
                                assert(n@ =~= e);
                            },
                            None => {
                                assert(false);
                            },
                        }
                    }
                    Ok(named_of(n, dp))
                },
            }
        },
        IrTypeInner::Array { base, size } => {
            proof {
                assert(ir_type_refs_below(types@[handle as int].inner, handle as int));
            }
            let b = build_ty(types, *base, dp, mangling)?;
            match size {
                Some(nn) => Ok(Type::ArrayConstant(Box::new(b), Some(*nn))),
                None => Ok(Type::ArrayDynamic(Box::new(b))),
            }
        },
        IrTypeInner::BindingArray { base, size } => {
            proof {
                assert(ir_type_refs_below(types@[handle as int].inner, handle as int));
            }
            let b = build_ty(types, *base, dp, mangling)?;
            match size {
                Some(nn) => Ok(Type::BindingArrayConstant(Box::new(b), Some(*nn))),
                None => Ok(Type::BindingArrayDynamic(Box::new(b))),
            }
        },
        IrTypeInner::Pointer { base, space } => {
            proof {
                assert(ir_type_refs_below(types@[handle as int].inner, handle as int));
            }
            let b = build_ty(types, *base, dp, mangling)?;
            proof {
                assert(spec_lower_ty(types@, *base as int, dp_view(*dp), mangling.pre@,
                    mangling.post@) == Some(ty_view(b)));
            }
            let (addr, acc) = address_space_str(space);
            match addr {
                Some(a) => {
                    let t = Type::PointerWithAddressSpace {
                        base: Box::new(b),
                        address_space: a.to_owned(),
                        maybe_access: match acc {
                            Some(x) => Some(x.to_owned()),
                            None => None,
                        },
                    };
                    proof {
                        assert(space_qualifier(*space) is Some);
                        assert(ty_view(t) is PointerWithAddressSpace);
                        assert(spec_lower_inner(types@, handle as int, dp_view(*dp),
                            mangling.pre@, mangling.post@) == Some(ty_view(t)));
                    }
                    Ok(t)
                },
                None => Ok(b),
            }
        },
        IrTypeInner::ValuePointer { size, scalar, space } => {
            let tok = scalar_kind_str(*scalar)?;
            let n: String = match size {
                Some(sz) => {
                    let mut n = "vec".to_owned();
                    n.append(vector_size_str(*sz));
                    n.append("<");
                    n.append(tok);
                    n.append(">");
                    proof {
                        assert(n@ =~= vector_name(*sz, tok@));
                    }
                    n
                },
                None => tok.to_owned(),
            };
            let b = Type::Named { name: n, def_path: None };
            let (addr, acc) = address_space_str(space);
            match addr {
                Some(a) => {
                    let t = Type::PointerWithAddressSpace {
                        base: Box::new(b),
                        address_space: a.to_owned(),
                        maybe_access: match acc {
                            Some(x) => Some(x.to_owned()),
                            None => None,
                        },
                    };
                    proof {
                        assert(space_qualifier(*space) is Some);
                        assert(ty_view(t) is PointerWithAddressSpace);
                        assert(types@[handle as int].inner is ValuePointer);
                        let sv = types@[handle as int].inner->ValuePointer_size;
                        let cv = types@[handle as int].inner->ValuePointer_scalar;
                        assert(sv == *size);
                        assert(cv == *scalar);
                        assert(scalar_token(cv) == Some(tok@));
                        assert(ty_view(t)->PointerWithAddressSpace_base == Box::new(ty_view(b)));
                        assert(ty_view(b) is Named);
                        assert(ty_view(b)->Named_def_path is None);
                        match sv {
                            Some(szz) => {
                                assert(ty_view(b)->Named_name == vector_name(szz, tok@));
                            },
                            None => {
                                assert(ty_view(b)->Named_name == tok@);
                            },
                        }
                        assert(spec_lower_inner(types@, handle as int, dp_view(*dp),
                            mangling.pre@, mangling.post@) == Some(ty_view(t)));
                    }
                    Ok(t)
                },
                None => Ok(b),
            }
        },
        IrTypeInner::AccelerationStructure => Ok(named_of("acceleration_structure".to_owned(), dp)),
        IrTypeInner::Struct { .. } => Ok(named_of("struct".to_owned(), dp)),
        IrTypeInner::RayQuery => Ok(named_of("ray_query".to_owned(), dp)),
    }
}


/// The model expression an initializer lowers to.
pub open spec fn lower_expr(e: IrExpression) -> Expression {
    match e {
        IrExpression::Literal(l) => Expression::Literal(
            match l {
                IrLiteral::F64(s) => Literal::F64(s),
                IrLiteral::F32(s) => Literal::F32(s),
                IrLiteral::U32(v) => Literal::U32(v),
                IrLiteral::I32(v) => Literal::I32(v),
                IrLiteral::U64(v) => Literal::U64(v),
                IrLiteral::I64(v) => Literal::I64(v),
                IrLiteral::Bool(v) => Literal::Bool(v),
                IrLiteral::AbstractInt(v) => Literal::AbstractInt(v),
                IrLiteral::AbstractFloat(s) => Literal::AbstractFloat(s),
            },
        ),
        IrExpression::Unknown => Expression::Unknown,
    }
}

/// Lower an initializer expression: literals are carried over, anything
/// else is opaque.
pub fn build_expression(e: &IrExpression) -> (r: Expression)
    ensures
        r == lower_expr(*e),
{
    match e {
        IrExpression::Literal(l) => Expression::Literal(
            match l {
                IrLiteral::F64(s) => Literal::F64(s.clone()),
                IrLiteral::F32(s) => Literal::F32(s.clone()),
                IrLiteral::U32(v) => Literal::U32(*v),
                IrLiteral::I32(v) => Literal::I32(*v),
                IrLiteral::U64(v) => Literal::U64(*v),
                IrLiteral::I64(v) => Literal::I64(*v),
                IrLiteral::Bool(v) => Literal::Bool(*v),
                IrLiteral::AbstractInt(v) => Literal::AbstractInt(*v),
                IrLiteral::AbstractFloat(s) => Literal::AbstractFloat(s.clone()),
            },
        ),
        IrExpression::Unknown => Expression::Unknown,
    }
}

/// The model form of a bind-group/binding pair.
pub open spec fn lower_resource_binding(b: IrResourceBinding) -> ResourceBinding {
    ResourceBinding { group: b.group, binding: b.binding }
}

/// Lower a bind-group/binding pair.
pub fn build_resource_binding(b: &IrResourceBinding) -> (r: ResourceBinding)
    ensures
        r == lower_resource_binding(*b),
{
    ResourceBinding { group: b.group, binding: b.binding }
}

/// The model form of an address space.
pub open spec fn lower_address_space(s: IrAddressSpace) -> AddressSpace {
    match s {
        IrAddressSpace::Function => AddressSpace::Function,
        IrAddressSpace::Private => AddressSpace::Private,
        IrAddressSpace::WorkGroup => AddressSpace::WorkGroup,
        IrAddressSpace::Uniform => AddressSpace::Uniform,
        IrAddressSpace::Storage { load, store } => AddressSpace::Storage { load, store },
        IrAddressSpace::Handle => AddressSpace::Handle,
        IrAddressSpace::PushConstant => AddressSpace::PushConstant,
    }
}

/// Lower an address space.
pub fn build_address_space(s: &IrAddressSpace) -> (r: AddressSpace)
    ensures
        r == lower_address_space(*s),
{
    match s {
        IrAddressSpace::Function => AddressSpace::Function,
        IrAddressSpace::Private => AddressSpace::Private,
        IrAddressSpace::WorkGroup => AddressSpace::WorkGroup,
        IrAddressSpace::Uniform => AddressSpace::Uniform,
        IrAddressSpace::Storage { load, store } => AddressSpace::Storage {
            load: *load,
            store: *store,
        },
        IrAddressSpace::Handle => AddressSpace::Handle,
        IrAddressSpace::PushConstant => AddressSpace::PushConstant,
    }
}

/// The model form of a built-in tag.
pub open spec fn lower_builtin(b: IrBuiltIn) -> BuiltIn {
    match b {
        IrBuiltIn::Position { invariant } => BuiltIn::Position { invariant },
        IrBuiltIn::ViewIndex => BuiltIn::ViewIndex,
        IrBuiltIn::BaseInstance => BuiltIn::BaseInstance,
        IrBuiltIn::BaseVertex => BuiltIn::BaseVertex,
        IrBuiltIn::ClipDistance => BuiltIn::ClipDistance,
        IrBuiltIn::CullDistance => BuiltIn::CullDistance,
        IrBuiltIn::InstanceIndex => BuiltIn::InstanceIndex,
        IrBuiltIn::PointSize => BuiltIn::PointSize,
        IrBuiltIn::VertexIndex => BuiltIn::VertexIndex,
        IrBuiltIn::FragDepth => BuiltIn::FragDepth,
        IrBuiltIn::PointCoord => BuiltIn::PointCoord,
        IrBuiltIn::FrontFacing => BuiltIn::FrontFacing,
        IrBuiltIn::PrimitiveIndex => BuiltIn::PrimitiveIndex,
        IrBuiltIn::SampleIndex => BuiltIn::SampleIndex,
        IrBuiltIn::SampleMask => BuiltIn::SampleMask,
        IrBuiltIn::GlobalInvocationId => BuiltIn::GlobalInvocationId,
        IrBuiltIn::LocalInvocationId => BuiltIn::LocalInvocationId,
        IrBuiltIn::LocalInvocationIndex => BuiltIn::LocalInvocationIndex,
        IrBuiltIn::WorkGroupId => BuiltIn::WorkGroupId,
        IrBuiltIn::WorkGroupSize => BuiltIn::WorkGroupSize,
        IrBuiltIn::NumWorkGroups => BuiltIn::NumWorkGroups,
        IrBuiltIn::NumSubgroups => BuiltIn::NumSubgroups,
        IrBuiltIn::SubgroupId => BuiltIn::SubgroupId,
        IrBuiltIn::SubgroupSize => BuiltIn::SubgroupSize,
        IrBuiltIn::SubgroupInvocationId => BuiltIn::SubgroupInvocationId,
        IrBuiltIn::DrawID => BuiltIn::DrawID,
    }
}

/// Lower a built-in tag.
pub fn build_builtin(b: &IrBuiltIn) -> (r: BuiltIn)
    ensures
        r == lower_builtin(*b),
{
    match b {
        IrBuiltIn::Position { invariant } => BuiltIn::Position { invariant: *invariant },
        IrBuiltIn::ViewIndex => BuiltIn::ViewIndex,
        IrBuiltIn::BaseInstance => BuiltIn::BaseInstance,
        IrBuiltIn::BaseVertex => BuiltIn::BaseVertex,
        IrBuiltIn::ClipDistance => BuiltIn::ClipDistance,
        IrBuiltIn::CullDistance => BuiltIn::CullDistance,
        IrBuiltIn::InstanceIndex => BuiltIn::InstanceIndex,
        IrBuiltIn::PointSize => BuiltIn::PointSize,
        IrBuiltIn::VertexIndex => BuiltIn::VertexIndex,
        IrBuiltIn::FragDepth => BuiltIn::FragDepth,
        IrBuiltIn::PointCoord => BuiltIn::PointCoord,
        IrBuiltIn::FrontFacing => BuiltIn::FrontFacing,
        IrBuiltIn::PrimitiveIndex => BuiltIn::PrimitiveIndex,
        IrBuiltIn::SampleIndex => BuiltIn::SampleIndex,
        IrBuiltIn::SampleMask => BuiltIn::SampleMask,
        IrBuiltIn::GlobalInvocationId => BuiltIn::GlobalInvocationId,
        IrBuiltIn::LocalInvocationId => BuiltIn::LocalInvocationId,
        IrBuiltIn::LocalInvocationIndex => BuiltIn::LocalInvocationIndex,
        IrBuiltIn::WorkGroupId => BuiltIn::WorkGroupId,
        IrBuiltIn::WorkGroupSize => BuiltIn::WorkGroupSize,
        IrBuiltIn::NumWorkGroups => BuiltIn::NumWorkGroups,
        IrBuiltIn::NumSubgroups => BuiltIn::NumSubgroups,
        IrBuiltIn::SubgroupId => BuiltIn::SubgroupId,
        IrBuiltIn::SubgroupSize => BuiltIn::SubgroupSize,
        IrBuiltIn::SubgroupInvocationId => BuiltIn::SubgroupInvocationId,
        IrBuiltIn::DrawID => BuiltIn::DrawID,
    }
}

/// The model form of an interpolation mode.
pub open spec fn lower_interpolation(i: IrInterpolation) -> Interpolation {
    match i {
        IrInterpolation::Perspective => Interpolation::Perspective,
        IrInterpolation::Linear => Interpolation::Linear,
        IrInterpolation::Flat => Interpolation::Flat,
    }
}

/// Lower an interpolation mode.
pub fn build_interpolation(i: &IrInterpolation) -> (r: Interpolation)
    ensures
        r == lower_interpolation(*i),
{
    match i {
        IrInterpolation::Perspective => Interpolation::Perspective,
        IrInterpolation::Linear => Interpolation::Linear,
        IrInterpolation::Flat => Interpolation::Flat,
    }
}

/// The model form of a sampling mode.
pub open spec fn lower_sampling(s: IrSampling) -> Sampling {
    match s {
        IrSampling::Center => Sampling::Center,
        IrSampling::Centroid => Sampling::Centroid,
        IrSampling::Sample => Sampling::Sample,
        IrSampling::First => Sampling::First,
        IrSampling::Either => Sampling::Either,
    }
}

/// Lower a sampling mode.
pub fn build_sampling(s: &IrSampling) -> (r: Sampling)
    ensures
        r == lower_sampling(*s),
{
    match s {
        IrSampling::Center => Sampling::Center,
        IrSampling::Centroid => Sampling::Centroid,
        IrSampling::Sample => Sampling::Sample,
        IrSampling::First => Sampling::First,
        IrSampling::Either => Sampling::Either,
    }
}

/// The model form of a binding attribute.
pub open spec fn lower_binding(b: IrBinding) -> Binding {
    match b {
        IrBinding::BuiltIn(bi) => Binding::BuiltIn(lower_builtin(bi)),
        IrBinding::Location { location, second_blend_source, interpolation, sampling } => Binding::Location {
            location,
            second_blend_source,
            interpolation: match interpolation {
                Some(i) => Some(lower_interpolation(i)),
                None => None,
            },
            sampling: match sampling {
                Some(x) => Some(lower_sampling(x)),
                None => None,
            },
        },
    }
}

/// Lower a binding attribute.
pub fn build_binding(b: &IrBinding) -> (r: Binding)
    ensures
        r == lower_binding(*b),
{
    match b {
        IrBinding::BuiltIn(bi) => Binding::BuiltIn(build_builtin(bi)),
        IrBinding::Location { location, second_blend_source, interpolation, sampling } => Binding::Location {
            location: *location,
            second_blend_source: *second_blend_source,
            interpolation: match interpolation {
                Some(i) => Some(build_interpolation(i)),
                None => None,
            },
            sampling: match sampling {
                Some(x) => Some(build_sampling(x)),
                None => None,
            },
        },
    }
}


/// The first position in `[i, j)` that is not blank.
pub open spec fn blanks_fwd(l: Seq<char>, i: int, j: int) -> int
    decreases j - i,
{
    if i < j && 0 <= i < l.len() && crate::text::is_blank(l[i]) {
        blanks_fwd(l, i + 1, j)
    } else {
        i
    }
}

/// The first position in `[i, j)` that is not the character `c`.
pub open spec fn char_fwd(l: Seq<char>, i: int, j: int, c: char) -> int
    decreases j - i,
{
    if i < j && 0 <= i < l.len() && l[i] == c {
        char_fwd(l, i + 1, j, c)
    } else {
        i
    }
}

/// The end of `[i, j)` after dropping trailing blanks.
pub open spec fn blanks_back(l: Seq<char>, i: int, j: int) -> int
    decreases j - i,
{
    if i < j && 0 < j <= l.len() && crate::text::is_blank(l[j - 1]) {
        blanks_back(l, i, j - 1)
    } else {
        j
    }
}

/// The end of `[i, j)` after dropping trailing `c` characters.
pub open spec fn char_back(l: Seq<char>, i: int, j: int, c: char) -> int
    decreases j - i,
{
    if i < j && 0 < j <= l.len() && l[j - 1] == c {
        char_back(l, i, j - 1, c)
    } else {
        j
    }
}

/// One retained comment line, with comment-delimiter tokens and
/// surrounding whitespace stripped: whitespace, then `/` runs, then `*`
/// runs and whitespace from the start; and the same from the end.
pub open spec fn sanitize_line(l: Seq<char>) -> Seq<char> {
    let i1 = blanks_fwd(l, 0, l.len() as int);
    let j1 = blanks_back(l, i1, l.len() as int);
    let i2 = char_fwd(l, i1, j1, '/');
    let i3 = char_fwd(l, i2, j1, '*');
    let i4 = blanks_fwd(l, i3, j1);
    let j2 = char_back(l, i4, j1, '/');
    let j3 = char_back(l, i4, j2, '*');
    let j4 = blanks_back(l, i4, j3);
    l.subrange(i4, j4)
}

/// A comment block as one text: each line sanitized, each followed by a
/// line break.
pub open spec fn sanitize_lines(ls: Seq<Seq<char>>) -> Seq<char>
    decreases ls.len(),
{
    if ls.len() == 0 {
        Seq::empty()
    } else {
        sanitize_lines(ls.drop_last()) + sanitize_line(ls.last()) + "\n"@
    }
}

fn exec_blanks_fwd(l: &str, i: usize, j: usize) -> (r: usize)
    requires
        i <= j <= l@.len(),
    ensures
        r == blanks_fwd(l@, i as int, j as int),
        i <= r <= j,
    decreases j - i,
{
    if i < j && crate::scan::blank_char_pub(l.get_char(i)) {
        exec_blanks_fwd(l, i + 1, j)
    } else {
        i
    }
}

fn exec_char_fwd(l: &str, i: usize, j: usize, c: char) -> (r: usize)
    requires
        i <= j <= l@.len(),
    ensures
        r == char_fwd(l@, i as int, j as int, c),
        i <= r <= j,
    decreases j - i,
{
    if i < j && l.get_char(i) == c {
        exec_char_fwd(l, i + 1, j, c)
    } else {
        i
    }
}

fn exec_blanks_back(l: &str, i: usize, j: usize) -> (r: usize)
    requires
        i <= j <= l@.len(),
    ensures
        r == blanks_back(l@, i as int, j as int),
        i <= r <= j,
    decreases j - i,
{
    if i < j && crate::scan::blank_char_pub(l.get_char(j - 1)) {
        exec_blanks_back(l, i, j - 1)
    } else {
        j
    }
}

fn exec_char_back(l: &str, i: usize, j: usize, c: char) -> (r: usize)
    requires
        i <= j <= l@.len(),
    ensures
        r == char_back(l@, i as int, j as int, c),
        i <= r <= j,
    decreases j - i,
{
    if i < j && l.get_char(j - 1) == c {
        exec_char_back(l, i, j - 1, c)
    } else {
        j
    }
}

fn exec_sanitize_line(l: &str) -> (r: String)
    ensures
        r@ == sanitize_line(l@),
{
    let n = l.unicode_len();
    let i1 = exec_blanks_fwd(l, 0, n);
    let j1 = exec_blanks_back(l, i1, n);
    let i2 = exec_char_fwd(l, i1, j1, '/');
    let i3 = exec_char_fwd(l, i2, j1, '*');
    let i4 = exec_blanks_fwd(l, i3, j1);
    let j2 = exec_char_back(l, i4, j1, '/');
    let j3 = exec_char_back(l, i4, j2, '*');
    let j4 = exec_blanks_back(l, i4, j3);
    l.substring_char(i4, j4).to_owned()
}

/// Sanitize the retained comment lines of one declaration into a single
/// text: comment-delimiter tokens and surrounding whitespace stripped
/// from each line.
pub fn sanitize_comments(lines: &Vec<String>) -> (r: String)
    ensures
        r@ == sanitize_lines(lines.deep_view()),
{
    let mut acc = String::new();
    let mut i: usize = 0;
    proof {
        assert(lines.deep_view().take(0) =~= Seq::<Seq<char>>::empty());
    }
    while i != lines.len()
        invariant
            i <= lines@.len(),
            lines.deep_view().len() == lines@.len(),
            acc@ == sanitize_lines(lines.deep_view().take(i as int)),
        decreases lines@.len() - i,
    {
        let line = exec_sanitize_line(lines[i].as_str());
        acc.append(line.as_str());
        acc.append("\n");
        proof {
            let dv = lines.deep_view();
            assert(dv[i as int] == lines@[i as int]@);
            assert(dv.take(i + 1).drop_last() =~= dv.take(i as int));
            assert(dv.take(i + 1).last() == dv[i as int]);
            assert(acc@ == sanitize_lines(dv.take(i + 1)));
        }
        i = i + 1;
    }
    proof {
        assert(lines.deep_view().take(lines@.len() as int) =~= lines.deep_view());
    }
    acc
}

/// The sanitized text of an optional comment block.
pub open spec fn sanitized_opt(c: Option<Vec<String>>) -> Option<Seq<char>> {
    match c {
        Some(ls) => Some(sanitize_lines(ls.deep_view())),
        None => None,
    }
}


/// Whether an optional name carries the start marker.
pub open spec fn opt_marked(o: Option<String>, pre: Seq<char>) -> bool {
    match o {
        Some(n) => is_marked(n@, pre),
        None => false,
    }
}

/// The identifier an optional name lowers to.
pub open spec fn ident_of(o: Option<String>) -> crate::model::Ident {
    match o {
        Some(n) => crate::model::Ident::Named(n),
        None => crate::model::Ident::Unnamed,
    }
}

proof fn lemma_map_insert0<T, S>(s: Seq<T>, x: T, f: spec_fn(T) -> S)
    ensures
        s.insert(0, x).map_values(f) =~= seq![f(x)] + s.map_values(f),
{
    s.insert_ensures(0, x);
    assert forall|w: int| 0 <= w < s.len() + 1 implies s.insert(0, x).map_values(f)[w] == (seq![
        f(x),
    ] + s.map_values(f))[w] by {
        if w == 0 {
            assert(s.insert(0, x)[0] == x);
        } else {
            assert(s.insert(0, x)[w] == s[w - 1]);
        }
    }
}

/// The ghost image of a lowered constant.
pub ghost struct ConstantV {
    pub name: crate::model::Ident,
    pub ty: TyV,
    pub init: Expression,
    pub comment: Option<Seq<char>>,
}

pub open spec fn constant_shape(c: crate::model::Constant) -> ConstantV {
    ConstantV {
        name: c.name,
        ty: ty_view(c.ty),
        init: c.init,
        comment: match c.comment {
            Some(t) => Some(t@),
            None => None,
        },
    }
}

/// One constant lowered, unless its type falls outside the table.
pub open spec fn lower_constant_v(
    c: IrConstant,
    types: Seq<IrType>,
    dp: Seq<(Seq<char>, Seq<Seq<char>>)>,
    pre: Seq<char>,
    post: Seq<char>,
) -> Option<ConstantV> {
    match spec_lower_ty(types, c.ty as int, dp, pre, post) {
        Some(t) => Some(
            ConstantV {
                name: ident_of(c.name),
                ty: t,
                init: lower_expr(c.init),
                comment: sanitized_opt(c.comment),
            },
        ),
        None => None,
    }
}

/// Every unmarked constant lowered, in order; a marked name is an
/// engine-internal artifact and is dropped.
pub open spec fn lower_constants_v(
    cs: Seq<IrConstant>,
    types: Seq<IrType>,
    dp: Seq<(Seq<char>, Seq<Seq<char>>)>,
    pre: Seq<char>,
    post: Seq<char>,
) -> Option<Seq<ConstantV>>
    decreases cs.len(),
{
    if cs.len() == 0 {
        Some(Seq::empty())
    } else if opt_marked(cs[0].name, pre) {
        lower_constants_v(cs.skip(1), types, dp, pre, post)
    } else {
        match lower_constant_v(cs[0], types, dp, pre, post) {
            Some(sh) => match lower_constants_v(cs.skip(1), types, dp, pre, post) {
                Some(rest) => Some(seq![sh] + rest),
                None => None,
            },
            None => None,
        }
    }
}

fn opt_name_str(o: &Option<String>) -> (r: Option<&str>)
    ensures
        match (r, o) {
            (Some(a), Some(b)) => a@ == b@,
            (None, None) => true,
            _ => false,
        },
{
    match o {
        Some(n) => Some(n.as_str()),
        None => None,
    }
}

fn clone_opt_name(o: &Option<String>) -> (r: Option<String>)
    ensures
        r == *o,
{
    match o {
        Some(n) => Some(n.clone()),
        None => None,
    }
}

fn sanitize_opt(o: &Option<Vec<String>>) -> (r: Option<String>)
    ensures
        (match r {
            Some(t) => Some(t@),
            None => None,
        }) == sanitized_opt(*o),
{
    match o {
        Some(ls) => Some(sanitize_comments(ls)),
        None => None,
    }
}

fn lower_constants_from(
    cs: &Vec<IrConstant>,
    i: usize,
    types: &Vec<IrType>,
    dp: &DefPathMap,
    mangling: &Mangling,
) -> (r: Result<Vec<crate::model::Constant>, LowerError>)
    requires
        ir_types_wf(types@),
        i <= cs@.len(),
        forall|t: int| 0 <= t < cs@.len() ==> (#[trigger] cs@[t]).ty < types@.len(),
    ensures
        match r {
            Ok(out) => lower_constants_v(cs@.skip(i as int), types@, dp_view(*dp), mangling.pre@,
                mangling.post@) == Some(out@.map_values(|c: crate::model::Constant| constant_shape(c))),
            Err(_) => lower_constants_v(cs@.skip(i as int), types@, dp_view(*dp), mangling.pre@,
                mangling.post@) is None,
        },
    decreases cs@.len() - i,
{
    if i == cs.len() {
        let out: Vec<crate::model::Constant> = Vec::new();
        proof {
            assert(cs@.skip(i as int) =~= Seq::<IrConstant>::empty());
            assert(out@.map_values(|c: crate::model::Constant| constant_shape(c))
                =~= Seq::<ConstantV>::empty());
        }
        return Ok(out);
    }
    let ghost tail = cs@.skip(i as int);
    proof {
        assert(tail[0] == cs@[i as int]);
        assert(tail.skip(1) =~= cs@.skip(i + 1));
    }
    let c = &cs[i];
    if contains_pre(opt_name_str(&c.name), mangling) {
        lower_constants_from(cs, i + 1, types, dp, mangling)
    } else {
        let ty = match build_ty(types, c.ty, dp, mangling) {
            Ok(t) => t,
            Err(e) => {
                return Err(e);
            },
        };
        let mut rest = match lower_constants_from(cs, i + 1, types, dp, mangling) {
            Ok(v) => v,
            Err(e) => {
                return Err(e);
            },
        };
        let item = crate::model::Constant {
            name: crate::model::Ident::from_option(clone_opt_name(&c.name)),
            ty,
            init: build_expression(&c.init),
            comment: sanitize_opt(&c.comment),
        };
        proof {
            assert(constant_shape(item) == lower_constant_v(cs@[i as int], types@, dp_view(*dp),
                mangling.pre@, mangling.post@)->Some_0);
        }
        let ghost rest0 = rest@;
        rest.insert(0, item);
        proof {
            lemma_map_insert0(rest0, item, |c: crate::model::Constant| constant_shape(c));
        }
        Ok(rest)
    }
}


/// The ghost image of a lowered global variable.
pub ghost struct GlobalV {
    pub name: crate::model::Ident,
    pub space: AddressSpace,
    pub binding: Option<ResourceBinding>,
    pub ty: TyV,
    pub init: Option<Expression>,
    pub comment: Option<Seq<char>>,
}

pub open spec fn global_shape(g: crate::model::GlobalVariable) -> GlobalV {
    GlobalV {
        name: g.name,
        space: g.space,
        binding: g.binding,
        ty: ty_view(g.ty),
        init: g.init,
        comment: match g.comment {
            Some(t) => Some(t@),
            None => None,
        },
    }
}

/// One global variable lowered, unless its type falls outside the table.
pub open spec fn lower_global_v(
    g: IrGlobalVariable,
    types: Seq<IrType>,
    dp: Seq<(Seq<char>, Seq<Seq<char>>)>,
    pre: Seq<char>,
    post: Seq<char>,
) -> Option<GlobalV> {
    match spec_lower_ty(types, g.ty as int, dp, pre, post) {
        Some(t) => Some(
            GlobalV {
                name: ident_of(g.name),
                space: lower_address_space(g.space),
                binding: match g.binding {
                    Some(b) => Some(lower_resource_binding(b)),
                    None => None,
                },
                ty: t,
                init: match g.init {
                    Some(e) => Some(lower_expr(e)),
                    None => None,
                },
                comment: sanitized_opt(g.comment),
            },
        ),
        None => None,
    }
}

/// Every unmarked global variable lowered, in order.
pub open spec fn lower_globals_v(
    gs: Seq<IrGlobalVariable>,
    types: Seq<IrType>,
    dp: Seq<(Seq<char>, Seq<Seq<char>>)>,
    pre: Seq<char>,
    post: Seq<char>,
) -> Option<Seq<GlobalV>>
    decreases gs.len(),
{
    if gs.len() == 0 {
        Some(Seq::empty())
    } else if opt_marked(gs[0].name, pre) {
        lower_globals_v(gs.skip(1), types, dp, pre, post)
    } else {
        match lower_global_v(gs[0], types, dp, pre, post) {
            Some(sh) => match lower_globals_v(gs.skip(1), types, dp, pre, post) {
                Some(rest) => Some(seq![sh] + rest),
                None => None,
            },
            None => None,
        }
    }
}

fn lower_globals_from(
    gs: &Vec<IrGlobalVariable>,
    i: usize,
    types: &Vec<IrType>,
    dp: &DefPathMap,
    mangling: &Mangling,
) -> (r: Result<Vec<crate::model::GlobalVariable>, LowerError>)
    requires
        ir_types_wf(types@),
        i <= gs@.len(),
        forall|t: int| 0 <= t < gs@.len() ==> (#[trigger] gs@[t]).ty < types@.len(),
    ensures
        match r {
            Ok(out) => lower_globals_v(gs@.skip(i as int), types@, dp_view(*dp), mangling.pre@,
                mangling.post@) == Some(out@.map_values(
                |g: crate::model::GlobalVariable| global_shape(g),
            )),
            Err(_) => lower_globals_v(gs@.skip(i as int), types@, dp_view(*dp), mangling.pre@,
                mangling.post@) is None,
        },
    decreases gs@.len() - i,
{
    if i == gs.len() {
        let out: Vec<crate::model::GlobalVariable> = Vec::new();
        proof {
            assert(gs@.skip(i as int) =~= Seq::<IrGlobalVariable>::empty());
            assert(out@.map_values(|g: crate::model::GlobalVariable| global_shape(g))
                =~= Seq::<GlobalV>::empty());
        }
        return Ok(out);
    }
    let ghost tail = gs@.skip(i as int);
    proof {
        assert(tail[0] == gs@[i as int]);
        assert(tail.skip(1) =~= gs@.skip(i + 1));
    }
    let g = &gs[i];
    if contains_pre(opt_name_str(&g.name), mangling) {
        lower_globals_from(gs, i + 1, types, dp, mangling)
    } else {
        let ty = match build_ty(types, g.ty, dp, mangling) {
            Ok(t) => t,
            Err(e) => {
                return Err(e);
            },
        };
        let mut rest = match lower_globals_from(gs, i + 1, types, dp, mangling) {
            Ok(v) => v,
            Err(e) => {
                return Err(e);
            },
        };
        let item = crate::model::GlobalVariable {
            name: crate::model::Ident::from_option(clone_opt_name(&g.name)),
            space: build_address_space(&g.space),
            binding: match &g.binding {
                Some(b) => Some(build_resource_binding(b)),
                None => None,
            },
            ty,
            init: match &g.init {
                Some(e) => Some(build_expression(e)),
                None => None,
            },
            comment: sanitize_opt(&g.comment),
        };
        proof {
            assert(global_shape(item) == lower_global_v(gs@[i as int], types@, dp_view(*dp),
                mangling.pre@, mangling.post@)->Some_0);
        }
        let ghost rest0 = rest@;
        rest.insert(0, item);
        proof {
            lemma_map_insert0(rest0, item, |g: crate::model::GlobalVariable| global_shape(g));
        }
        Ok(rest)
    }
}

/// The ghost image of a lowered struct member.
pub ghost struct MemberV {
    pub name: crate::model::Ident,
    pub ty: TyV,
    pub binding: Option<Binding>,
    pub comment: Option<Seq<char>>,
}

pub open spec fn member_shape(m: crate::model::StructMember) -> MemberV {
    MemberV {
        name: m.name,
        ty: ty_view(m.ty),
        binding: m.binding,
        comment: match m.comment {
            Some(t) => Some(t@),
            None => None,
        },
    }
}

/// One struct member lowered.
pub open spec fn lower_member_v(
    m: IrStructMember,
    types: Seq<IrType>,
    dp: Seq<(Seq<char>, Seq<Seq<char>>)>,
    pre: Seq<char>,
    post: Seq<char>,
) -> Option<MemberV> {
    match spec_lower_ty(types, m.ty as int, dp, pre, post) {
        Some(t) => Some(
            MemberV {
                name: ident_of(m.name),
                ty: t,
                binding: match m.binding {
                    Some(b) => Some(lower_binding(b)),
                    None => None,
                },
                comment: sanitized_opt(m.comment),
            },
        ),
        None => None,
    }
}

/// Every member of one struct lowered, in order.
pub open spec fn lower_members_v(
    ms: Seq<IrStructMember>,
    types: Seq<IrType>,
    dp: Seq<(Seq<char>, Seq<Seq<char>>)>,
    pre: Seq<char>,
    post: Seq<char>,
) -> Option<Seq<MemberV>>
    decreases ms.len(),
{
    if ms.len() == 0 {
        Some(Seq::empty())
    } else {
        match lower_member_v(ms[0], types, dp, pre, post) {
            Some(sh) => match lower_members_v(ms.skip(1), types, dp, pre, post) {
                Some(rest) => Some(seq![sh] + rest),
                None => None,
            },
            None => None,
        }
    }
}

fn lower_members_from(
    ms: &Vec<IrStructMember>,
    i: usize,
    types: &Vec<IrType>,
    dp: &DefPathMap,
    mangling: &Mangling,
) -> (r: Result<Vec<crate::model::StructMember>, LowerError>)
    requires
        ir_types_wf(types@),
        i <= ms@.len(),
        forall|t: int| 0 <= t < ms@.len() ==> (#[trigger] ms@[t]).ty < types@.len(),
    ensures
        match r {
            Ok(out) => lower_members_v(ms@.skip(i as int), types@, dp_view(*dp), mangling.pre@,
                mangling.post@) == Some(out@.map_values(
                |m: crate::model::StructMember| member_shape(m),
            )),
            Err(_) => lower_members_v(ms@.skip(i as int), types@, dp_view(*dp), mangling.pre@,
                mangling.post@) is None,
        },
    decreases ms@.len() - i,
{
    if i == ms.len() {
        let out: Vec<crate::model::StructMember> = Vec::new();
        proof {
            assert(ms@.skip(i as int) =~= Seq::<IrStructMember>::empty());
            assert(out@.map_values(|m: crate::model::StructMember| member_shape(m))
                =~= Seq::<MemberV>::empty());
        }
        return Ok(out);
    }
    let ghost tail = ms@.skip(i as int);
    proof {
        assert(tail[0] == ms@[i as int]);
        assert(tail.skip(1) =~= ms@.skip(i + 1));
    }
    let m = &ms[i];
    let ty = match build_ty(types, m.ty, dp, mangling) {
        Ok(t) => t,
        Err(e) => {
            return Err(e);
        },
    };
    let mut rest = match lower_members_from(ms, i + 1, types, dp, mangling) {
        Ok(v) => v,
        Err(e) => {
            return Err(e);
        },
    };
    let item = crate::model::StructMember {
        name: crate::model::Ident::from_option(clone_opt_name(&m.name)),
        ty,
        binding: match &m.binding {
            Some(b) => Some(build_binding(b)),
            None => None,
        },
        comment: sanitize_opt(&m.comment),
    };
    proof {
        assert(member_shape(item) == lower_member_v(ms@[i as int], types@, dp_view(*dp),
            mangling.pre@, mangling.post@)->Some_0);
    }
    let ghost rest0 = rest@;
    rest.insert(0, item);
    proof {
        lemma_map_insert0(rest0, item, |m: crate::model::StructMember| member_shape(m));
    }
    Ok(rest)
}

/// The ghost image of a lowered struct declaration.
pub ghost struct StructShape {
    pub name: crate::model::Ident,
    pub members: Seq<MemberV>,
    pub comment: Option<Seq<char>>,
}

pub open spec fn struct_shape(st: crate::model::Struct) -> StructShape {
    StructShape {
        name: st.name,
        members: st.members@.map_values(|m: crate::model::StructMember| member_shape(m)),
        comment: match st.comment {
            Some(t) => Some(t@),
            None => None,
        },
    }
}

/// Every struct type of the unit lowered as a declaration, in table
/// order: the entries at or after `i` whose shape is a struct and whose
/// name is unmarked.
pub open spec fn lower_structs_v(
    types: Seq<IrType>,
    i: int,
    dp: Seq<(Seq<char>, Seq<Seq<char>>)>,
    pre: Seq<char>,
    post: Seq<char>,
) -> Option<Seq<StructShape>>
    decreases types.len() - i,
{
    if !(0 <= i < types.len()) {
        Some(Seq::empty())
    } else {
        let rest_opt = lower_structs_v(types, i + 1, dp, pre, post);
        match types[i].inner {
            IrTypeInner::Struct { members } => {
                if opt_marked(types[i].name, pre) {
                    rest_opt
                } else {
                    match lower_members_v(members@, types, dp, pre, post) {
                        Some(mv) => match rest_opt {
                            Some(rest) => Some(
                                seq![
                                    StructShape {
                                        name: ident_of(types[i].name),
                                        members: mv,
                                        comment: None,
                                    },
                                ] + rest,
                            ),
                            None => None,
                        },
                        None => None,
                    }
                }
            },
            _ => rest_opt,
        }
    }
}

fn lower_structs_from(
    types: &Vec<IrType>,
    i: usize,
    dp: &DefPathMap,
    mangling: &Mangling,
) -> (r: Result<Vec<crate::model::Struct>, LowerError>)
    requires
        ir_types_wf(types@),
        i <= types@.len(),
    ensures
        match r {
            Ok(out) => lower_structs_v(types@, i as int, dp_view(*dp), mangling.pre@,
                mangling.post@) == Some(out@.map_values(|st: crate::model::Struct| struct_shape(st))),
            Err(_) => lower_structs_v(types@, i as int, dp_view(*dp), mangling.pre@,
                mangling.post@) is None,
        },
    decreases types@.len() - i,
{
    if i == types.len() {
        let out: Vec<crate::model::Struct> = Vec::new();
        proof {
            assert(out@.map_values(|st: crate::model::Struct| struct_shape(st))
                =~= Seq::<StructShape>::empty());
        }
        return Ok(out);
    }
    match &types[i].inner {
        IrTypeInner::Struct { members } => {
            if contains_pre(opt_name_str(&types[i].name), mangling) {
                return lower_structs_from(types, i + 1, dp, mangling);
            }
            proof {
                assert(ir_type_refs_below(types@[i as int].inner, i as int));
                assert forall|t: int| 0 <= t < members@.len() implies (
                #[trigger] members@[t]).ty < types@.len() by {
                    assert(members@[t].ty < i as int);
                }
            }
            let members = match lower_members_from(members, 0, types, dp, mangling) {
                Ok(v) => v,
                Err(e) => {
                    proof {
                        assert(members_of_inner(types@[i as int].inner).skip(0)
                            =~= members_of_inner(types@[i as int].inner));
                    }
                    return Err(e);
                },
            };
            let mut rest = match lower_structs_from(types, i + 1, dp, mangling) {
                Ok(v) => v,
                Err(e) => {
                    return Err(e);
                },
            };
            let item = crate::model::Struct {
                name: crate::model::Ident::from_option(clone_opt_name(&types[i].name)),
                members,
                comment: None,
            };
            proof {
                assert(members_of_inner(types@[i as int].inner).skip(0)
                    =~= members_of_inner(types@[i as int].inner));
                assert(struct_shape(item).members == lower_members_v(
                    members_of_inner(types@[i as int].inner), types@, dp_view(*dp), mangling.pre@,
                    mangling.post@)->Some_0);
            }
            let ghost rest0 = rest@;
            rest.insert(0, item);
            proof {
                lemma_map_insert0(rest0, item, |st: crate::model::Struct| struct_shape(st));
            }
            Ok(rest)
        },
        _ => lower_structs_from(types, i + 1, dp, mangling),
    }
}

/// The members of a struct shape; empty for any other shape.
pub open spec fn members_of_inner(inner: IrTypeInner) -> Seq<IrStructMember> {
    match inner {
        IrTypeInner::Struct { members } => members@,
        _ => Seq::empty(),
    }
}


/// The ghost image of a lowered function argument.
pub ghost struct ArgV {
    pub name: crate::model::Ident,
    pub ty: TyV,
    pub binding: Option<Binding>,
}

pub open spec fn arg_shape(a: crate::model::FunctionArgument) -> ArgV {
    ArgV { name: a.name, ty: ty_view(a.ty), binding: a.binding }
}

/// One function argument lowered.
pub open spec fn lower_arg_v(
    a: IrFunctionArgument,
    types: Seq<IrType>,
    dp: Seq<(Seq<char>, Seq<Seq<char>>)>,
    pre: Seq<char>,
    post: Seq<char>,
) -> Option<ArgV> {
    match spec_lower_ty(types, a.ty as int, dp, pre, post) {
        Some(t) => Some(
            ArgV {
                name: ident_of(a.name),
                ty: t,
                binding: match a.binding {
                    Some(b) => Some(lower_binding(b)),
                    None => None,
                },
            },
        ),
        None => None,
    }
}

/// Every argument of one function lowered, in order.
pub open spec fn lower_args_v(
    args: Seq<IrFunctionArgument>,
    types: Seq<IrType>,
    dp: Seq<(Seq<char>, Seq<Seq<char>>)>,
    pre: Seq<char>,
    post: Seq<char>,
) -> Option<Seq<ArgV>>
    decreases args.len(),
{
    if args.len() == 0 {
        Some(Seq::empty())
    } else {
        match lower_arg_v(args[0], types, dp, pre, post) {
            Some(sh) => match lower_args_v(args.skip(1), types, dp, pre, post) {
                Some(rest) => Some(seq![sh] + rest),
                None => None,
            },
            None => None,
        }
    }
}

fn lower_args_from(
    args: &Vec<IrFunctionArgument>,
    i: usize,
    types: &Vec<IrType>,
    dp: &DefPathMap,
    mangling: &Mangling,
) -> (r: Result<Vec<crate::model::FunctionArgument>, LowerError>)
    requires
        ir_types_wf(types@),
        i <= args@.len(),
        forall|t: int| 0 <= t < args@.len() ==> (#[trigger] args@[t]).ty < types@.len(),
    ensures
        match r {
            Ok(out) => lower_args_v(args@.skip(i as int), types@, dp_view(*dp), mangling.pre@,
                mangling.post@) == Some(out@.map_values(
                |a: crate::model::FunctionArgument| arg_shape(a),
            )),
            Err(_) => lower_args_v(args@.skip(i as int), types@, dp_view(*dp), mangling.pre@,
                mangling.post@) is None,
        },
    decreases args@.len() - i,
{
    if i == args.len() {
        let out: Vec<crate::model::FunctionArgument> = Vec::new();
        proof {
            assert(args@.skip(i as int) =~= Seq::<IrFunctionArgument>::empty());
            assert(out@.map_values(|a: crate::model::FunctionArgument| arg_shape(a))
                =~= Seq::<ArgV>::empty());
        }
        return Ok(out);
    }
    let ghost tail = args@.skip(i as int);
    proof {
        assert(tail[0] == args@[i as int]);
        assert(tail.skip(1) =~= args@.skip(i + 1));
    }
    let a = &args[i];
    let ty = match build_ty(types, a.ty, dp, mangling) {
        Ok(t) => t,
        Err(e) => {
            return Err(e);
        },
    };
    let mut rest = match lower_args_from(args, i + 1, types, dp, mangling) {
        Ok(v) => v,
        Err(e) => {
            return Err(e);
        },
    };
    let item = crate::model::FunctionArgument {
        name: crate::model::Ident::from_option(clone_opt_name(&a.name)),
        ty,
        binding: match &a.binding {
            Some(b) => Some(build_binding(b)),
            None => None,
        },
    };
    proof {
        assert(arg_shape(item) == lower_arg_v(args@[i as int], types@, dp_view(*dp),
            mangling.pre@, mangling.post@)->Some_0);
    }
    let ghost rest0 = rest@;
    rest.insert(0, item);
    proof {
        lemma_map_insert0(rest0, item, |a: crate::model::FunctionArgument| arg_shape(a));
    }
    Ok(rest)
}

/// The ghost image of a lowered function declaration.
pub ghost struct FunctionShape {
    pub name: crate::model::Ident,
    pub arguments: Seq<ArgV>,
    pub ret: Option<TyV>,
    pub comment: Option<Seq<char>>,
}

pub open spec fn function_shape(f: crate::model::Function) -> FunctionShape {
    FunctionShape {
        name: f.name,
        arguments: f.arguments@.map_values(|a: crate::model::FunctionArgument| arg_shape(a)),
        ret: match f.ret {
            Some(t) => Some(ty_view(t)),
            None => None,
        },
        comment: match f.comment {
            Some(t) => Some(t@),
            None => None,
        },
    }
}

/// One function lowered: its arguments, and its return type when it has
/// one.
pub open spec fn lower_function_v(
    f: IrFunction,
    types: Seq<IrType>,
    dp: Seq<(Seq<char>, Seq<Seq<char>>)>,
    pre: Seq<char>,
    post: Seq<char>,
) -> Option<FunctionShape> {
    match lower_args_v(f.arguments@, types, dp, pre, post) {
        Some(avs) => {
            match f.ret {
                Some(h) => match spec_lower_ty(types, h as int, dp, pre, post) {
                    Some(t) => Some(
                        FunctionShape {
                            name: ident_of(f.name),
                            arguments: avs,
                            ret: Some(t),
                            comment: sanitized_opt(f.comment),
                        },
                    ),
                    None => None,
                },
                None => Some(
                    FunctionShape {
                        name: ident_of(f.name),
                        arguments: avs,
                        ret: None,
                        comment: sanitized_opt(f.comment),
                    },
                ),
            }
        },
        None => None,
    }
}

/// Every unmarked function lowered, in order.
pub open spec fn lower_functions_v(
    fs: Seq<IrFunction>,
    types: Seq<IrType>,
    dp: Seq<(Seq<char>, Seq<Seq<char>>)>,
    pre: Seq<char>,
    post: Seq<char>,
) -> Option<Seq<FunctionShape>>
    decreases fs.len(),
{
    if fs.len() == 0 {
        Some(Seq::empty())
    } else if opt_marked(fs[0].name, pre) {
        lower_functions_v(fs.skip(1), types, dp, pre, post)
    } else {
        match lower_function_v(fs[0], types, dp, pre, post) {
            Some(sh) => match lower_functions_v(fs.skip(1), types, dp, pre, post) {
                Some(rest) => Some(seq![sh] + rest),
                None => None,
            },
            None => None,
        }
    }
}

fn lower_functions_from(
    fs: &Vec<IrFunction>,
    i: usize,
    types: &Vec<IrType>,
    dp: &DefPathMap,
    mangling: &Mangling,
) -> (r: Result<Vec<crate::model::Function>, LowerError>)
    requires
        ir_types_wf(types@),
        i <= fs@.len(),
        forall|t: int, k: int|
            0 <= t < fs@.len() && 0 <= k < fs@[t].arguments@.len() ==> (
            #[trigger] fs@[t].arguments@[k]).ty < types@.len(),
        forall|t: int|
            0 <= t < fs@.len() ==> match (#[trigger] fs@[t]).ret {
                Some(h) => h < types@.len(),
                None => true,
            },
    ensures
        match r {
            Ok(out) => lower_functions_v(fs@.skip(i as int), types@, dp_view(*dp), mangling.pre@,
                mangling.post@) == Some(out@.map_values(
                |f: crate::model::Function| function_shape(f),
            )),
            Err(_) => lower_functions_v(fs@.skip(i as int), types@, dp_view(*dp), mangling.pre@,
                mangling.post@) is None,
        },
    decreases fs@.len() - i,
{
    if i == fs.len() {
        let out: Vec<crate::model::Function> = Vec::new();
        proof {
            assert(fs@.skip(i as int) =~= Seq::<IrFunction>::empty());
            assert(out@.map_values(|f: crate::model::Function| function_shape(f))
                =~= Seq::<FunctionShape>::empty());
        }
        return Ok(out);
    }
    let ghost tail = fs@.skip(i as int);
    proof {
        assert(tail[0] == fs@[i as int]);
        assert(tail.skip(1) =~= fs@.skip(i + 1));
    }
    let f = &fs[i];
    if contains_pre(opt_name_str(&f.name), mangling) {
        lower_functions_from(fs, i + 1, types, dp, mangling)
    } else {
        proof {
            assert(fs@[i as int].arguments@.skip(0) =~= fs@[i as int].arguments@);
        }
        let arguments = match lower_args_from(&f.arguments, 0, types, dp, mangling) {
            Ok(v) => v,
            Err(e) => {
                return Err(e);
            },
        };
        let ret = match &f.ret {
            Some(h) => match build_ty(types, *h, dp, mangling) {
                Ok(t) => Some(t),
                Err(e) => {
                    return Err(e);
                },
            },
            None => None,
        };
        let mut rest = match lower_functions_from(fs, i + 1, types, dp, mangling) {
            Ok(v) => v,
            Err(e) => {
                return Err(e);
            },
        };
        let item = crate::model::Function {
            name: crate::model::Ident::from_option(clone_opt_name(&f.name)),
            arguments,
            ret,
            comment: sanitize_opt(&f.comment),
        };
        proof {
            assert(function_shape(item) == lower_function_v(fs@[i as int], types@, dp_view(*dp),
                mangling.pre@, mangling.post@)->Some_0);
        }
        let ghost rest0 = rest@;
        rest.insert(0, item);
        proof {
            lemma_map_insert0(rest0, item, |f: crate::model::Function| function_shape(f));
        }
        Ok(rest)
    }
}


/// The map entries one import declaration contributes: each imported
/// item name, bound to the imported-from namespace path.
pub open spec fn entries_of_import(imp: crate::ImportDeclaration) -> Seq<
    (Seq<char>, Seq<Seq<char>>),
> {
    Seq::new(imp.items@.len(), |k: int| (imp.items@[k]@, crate::tree::split_path(imp.import@)))
}

/// The map entries of a unit's import list, in order.
pub open spec fn import_entries(imports: Seq<crate::ImportDeclaration>) -> Seq<
    (Seq<char>, Seq<Seq<char>>),
>
    decreases imports.len(),
{
    if imports.len() == 0 {
        Seq::empty()
    } else {
        import_entries(imports.drop_last()) + entries_of_import(imports.last())
    }
}

/// The map entries of the unit's own struct types: every unmarked named
/// struct, bound to the unit's own namespace path.
pub open spec fn struct_entries(
    types: Seq<IrType>,
    path: Seq<Seq<char>>,
    pre: Seq<char>,
) -> Seq<(Seq<char>, Seq<Seq<char>>)>
    decreases types.len(),
{
    if types.len() == 0 {
        Seq::empty()
    } else {
        let rest = struct_entries(types.drop_last(), path, pre);
        match types.last().inner {
            IrTypeInner::Struct { .. } => match types.last().name {
                Some(n) => if !is_marked(n@, pre) {
                    rest + seq![(n@, path)]
                } else {
                    rest
                },
                None => rest,
            },
            _ => rest,
        }
    }
}

/// Build the name-to-namespace map a unit's type references resolve
/// against: every imported item name bound to its source namespace,
/// then every struct type the unit itself defines bound to the unit's
/// own namespace, shadowing imports of the same name.
pub fn build_def_paths(
    imports: &Vec<crate::ImportDeclaration>,
    unit: &IrModule,
    path: &Vec<String>,
    mangling: &Mangling,
) -> (m: DefPathMap)
    ensures
        dp_view(m) == import_entries(imports@) + struct_entries(unit.types@, path.deep_view(),
            mangling.pre@),
{
    let mut m = DefPathMap::new();
    let mut i: usize = 0;
    proof {
        assert(imports@.take(0) =~= Seq::<crate::ImportDeclaration>::empty());
        assert(dp_view(m) =~= import_entries(imports@.take(0)));
    }
    while i != imports.len()
        invariant
            i <= imports@.len(),
            dp_view(m) =~= import_entries(imports@.take(i as int)),
        decreases imports@.len() - i,
    {
        let imp = &imports[i];
        let segs = crate::tree::split_namespace(imp.import.as_str());
        let mut k: usize = 0;
        while k != imp.items.len()
            invariant
                k <= imp.items@.len(),
                imp == &imports@[i as int],
                i < imports@.len(),
                segs.deep_view() == crate::tree::split_path(imp.import@),
                dp_view(m) =~= import_entries(imports@.take(i as int)) + entries_of_import(
                    imports@[i as int],
                ).take(k as int),
            decreases imp.items@.len() - k,
        {
            let p = clone_string_vec(&segs);
            m.insert(imp.items[k].clone(), p);
            proof {
                assert(entries_of_import(imports@[i as int])[k as int] == (
                    imp.items@[k as int]@,
                    crate::tree::split_path(imp.import@),
                ));
                assert(entries_of_import(imports@[i as int]).take(k + 1) =~= entries_of_import(
                    imports@[i as int],
                ).take(k as int).push(entries_of_import(imports@[i as int])[k as int]));
            }
            k = k + 1;
        }
        proof {
            assert(entries_of_import(imports@[i as int]).take(imp.items@.len() as int)
                =~= entries_of_import(imports@[i as int]));
            assert(imports@.take(i + 1).drop_last() =~= imports@.take(i as int));
            assert(imports@.take(i + 1).last() == imports@[i as int]);
        }
        i = i + 1;
    }
    proof {
        assert(imports@.take(imports@.len() as int) =~= imports@);
    }
    let ghost base = dp_view(m);
    let mut t: usize = 0;
    proof {
        assert(unit.types@.take(0) =~= Seq::<IrType>::empty());
        assert(dp_view(m) =~= base + struct_entries(unit.types@.take(0), path.deep_view(),
            mangling.pre@));
    }
    while t != unit.types.len()
        invariant
            t <= unit.types@.len(),
            base == import_entries(imports@),
            dp_view(m) =~= base + struct_entries(unit.types@.take(t as int), path.deep_view(),
                mangling.pre@),
        decreases unit.types@.len() - t,
    {
        let keep = match &unit.types[t].inner {
            IrTypeInner::Struct { .. } => true,
            _ => false,
        };
        proof {
            assert(unit.types@.take(t + 1).drop_last() =~= unit.types@.take(t as int));
            assert(unit.types@.take(t + 1).last() == unit.types@[t as int]);
        }
        if keep {
            match &unit.types[t].name {
                Some(n) => {
                    if !contains_pre(Some(n.as_str()), mangling) {
                        m.insert(n.clone(), clone_string_vec(path));
                    }
                },
                None => {},
            }
        }
        t = t + 1;
    }
    proof {
        assert(unit.types@.take(unit.types@.len() as int) =~= unit.types@);
    }
    m
}


/// The name-to-namespace map of one unit, as a specification value.
pub open spec fn unit_def_paths(
    imports: Seq<crate::ImportDeclaration>,
    types: Seq<IrType>,
    import_path: Seq<char>,
    pre: Seq<char>,
) -> Seq<(Seq<char>, Seq<Seq<char>>)> {
    import_entries(imports) + struct_entries(types, crate::tree::split_path(import_path), pre)
}

/// Whether every declaration of the unit lowers without an
/// internal-consistency error.
pub open spec fn unit_lowerable(
    unit: &IrModule,
    imports: Seq<crate::ImportDeclaration>,
    import_path: Seq<char>,
    pre: Seq<char>,
    post: Seq<char>,
) -> bool {
    let dp = unit_def_paths(imports, unit.types@, import_path, pre);
    &&& lower_constants_v(unit.constants@, unit.types@, dp, pre, post) is Some
    &&& lower_globals_v(unit.global_variables@, unit.types@, dp, pre, post) is Some
    &&& lower_structs_v(unit.types@, 0, dp, pre, post) is Some
    &&& lower_functions_v(unit.functions@, unit.types@, dp, pre, post) is Some
}

/// Lower one fully composed unit into the tree: its declarations are
/// rendered against the name-to-namespace map and appended to the module
/// named by the caller-supplied namespace path, which is created where
/// missing. Nothing inside the compiled unit chooses the parent module.
/// Fails exactly when a declaration's type falls outside the rendering
/// table.
pub fn lower_unit(
    doc: Doc,
    import_path: &str,
    unit: &IrModule,
    imports: &Vec<crate::ImportDeclaration>,
    shader_defs: &Vec<String>,
    source_url: Option<String>,
    mangling: &Mangling,
) -> (r: Result<Doc, LowerError>)
    requires
        ir_module_wf(unit),
    ensures
        r is Ok <==> unit_lowerable(unit, imports@, import_path@, mangling.pre@, mangling.post@),
        r matches Ok(d) ==> d.version == doc.version && d.compiled_with == doc.compiled_with,
        r matches Ok(d) ==> exists|segs: Vec<String>, p: UnitPayload|
            {
                let dp = unit_def_paths(imports@, unit.types@, import_path@, mangling.pre@);
                &&& segs.deep_view() == crate::tree::split_path(import_path@)
                &&& p.constants@.map_values(|c: crate::model::Constant| constant_shape(c))
                    == lower_constants_v(unit.constants@, unit.types@, dp, mangling.pre@,
                    mangling.post@)->Some_0
                &&& p.global_variables@.map_values(
                    |g: crate::model::GlobalVariable| global_shape(g),
                ) == lower_globals_v(unit.global_variables@, unit.types@, dp, mangling.pre@,
                    mangling.post@)->Some_0
                &&& p.structs@.map_values(|st: crate::model::Struct| struct_shape(st))
                    == lower_structs_v(unit.types@, 0, dp, mangling.pre@, mangling.post@)->Some_0
                &&& p.functions@.map_values(|f: crate::model::Function| function_shape(f))
                    == lower_functions_v(unit.functions@, unit.types@, dp, mangling.pre@,
                    mangling.post@)->Some_0
                &&& p.shader_defs@ == shader_defs@
                &&& p.source_url == source_url
                &&& #[trigger] crate::tree::spec_place(
                    crate::views::view_module(doc.root),
                    segs@,
                    crate::tree::payload_view(p),
                ) == crate::views::view_module(d.root)
            },
{
    let segs = crate::tree::split_namespace(import_path);
    let dp = build_def_paths(imports, unit, &segs, mangling);
    proof {
        assert(segs.deep_view() == crate::tree::split_path(import_path@));
        assert(dp_view(dp) == unit_def_paths(imports@, unit.types@, import_path@, mangling.pre@));
        assert(unit.constants@.skip(0) =~= unit.constants@);
        assert(unit.global_variables@.skip(0) =~= unit.global_variables@);
        assert(unit.functions@.skip(0) =~= unit.functions@);
    }
    let constants = match lower_constants_from(&unit.constants, 0, &unit.types, &dp, mangling) {
        Ok(v) => v,
        Err(e) => {
            return Err(e);
        },
    };
    let global_variables = match lower_globals_from(
        &unit.global_variables,
        0,
        &unit.types,
        &dp,
        mangling,
    ) {
        Ok(v) => v,
        Err(e) => {
            return Err(e);
        },
    };
    let structs = match lower_structs_from(&unit.types, 0, &dp, mangling) {
        Ok(v) => v,
        Err(e) => {
            return Err(e);
        },
    };
    let functions = match lower_functions_from(&unit.functions, 0, &unit.types, &dp, mangling) {
        Ok(v) => v,
        Err(e) => {
            return Err(e);
        },
    };
    let payload = crate::tree::UnitPayload {
        source_url,
        constants,
        global_variables,
        structs,
        functions,
        shader_defs: clone_string_vec(shader_defs),
    };
    let Doc { version, root, compiled_with } = doc;
    let ghost pg = payload;
    let ghost sg = segs;
    let root = crate::tree::place_unit(root, &segs, payload);
    let d = Doc { version, root, compiled_with };
    proof {
        assert(crate::tree::spec_place(
            crate::views::view_module(doc.root),
            sg@,
            crate::tree::payload_view(pg),
        ) == crate::views::view_module(d.root));
    }
    Ok(d)
}

} // verus!
