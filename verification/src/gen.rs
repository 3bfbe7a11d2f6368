//! Support for the static renderer: the flat item index with its stable
//! file names, display text for types and bindings, and the wrappers of
//! the rendered-page text fragments.
use vstd::prelude::*;
use vstd::string::*;

use crate::model::{Binding, BuiltIn, Doc, Ident, Interpolation, Module, Sampling, Type};
use crate::post::{has_str, sort_items, sorted_by_key, KeyV, SortItem};
use crate::text::{dec_nat, u32_to_string};

verus! {

/// The kind of an indexed item.
#[derive(Debug, Clone, Copy, PartialEq, Eq, Structural)]
pub enum ItemKind {
    Module,
    Constant,
    GlobalVariable,
    Struct,
    Function,
}

/// One entry of the flat item index: where the item lives, what it is,
/// and the page it is rendered on.
#[derive(Debug, PartialEq)]
pub struct Item {
    pub path: Vec<String>,
    pub name: String,
    pub kind: ItemKind,
    pub url: String,
}

/// The file-name prefix of an item kind's page.
pub open spec fn kind_file_prefix(kind: ItemKind) -> Seq<char> {
    match kind {
        ItemKind::Module => "/"@,
        ItemKind::Constant => "/const."@,
        ItemKind::GlobalVariable => "/var."@,
        ItemKind::Struct => "/struct."@,
        ItemKind::Function => "/fn."@,
    }
}

/// The page suffix of an item kind.
pub open spec fn kind_file_suffix(kind: ItemKind) -> Seq<char> {
    match kind {
        ItemKind::Module => "/index.html"@,
        _ => ".html"@,
    }
}

/// A path joined with `/` separators.
pub open spec fn joined_path(p: Seq<Seq<char>>) -> Seq<char>
    decreases p.len(),
{
    if p.len() == 0 {
        Seq::empty()
    } else if p.len() == 1 {
        p[0]
    } else {
        joined_path(p.drop_last()) + "/"@ + p.last()
    }
}

/// The page an item is rendered on, from its stable demangled name:
/// module index pages, and `const.`, `var.`, `struct.` and `fn.` pages.
pub open spec fn item_url(path: Seq<Seq<char>>, name: Seq<char>, kind: ItemKind) -> Seq<char> {
    joined_path(path) + kind_file_prefix(kind) + name + kind_file_suffix(kind)
}

fn join_path(path: &Vec<String>) -> (r: String)
    ensures
        r@ == joined_path(path.deep_view()),
{
    let mut s = String::new();
    let mut i: usize = 0;
    proof {
        assert(path.deep_view().take(0) =~= Seq::<Seq<char>>::empty());
    }
    while i != path.len()
        invariant
            i <= path@.len(),
            path.deep_view().len() == path@.len(),
            s@ == joined_path(path.deep_view().take(i as int)),
        decreases path@.len() - i,
    {
        if i != 0 {
            s.append("/");
        }
        s.append(path[i].as_str());
        proof {
            let dv = path.deep_view();
            assert(dv[i as int] == path@[i as int]@);
            assert(dv.take(i + 1).drop_last() =~= dv.take(i as int));
            assert(dv.take(i + 1).last() == dv[i as int]);
            if i == 0 {
                assert(dv.take(1).len() == 1);
                assert(dv.take(1)[0] == dv[0]);
            }
        }
        i = i + 1;
    }
    proof {
        assert(path.deep_view().take(path@.len() as int) =~= path.deep_view());
    }
    s
}

impl Item {
    fn new(path: Vec<String>, name: String, kind: ItemKind) -> (r: Item)
        ensures
            r.path == path,
            r.name == name,
            r.kind == kind,
            r.url@ == item_url(path.deep_view(), name@, kind),
    {
        let mut url = join_path(&path);
        match kind {
            ItemKind::Module => {
                url.append("/");
                url.append(name.as_str());
                url.append("/index.html");
            },
            ItemKind::Constant => {
                url.append("/const.");
                url.append(name.as_str());
                url.append(".html");
            },
            ItemKind::GlobalVariable => {
                url.append("/var.");
                url.append(name.as_str());
                url.append(".html");
            },
            ItemKind::Struct => {
                url.append("/struct.");
                url.append(name.as_str());
                url.append(".html");
            },
            ItemKind::Function => {
                url.append("/fn.");
                url.append(name.as_str());
                url.append(".html");
            },
        }
        Item { path, name, kind, url }
    }
}

impl SortItem for Item {
    open spec fn skey(&self) -> KeyV {
        KeyV { unnamed: false, name: self.url@ }
    }

    fn le_by_name(&self, other: &Self) -> (r: bool) {
        crate::text::str_le(self.url.as_str(), other.url.as_str())
    }
}

fn clone_strings(v: &Vec<String>) -> (r: Vec<String>)
    ensures
        r@ == v@,
{
    let mut r: Vec<String> = Vec::new();
    let mut i: usize = 0;
    while i != v.len()
        invariant
            i <= v@.len(),
            r@ =~= v@.take(i as int),
        decreases v@.len() - i,
    {
        r.push(v[i].clone());
        proof {
            assert(r@ =~= v@.take(i + 1));
        }
        i = i + 1;
    }
    proof {
        assert(v@.take(v@.len() as int) =~= v@);
    }
    r
}

fn all_items_module(module: &Module, parent: &Vec<String>, items: &mut Vec<Item>)
    decreases *module,
{
    let mut path = clone_strings(parent);
    path.push(module.name.clone());
    let mut i: usize = 0;
    while i != module.modules.len()
        invariant
            i <= module.modules@.len(),
        decreases module.modules@.len() - i,
    {
        proof {
            assert(decreases_to!(*module => module.modules));
            assert(decreases_to!(module.modules => module.modules@[i as int]));
        }
        all_items_module(&module.modules[i], &path, items);
        items.push(Item::new(
            clone_strings(&path),
            module.modules[i].name.clone(),
            ItemKind::Module,
        ));
        i = i + 1;
    }
    let mut i: usize = 0;
    while i != module.constants.len()
        invariant
            i <= module.constants@.len(),
        decreases module.constants@.len() - i,
    {
        if let Ident::Named(name) = &module.constants[i].name {
            items.push(Item::new(clone_strings(&path), name.clone(), ItemKind::Constant));
        }
        i = i + 1;
    }
    let mut i: usize = 0;
    while i != module.global_variables.len()
        invariant
            i <= module.global_variables@.len(),
        decreases module.global_variables@.len() - i,
    {
        if let Ident::Named(name) = &module.global_variables[i].name {
            items.push(Item::new(clone_strings(&path), name.clone(), ItemKind::GlobalVariable));
        }
        i = i + 1;
    }
    let mut i: usize = 0;
    while i != module.structs.len()
        invariant
            i <= module.structs@.len(),
        decreases module.structs@.len() - i,
    {
        if let Ident::Named(name) = &module.structs[i].name {
            items.push(Item::new(clone_strings(&path), name.clone(), ItemKind::Struct));
        }
        i = i + 1;
    }
    let mut i: usize = 0;
    while i != module.functions.len()
        invariant
            i <= module.functions@.len(),
        decreases module.functions@.len() - i,
    {
        if let Ident::Named(name) = &module.functions[i].name {
            items.push(Item::new(clone_strings(&path), name.clone(), ItemKind::Function));
        }
        i = i + 1;
    }
}

/// The flat index of every named item in the tree, each with the page it
/// is rendered on, sorted by page path.
pub fn all_items(doc: &Doc) -> (r: Vec<Item>)
    ensures
        sorted_by_key(r@),
{
    let mut items: Vec<Item> = Vec::new();
    let parent: Vec<String> = Vec::new();
    all_items_module(&doc.root, &parent, &mut items);
    sort_items(items)
}

/// The display form of an optional array size: the count, or `?`.
pub open spec fn array_size_text(size: Option<u32>) -> Seq<char> {
    match size {
        Some(n) => dec_nat(n as nat),
        None => "?"@,
    }
}

pub fn display_array_size(size: &Option<u32>) -> (r: String)
    ensures
        r@ == array_size_text(*size),
{
    match size {
        Some(n) => u32_to_string(*n),
        None => "?".to_owned(),
    }
}

/// The canonical display of a type reference.
pub open spec fn render_ty(t: Type) -> Seq<char>
    decreases t,
{
    match t {
        Type::Named { name, def_path } => name@,
        Type::Pointer(b) => "ptr<"@ + render_ty(*b) + ">"@,
        Type::PointerWithAddressSpace { base, address_space, maybe_access } => {
            let acc: Seq<char> = match maybe_access {
                Some(a) => ", "@ + a@,
                None => Seq::empty(),
            };
            "ptr<"@ + address_space@ + ", "@ + render_ty(*base) + acc + ">"@
        },
        Type::ArrayConstant(b, n) => "array<"@ + render_ty(*b) + ", "@ + array_size_text(n)
            + ">"@,
        Type::ArrayDynamic(b) => "array<"@ + render_ty(*b) + ">"@,
        Type::BindingArrayConstant(b, n) => "binding_array<"@ + render_ty(*b) + ", "@
            + array_size_text(n) + ">"@,
        Type::BindingArrayDynamic(b) => "binding_array<"@ + render_ty(*b) + ">"@,
        Type::Unnamed => "unknown"@,
    }
}

/// Render a type reference for display.
pub fn render_type(t: &Type) -> (r: String)
    ensures
        r@ == render_ty(*t),
    decreases *t,
{
    match t {
        Type::Named { name, def_path } => name.clone(),
        Type::Pointer(b) => {
            let mut s = "ptr<".to_owned();
            let inner = render_type(b);
            s.append(inner.as_str());
            s.append(">");
            proof {
                assert(s@ =~= render_ty(*t));
            }
            s
        },
        Type::PointerWithAddressSpace { base, address_space, maybe_access } => {
            let mut s = "ptr<".to_owned();
            s.append(address_space.as_str());
            s.append(", ");
            let inner = render_type(base);
            s.append(inner.as_str());
            match maybe_access {
                Some(a) => {
                    s.append(", ");
                    s.append(a.as_str());
                },
                None => {},
            }
            s.append(">");
            proof {
                assert(s@ =~= render_ty(*t));
            }
            s
        },
        Type::ArrayConstant(b, n) => {
            let mut s = "array<".to_owned();
            let inner = render_type(b);
            s.append(inner.as_str());
            s.append(", ");
            let sz = display_array_size(n);
            s.append(sz.as_str());
            s.append(">");
            proof {
                assert(s@ =~= render_ty(*t));
            }
            s
        },
        Type::ArrayDynamic(b) => {
            let mut s = "array<".to_owned();
            let inner = render_type(b);
            s.append(inner.as_str());
            s.append(">");
            proof {
                assert(s@ =~= render_ty(*t));
            }
            s
        },
        Type::BindingArrayConstant(b, n) => {
            let mut s = "binding_array<".to_owned();
            let inner = render_type(b);
            s.append(inner.as_str());
            s.append(", ");
            let sz = display_array_size(n);
            s.append(sz.as_str());
            s.append(">");
            proof {
                assert(s@ =~= render_ty(*t));
            }
            s
        },
        Type::BindingArrayDynamic(b) => {
            let mut s = "binding_array<".to_owned();
            let inner = render_type(b);
            s.append(inner.as_str());
            s.append(">");
            proof {
                assert(s@ =~= render_ty(*t));
            }
            s
        },
        Type::Unnamed => "unknown".to_owned(),
    }
}

/// The written name of a built-in tag, for those WGSL can write.
pub open spec fn builtin_token(b: BuiltIn) -> Option<Seq<char>> {
    match b {
        BuiltIn::Position { invariant } => Some("position"@),
        BuiltIn::ViewIndex => Some("view_index"@),
        BuiltIn::InstanceIndex => Some("instance_index"@),
        BuiltIn::VertexIndex => Some("vertex_index"@),
        BuiltIn::FragDepth => Some("frag_depth"@),
        BuiltIn::FrontFacing => Some("front_facing"@),
        BuiltIn::PrimitiveIndex => Some("primitive_index"@),
        BuiltIn::SampleIndex => Some("sample_index"@),
        BuiltIn::SampleMask => Some("sample_mask"@),
        BuiltIn::GlobalInvocationId => Some("global_invocation_id"@),
        BuiltIn::LocalInvocationId => Some("local_invocation_id"@),
        BuiltIn::LocalInvocationIndex => Some("local_invocation_index"@),
        BuiltIn::WorkGroupId => Some("workgroup_id"@),
        BuiltIn::NumWorkGroups => Some("num_workgroups"@),
        BuiltIn::NumSubgroups => Some("num_subgroups"@),
        BuiltIn::SubgroupId => Some("subgroup_id"@),
        BuiltIn::SubgroupSize => Some("subgroup_size"@),
        BuiltIn::SubgroupInvocationId => Some("subgroup_invocation_id"@),
        _ => None,
    }
}

/// The written name of a built-in tag, or `None` for one WGSL has no
/// written form for.
pub fn builtin_str(b: &BuiltIn) -> (r: Option<&'static str>)
    ensures
        match r {
            Some(t) => builtin_token(*b) == Some(t@),
            None => builtin_token(*b) is None,
        },
{
    match b {
        BuiltIn::Position { .. } => Some("position"),
        BuiltIn::ViewIndex => Some("view_index"),
        BuiltIn::InstanceIndex => Some("instance_index"),
        BuiltIn::VertexIndex => Some("vertex_index"),
        BuiltIn::FragDepth => Some("frag_depth"),
        BuiltIn::FrontFacing => Some("front_facing"),
        BuiltIn::PrimitiveIndex => Some("primitive_index"),
        BuiltIn::SampleIndex => Some("sample_index"),
        BuiltIn::SampleMask => Some("sample_mask"),
        BuiltIn::GlobalInvocationId => Some("global_invocation_id"),
        BuiltIn::LocalInvocationId => Some("local_invocation_id"),
        BuiltIn::LocalInvocationIndex => Some("local_invocation_index"),
        BuiltIn::WorkGroupId => Some("workgroup_id"),
        BuiltIn::NumWorkGroups => Some("num_workgroups"),
        BuiltIn::NumSubgroups => Some("num_subgroups"),
        BuiltIn::SubgroupId => Some("subgroup_id"),
        BuiltIn::SubgroupSize => Some("subgroup_size"),
        BuiltIn::SubgroupInvocationId => Some("subgroup_invocation_id"),
        _ => None,
    }
}

/// The written name of an interpolation mode.
pub open spec fn interpolation_token(i: Interpolation) -> Seq<char> {
    match i {
        Interpolation::Perspective => "perspective"@,
        Interpolation::Linear => "linear"@,
        Interpolation::Flat => "flat"@,
    }
}

pub fn interpolation_str(i: Interpolation) -> (r: &'static str)
    ensures
        r@ == interpolation_token(i),
{
    match i {
        Interpolation::Perspective => "perspective",
        Interpolation::Linear => "linear",
        Interpolation::Flat => "flat",
    }
}

/// The written name of a sampling mode; center sampling is implied and
/// written as nothing.
pub open spec fn sampling_token(s: Sampling) -> Seq<char> {
    match s {
        Sampling::Center => ""@,
        Sampling::Centroid => "centroid"@,
        Sampling::Sample => "sample"@,
        Sampling::First => "first"@,
        Sampling::Either => "either"@,
    }
}

pub fn sampling_str(s: Sampling) -> (r: &'static str)
    ensures
        r@ == sampling_token(s),
{
    match s {
        Sampling::Center => "",
        Sampling::Centroid => "centroid",
        Sampling::Sample => "sample",
        Sampling::First => "first",
        Sampling::Either => "either",
    }
}

/// The written attributes of an optional binding: a built-in tag, or a
/// location with its interpolation where one is written out. A built-in
/// WGSL cannot write has no display.
pub open spec fn binding_text(binding: Option<Binding>) -> Option<Seq<char>> {
    match binding {
        None => Some(Seq::empty()),
        Some(Binding::BuiltIn(b)) => match builtin_token(b) {
            Some(t) => Some("@builtin("@ + t + ") "@),
            None => None,
        },
        Some(Binding::Location { location, second_blend_source, interpolation, sampling }) => {
            let head = "@location("@ + dec_nat(location as nat) + ") "@ + (
            if second_blend_source {
                "@second_blend_source "@
            } else {
                ""@
            });
            let interp: Seq<char> = if sampling is Some && sampling != Some(Sampling::Center) {
                "@interpolate("@ + interpolation_token(
                    match interpolation {
                        Some(i) => i,
                        None => Interpolation::Perspective,
                    },
                ) + ", "@ + sampling_token(sampling->Some_0) + ") "@
            } else if interpolation is Some && interpolation != Some(Interpolation::Perspective) {
                "@interpolate("@ + interpolation_token(interpolation->Some_0) + ") "@
            } else {
                ""@
            };
            Some(head + interp)
        },
    }
}

/// Render the attributes of an optional binding, or nothing for a
/// built-in that WGSL has no written form for.
pub fn display_binding(binding: &Option<Binding>) -> (r: Option<String>)
    ensures
        match r {
            Some(t) => binding_text(*binding) == Some(t@),
            None => binding_text(*binding) is None,
        },
{
    match binding {
        None => Some(String::new()),
        Some(Binding::BuiltIn(b)) => match builtin_str(b) {
            Some(t) => {
                let mut s = "@builtin(".to_owned();
                s.append(t);
                s.append(") ");
                Some(s)
            },
            None => None,
        },
        Some(Binding::Location { location, second_blend_source, interpolation, sampling }) => {
            let mut s = "@location(".to_owned();
            let loc = u32_to_string(*location);
            s.append(loc.as_str());
            s.append(") ");
            let sbs: &'static str = if *second_blend_source {
                "@second_blend_source "
            } else {
                ""
            };
            s.append(sbs);
            let with_sampling = match sampling {
                Some(Sampling::Center) => false,
                Some(_) => true,
                None => false,
            };
            if with_sampling {
                s.append("@interpolate(");
                let interp = match interpolation {
                    Some(i) => *i,
                    None => Interpolation::Perspective,
                };
                s.append(interpolation_str(interp));
                s.append(", ");
                let samp = match sampling {
                    Some(x) => *x,
                    None => Sampling::Center,
                };
                s.append(sampling_str(samp));
                s.append(") ");
                proof {
                    reveal_strlit("");
                    match binding_text(*binding) {
                        Some(e) => {
                            assert(s@ =~= e);
                        },
                        None => {
                            assert(false);
                        },
                    }
                }
            } else {
                let with_interp = match interpolation {
                    Some(Interpolation::Perspective) => false,
                    Some(_) => true,
                    None => false,
                };
                if with_interp {
                    s.append("@interpolate(");
                    let interp = match interpolation {
                        Some(i) => *i,
                        None => Interpolation::Perspective,
                    };
                    s.append(interpolation_str(interp));
                    s.append(") ");
                    proof {
                        reveal_strlit("");
                        match binding_text(*binding) {
                            Some(e) => {
                                assert(s@ =~= e);
                            },
                            None => {
                                assert(false);
                            },
                        }
                    }
                } else {
                    proof {
                        reveal_strlit("");
                        match binding_text(*binding) {
                            Some(e) => {
                                assert(s@ =~= e);
                            },
                            None => {
                                assert(false);
                            },
                        }
                    }
                }
            }
            Some(s)
        },
    }
}

/// What the documented markdown of a comment renders to as HTML;
/// a function of the comment text alone.
pub uninterp spec fn html_of(s: Seq<char>) -> Seq<char>;

/// Relies on markdown::to_html: compiles one markdown text to HTML, a
/// pure function of the text.
#[verifier::external_body]
fn markdown_to_html(s: &str) -> (r: String)
    ensures
        r@ == html_of(s@),
{
    markdown::to_html(s)
}

/// The HTML a declaration's comment renders to; no comment renders to
/// nothing.
pub fn to_html(comment: &Option<String>) -> (r: String)
    ensures
        match comment {
            Some(c) => r@ == html_of(c@),
            None => r@ == Seq::<char>::empty(),
        },
{
    match comment {
        Some(c) => markdown_to_html(c.as_str()),
        None => String::new(),
    }
}

/// Whether a supplied-value list holds the token name `n`.
pub open spec fn has_name(es: Seq<crate::model::DefEntry>, n: Seq<char>) -> bool {
    exists|k: int| 0 <= k < es.len() && (#[trigger] es[k]).name@ == n
}

/// The conditional-compilation values supplied for the build that no
/// module of the finished tree references: reported, never fatal.
pub fn unused_defs(doc: &Doc) -> (r: Vec<String>)
    ensures
        forall|t: int|
            0 <= t < r@.len() ==> has_name(doc.compiled_with@, (#[trigger] r@[t])@) && !has_str(
                doc.root.shader_defs@,
                r@[t]@,
            ),
        forall|k: int|
            0 <= k < doc.compiled_with@.len() && !has_str(
                doc.root.shader_defs@,
                (#[trigger] doc.compiled_with@[k]).name@,
            ) ==> has_str(r@, doc.compiled_with@[k].name@),
{
    let mut out: Vec<String> = Vec::new();
    let mut i: usize = 0;
    while i != doc.compiled_with.len()
        invariant
            i <= doc.compiled_with@.len(),
            forall|t: int|
                0 <= t < out@.len() ==> has_name(doc.compiled_with@, (#[trigger] out@[t])@)
                    && !has_str(doc.root.shader_defs@, out@[t]@),
            forall|k: int|
                0 <= k < i && !has_str(
                    doc.root.shader_defs@,
                    (#[trigger] doc.compiled_with@[k]).name@,
                ) ==> has_str(out@, doc.compiled_with@[k].name@),
        decreases doc.compiled_with@.len() - i,
    {
        let ghost out0 = out@;
        if !crate::post::contains_str(&doc.root.shader_defs, doc.compiled_with[i].name.as_str()) {
            out.push(doc.compiled_with[i].name.clone());
            proof {
                assert(out@[out@.len() - 1]@ == doc.compiled_with@[i as int].name@);
                assert(has_name(doc.compiled_with@, doc.compiled_with@[i as int].name@));
                assert forall|t: int| 0 <= t < out@.len() implies has_name(
                    doc.compiled_with@,
                    (#[trigger] out@[t])@,
                ) && !has_str(doc.root.shader_defs@, out@[t]@) by {
                    if t < out0.len() {
                        assert(out@[t] == out0[t]);
                    }
                }
                assert forall|k: int|
                    0 <= k < i + 1 && !has_str(
                        doc.root.shader_defs@,
                        (#[trigger] doc.compiled_with@[k]).name@,
                    ) implies has_str(out@, doc.compiled_with@[k].name@) by {
                    if k < i {
                        let w = choose|w: int|
                            0 <= w < out0.len() && (#[trigger] out0[w])@
                                == doc.compiled_with@[k].name@;
                        assert(out@[w]@ == doc.compiled_with@[k].name@);
                    } else {
                        assert(out@[out@.len() - 1]@ == doc.compiled_with@[k].name@);
                    }
                }
            }
        } else {
            proof {
                assert forall|k: int|
                    0 <= k < i + 1 && !has_str(
                        doc.root.shader_defs@,
                        (#[trigger] doc.compiled_with@[k]).name@,
                    ) implies has_str(out@, doc.compiled_with@[k].name@) by {}
            }
        }
        i = i + 1;
    }
    out
}


/// One breadcrumb segment of a rendered page: display name, link target,
/// and the kind of the linked item.
#[derive(Debug, PartialEq)]
pub struct PathSegment {
    pub name: String,
    pub href: String,
    pub kind: ItemKind,
}

/// The breadcrumb path of a rendered page, and how many directory levels
/// deep the page lives.
#[derive(Debug, PartialEq)]
pub struct ModulePath {
    pub segments: Vec<PathSegment>,
    pub level: usize,
}

impl ModulePath {
    /// The breadcrumb of a page one step further: each earlier link is
    /// pushed one directory up when the step descends into a child, and
    /// the new segment is appended.
    pub fn extend(&self, name: String, href: String, kind: ItemKind, is_child: bool) -> (r:
        ModulePath)
        requires
            is_child ==> self.level < usize::MAX,
        ensures
            r.segments@.len() == self.segments@.len() + 1,
            forall|i: int|
                0 <= i < self.segments@.len() ==> (#[trigger] r.segments@[i]).name
                    == self.segments@[i].name && r.segments@[i].kind == self.segments@[i].kind
                    && r.segments@[i].href@ == (if is_child {
                    "../"@ + self.segments@[i].href@
                } else {
                    self.segments@[i].href@
                }),
            r.segments@.last().name == name && r.segments@.last().href == href
                && r.segments@.last().kind == kind,
            r.level == if is_child {
                self.level + 1
            } else {
                self.level as int
            },
    {
        let mut segments: Vec<PathSegment> = Vec::new();
        let mut i: usize = 0;
        while i != self.segments.len()
            invariant
                i <= self.segments@.len(),
                segments@.len() == i,
                forall|t: int|
                    0 <= t < i ==> (#[trigger] segments@[t]).name == self.segments@[t].name
                        && segments@[t].kind == self.segments@[t].kind && segments@[t].href@ == (
                    if is_child {
                        "../"@ + self.segments@[t].href@
                    } else {
                        self.segments@[t].href@
                    }),
            decreases self.segments@.len() - i,
        {
            let seg = &self.segments[i];
            let href = if is_child {
                let mut h = "../".to_owned();
                h.append(seg.href.as_str());
                h
            } else {
                seg.href.clone()
            };
            segments.push(PathSegment { name: seg.name.clone(), href, kind: seg.kind });
            i = i + 1;
        }
        segments.push(PathSegment { name, href, kind });
        let level = if is_child {
            self.level + 1
        } else {
            self.level
        };
        ModulePath { segments, level }
    }
}

/// The style class of the last breadcrumb segment; earlier segments
/// carry none.
pub open spec fn path_class_token(kind: ItemKind, last: bool) -> Seq<char> {
    if !last {
        ""@
    } else {
        match kind {
            ItemKind::Module => "module"@,
            ItemKind::Constant => "const"@,
            ItemKind::GlobalVariable => "var"@,
            ItemKind::Struct => "struct"@,
            ItemKind::Function => "fn"@,
        }
    }
}

pub fn module_path_class(kind: &ItemKind, last: &bool) -> (r: &'static str)
    ensures
        r@ == path_class_token(*kind, *last),
{
    if !*last {
        return "";
    }
    match kind {
        ItemKind::Module => "module",
        ItemKind::Constant => "const",
        ItemKind::GlobalVariable => "var",
        ItemKind::Struct => "struct",
        ItemKind::Function => "fn",
    }
}

/// The stored form of the version list script.
pub fn wrap_common_js(json: &str) -> (r: String)
    ensures
        r@ == "window.DOCS_COMMON = "@ + json@ + ";\n"@,
{
    let mut s = "window.DOCS_COMMON = ".to_owned();
    s.append(json);
    s.append(";\n");
    s
}

/// The stored form of the item index script.
pub fn wrap_items_js(json: &str) -> (r: String)
    ensures
        r@ == "window.DOCS_ITEMS = "@ + json@ + ";\n"@,
{
    let mut s = "window.DOCS_ITEMS = ".to_owned();
    s.append(json);
    s.append(";\n");
    s
}


/// Whether a build is the newest among the versions already published.
pub fn version_is_latest(v: &crate::model::Version, existing: &Vec<crate::model::Version>) -> (r:
    bool)
    ensures
        r <==> forall|i: int|
            0 <= i < existing@.len() ==> crate::model::version_le(#[trigger] existing@[i], *v),
{
    let mut i: usize = 0;
    while i != existing.len()
        invariant
            i <= existing@.len(),
            forall|t: int| 0 <= t < i ==> crate::model::version_le(#[trigger] existing@[t], *v),
        decreases existing@.len() - i,
    {
        if !existing[i].le(v) {
            return false;
        }
        i = i + 1;
    }
    true
}

/// Whether a version list is sorted newest first, without repetition.
pub open spec fn versions_desc(vs: Seq<crate::model::Version>) -> bool {
    forall|i: int, j: int|
        0 <= i < j < vs.len() ==> crate::model::version_le(#[trigger] vs[j], #[trigger] vs[i])
            && vs[i] != vs[j]
}

/// Fold one more version into the published list: newest first, each
/// version once.
pub fn merge_versions(existing: Vec<crate::model::Version>, current: crate::model::Version) -> (r:
    Vec<crate::model::Version>)
    requires
        versions_desc(existing@),
    ensures
        versions_desc(r@),
        forall|i: int| 0 <= i < r@.len() ==> existing@.contains(#[trigger] r@[i]) || r@[i]
            == current,
        forall|i: int| 0 <= i < existing@.len() ==> r@.contains(#[trigger] existing@[i]),
        r@.contains(current),
{
    let mut out: Vec<crate::model::Version> = Vec::new();
    let mut placed = false;
    let mut i: usize = 0;
    #[verifier::loop_isolation(false)]
    while i != existing.len()
        invariant
            i <= existing@.len(),
            versions_desc(out@),
            forall|t: int| 0 <= t < out@.len() ==> existing@.contains(#[trigger] out@[t])
                || out@[t] == current,
            forall|t: int| 0 <= t < i ==> out@.contains(#[trigger] existing@[t]),
            placed ==> out@.contains(current),
            // everything seen so far sits in the output in order
            forall|t: int, u: int|
                0 <= t < out@.len() && i <= u < existing@.len() ==> crate::model::version_le(
                    #[trigger] existing@[u],
                    #[trigger] out@[t],
                ) && out@[t] != existing@[u],
            !placed ==> forall|t: int|
                0 <= t < out@.len() ==> crate::model::version_le(current, #[trigger] out@[t])
                    && out@[t] != current,
        decreases existing@.len() - i,
    {
        let ghost out_start = out@;
        let ghost placed_start = placed;
        let e = existing[i];
        let mut pushed_current = false;
        if !placed {
            if e == current {
                placed = true;
            } else if e.le(&current) {
                out.push(current);
                placed = true;
                pushed_current = true;
            }
        }
        out.push(e);
        proof {
            assert(existing@.contains(existing@[i as int]));
            assert(out@[out@.len() - 1] == existing@[i as int]);
            assert forall|t: int| 0 <= t < i + 1 implies out@.contains(
                #[trigger] existing@[t],
            ) by {
                if t < i {
                    let w = choose|w: int|
                        0 <= w < out_start.len() && #[trigger] out_start[w] == existing@[t];
                    assert(out@[w] == existing@[t]);
                } else {
                    assert(out@[out@.len() - 1] == existing@[t]);
                }
            }
            if placed {
                assert(out@.contains(current)) by {
                    if placed_start {
                        let w = choose|w: int|
                            0 <= w < out_start.len() && #[trigger] out_start[w] == current;
                        assert(out@[w] == current);
                    } else if pushed_current {
                        assert(out@[out@.len() - 2] == current);
                    } else {
                        assert(out@[out@.len() - 1] == current);
                    }
                }
            }
            assert forall|t: int, u: int|
                0 <= t < out@.len() && i + 1 <= u < existing@.len() implies crate::model::version_le(
                #[trigger] existing@[u],
                #[trigger] out@[t],
            ) && out@[t] != existing@[u] by {
                assert(crate::model::version_le(existing@[u], existing@[i as int]));
                assert(existing@[i as int] != existing@[u]);
                if t < out_start.len() {
                    assert(out@[t] == out_start[t]);
                } else if out@[t] == existing@[i as int] {
                } else {
                    assert(out@[t] == current);
                    assert(crate::model::version_le(existing@[i as int], current));
                    assert(crate::model::version_le(existing@[u], current));
                    assert(current != existing@[u]) by {
                        if current == existing@[u] {
                            assert(crate::model::version_le(current, existing@[i as int]));
                        }
                    }
                }
            }
        }
        i = i + 1;
    }
    let ghost before = out@;
    if !placed {
        out.push(current);
    }
    proof {
        assert(out@.contains(current)) by {
            if placed {
                let w = choose|w: int| 0 <= w < before.len() && #[trigger] before[w] == current;
                assert(out@[w] == current);
            } else {
                assert(out@[out@.len() - 1] == current);
            }
        }
        assert forall|t: int| 0 <= t < existing@.len() implies out@.contains(
            #[trigger] existing@[t],
        ) by {
            let w = choose|w: int| 0 <= w < before.len() && #[trigger] before[w] == existing@[t];
            assert(out@[w] == existing@[t]);
        }
    }
    out
}

} // verus!
