//! The namespace tree: `::`-delimited paths, find-or-create descent, and
//! merging one unit's lowered declarations into its target module.
use vstd::prelude::*;
use vstd::string::*;

use crate::model::{Constant, Doc, Function, GlobalVariable, Module, Struct};
use crate::post::{has_str, spec_extend, extend_unique};
use crate::text::str_eq;
use crate::views::{lemma_view_modules_index, lemma_view_modules_len, lemma_view_modules_push,
    view_module, view_modules, ModuleV};

verus! {

broadcast use lemma_view_modules_len, lemma_view_modules_index;

/// Whether a `::` separator starts at position `i`.
pub open spec fn sep_at(s: Seq<char>, i: int) -> bool {
    0 <= i && i + 2 <= s.len() && s[i] == ':' && s[i + 1] == ':'
}

/// The position of the first `::` separator, or -1.
pub open spec fn first_sep(s: Seq<char>) -> int
    decreases s.len(),
{
    if s.len() < 2 {
        -1
    } else if s[0] == ':' && s[1] == ':' {
        0
    } else {
        let r = first_sep(s.skip(1));
        if r < 0 {
            -1
        } else {
            r + 1
        }
    }
}

pub proof fn lemma_first_sep_bound(s: Seq<char>)
    ensures
        first_sep(s) >= 0 ==> first_sep(s) + 2 <= s.len(),
        first_sep(s) >= -1,
    decreases s.len(),
{
    if s.len() >= 2 && !(s[0] == ':' && s[1] == ':') {
        lemma_first_sep_bound(s.skip(1));
    }
}

/// A namespace path split at every `::`.
pub open spec fn split_path(s: Seq<char>) -> Seq<Seq<char>>
    decreases s.len(),
    via split_path_decreases
{
    let i = first_sep(s);
    if i < 0 {
        seq![s]
    } else {
        seq![s.take(i)] + split_path(s.skip(i + 2))
    }
}

#[via_fn]
proof fn split_path_decreases(s: Seq<char>) {
    lemma_first_sep_bound(s);
}

proof fn lemma_first_sep_none(s: Seq<char>)
    requires
        forall|i: int| !sep_at(s, i),
    ensures
        first_sep(s) == -1,
    decreases s.len(),
{
    if s.len() >= 2 {
        assert(!sep_at(s, 0));
        assert forall|i: int| !sep_at(s.skip(1), i) by {
            if sep_at(s.skip(1), i) {
                assert(sep_at(s, i + 1));
            }
        }
        lemma_first_sep_none(s.skip(1));
    }
}

proof fn lemma_first_sep_at(s: Seq<char>, k: int)
    requires
        sep_at(s, k),
        forall|j: int| 0 <= j < k ==> !sep_at(s, j),
    ensures
        first_sep(s) == k,
    decreases s.len(),
{
    if k == 0 {
    } else {
        assert(!sep_at(s, 0));
        assert(sep_at(s.skip(1), k - 1));
        assert forall|j: int| 0 <= j < k - 1 implies !sep_at(s.skip(1), j) by {
            if sep_at(s.skip(1), j) {
                assert(sep_at(s, j + 1));
            }
        }
        lemma_first_sep_at(s.skip(1), k - 1);
    }
}

fn find_first_sep(s: &str, from: usize) -> (r: Option<usize>)
    requires
        from <= s@.len(),
    ensures
        match r {
            Some(i) => from <= i && sep_at(s@, i as int) && forall|j: int|
                from <= j < i ==> !sep_at(s@, j),
            None => forall|j: int| from <= j ==> !sep_at(s@, j),
        },
{
    let n = s.unicode_len();
    let mut i = from;
    loop
        invariant
            from <= i,
            i <= n,
            n == s@.len(),
            forall|j: int| from <= j < i ==> !sep_at(s@, j),
        decreases n - i,
    {
        if n - i < 2 {
            proof {
                assert forall|j: int| from <= j implies !sep_at(s@, j) by {
                    if j < i {
                    } else {
                        assert(j + 2 > s@.len());
                    }
                }
            }
            return None;
        }
        if s.get_char(i) == ':' && s.get_char(i + 1) == ':' {
            return Some(i);
        }
        i = i + 1;
    }
}

fn split_namespace_from(s: &str, from: usize) -> (r: Vec<String>)
    requires
        from <= s@.len(),
    ensures
        r.deep_view() == split_path(s@.skip(from as int)),
    decreases s@.len() - from,
{
    let n = s.unicode_len();
    match find_first_sep(s, from) {
        None => {
            let seg = s.substring_char(from, n).to_owned();
            let mut out: Vec<String> = Vec::new();
            out.push(seg);
            proof {
                let tail = s@.skip(from as int);
                assert forall|j: int| !sep_at(tail, j) by {
                    if sep_at(tail, j) {
                        assert(tail[j] == s@[from + j]);
                        assert(tail[j + 1] == s@[from + j + 1]);
                        assert(sep_at(s@, from + j));
                    }
                }
                lemma_first_sep_none(tail);
                assert(out.deep_view() =~= split_path(tail));
            }
            out
        },
        Some(i) => {
            let seg = s.substring_char(from, i).to_owned();
            let mut rest = split_namespace_from(s, i + 2);
            rest.insert(0, seg);
            proof {
                let tail = s@.skip(from as int);
                let k = i - from;
                assert(sep_at(tail, k as int)) by {
                    assert(tail[k as int] == s@[i as int]);
                    assert(tail[k as int + 1] == s@[i as int + 1]);
                }
                assert forall|j: int| 0 <= j < k implies !sep_at(tail, j) by {
                    if sep_at(tail, j) {
                        assert(tail[j] == s@[from + j]);
                        assert(tail[j + 1] == s@[from + j + 1]);
                        assert(sep_at(s@, from + j));
                    }
                }
                lemma_first_sep_at(tail, k as int);
                assert(tail.take(k as int) =~= s@.subrange(from as int, i as int));
                assert(tail.skip(k as int + 2) =~= s@.skip(i + 2));
                assert(rest.deep_view() =~= split_path(tail));
            }
            rest
        },
    }
}

/// Split a namespace path at every `::`.
pub fn split_namespace(s: &str) -> (r: Vec<String>)
    ensures
        r.deep_view() == split_path(s@),
{
    let r = split_namespace_from(s, 0);
    proof {
        assert(s@.skip(0) =~= s@);
    }
    r
}

/// The declarations one unit contributes to its target module.
pub struct UnitPayload {
    pub source_url: Option<String>,
    pub constants: Vec<Constant>,
    pub global_variables: Vec<GlobalVariable>,
    pub structs: Vec<Struct>,
    pub functions: Vec<Function>,
    pub shader_defs: Vec<String>,
}

/// The ghost image of a unit's contribution.
#[verifier::ext_equal]
pub ghost struct PayloadV {
    pub source_url: Option<String>,
    pub constants: Seq<Constant>,
    pub global_variables: Seq<GlobalVariable>,
    pub structs: Seq<Struct>,
    pub functions: Seq<Function>,
    pub shader_defs: Seq<String>,
}

pub open spec fn payload_view(p: UnitPayload) -> PayloadV {
    PayloadV {
        source_url: p.source_url,
        constants: p.constants@,
        global_variables: p.global_variables@,
        structs: p.structs@,
        functions: p.functions@,
        shader_defs: p.shader_defs@,
    }
}

/// A module node extended by one unit's contribution: declaration lists
/// appended, tokens united, and the source location set when one is given.
pub open spec fn apply_payload(m: ModuleV, p: PayloadV) -> ModuleV {
    ModuleV {
        name: m.name,
        source_url: if p.source_url is Some {
            p.source_url
        } else {
            m.source_url
        },
        modules: m.modules,
        constants: m.constants + p.constants,
        global_variables: m.global_variables + p.global_variables,
        structs: m.structs + p.structs,
        functions: m.functions + p.functions,
        shader_defs: spec_extend(m.shader_defs, p.shader_defs),
    }
}

/// The index of the first child whose name reads as `name`, or -1.
pub open spec fn child_first_index(ms: Seq<ModuleV>, name: Seq<char>) -> int
    decreases ms.len(),
{
    if ms.len() == 0 {
        -1
    } else if ms[0].name@ == name {
        0
    } else {
        let r = child_first_index(ms.skip(1), name);
        if r < 0 {
            -1
        } else {
            r + 1
        }
    }
}

proof fn lemma_child_index_none(ms: Seq<ModuleV>, name: Seq<char>)
    requires
        forall|i: int| 0 <= i < ms.len() ==> (#[trigger] ms[i]).name@ != name,
    ensures
        child_first_index(ms, name) == -1,
    decreases ms.len(),
{
    if ms.len() > 0 {
        lemma_child_index_none(ms.skip(1), name);
    }
}

proof fn lemma_child_index_at(ms: Seq<ModuleV>, name: Seq<char>, k: int)
    requires
        0 <= k < ms.len(),
        ms[k].name@ == name,
        forall|i: int| 0 <= i < k ==> (#[trigger] ms[i]).name@ != name,
    ensures
        child_first_index(ms, name) == k,
    decreases ms.len(),
{
    if k > 0 {
        assert(ms.skip(1)[k - 1] == ms[k]);
        assert forall|i: int| 0 <= i < k - 1 implies (#[trigger] ms.skip(1)[i]).name@ != name by {
            assert(ms.skip(1)[i] == ms[i + 1]);
        }
        lemma_child_index_at(ms.skip(1), name, k - 1);
    }
}

/// A fresh, empty module node.
pub open spec fn empty_module_v(name: String) -> ModuleV {
    ModuleV {
        name: name,
        source_url: None,
        modules: Seq::empty(),
        constants: Seq::empty(),
        global_variables: Seq::empty(),
        structs: Seq::empty(),
        functions: Seq::empty(),
        shader_defs: Seq::empty(),
    }
}

/// The tree after placing a unit's contribution at the module named by
/// `path`, creating each missing node on the way (find-or-create).
/// A declaration's parent node is determined by this caller-supplied
/// path alone, never by anything inside the compiled unit.
pub open spec fn spec_place(m: ModuleV, path: Seq<String>, p: PayloadV) -> ModuleV
    decreases path.len(),
{
    if path.len() == 0 {
        apply_payload(m, p)
    } else {
        let i = child_first_index(m.modules, path[0]@);
        if i >= 0 {
            ModuleV {
                name: m.name,
                source_url: m.source_url,
                modules: m.modules.update(i, spec_place(m.modules[i], path.skip(1), p)),
                constants: m.constants,
                global_variables: m.global_variables,
                structs: m.structs,
                functions: m.functions,
                shader_defs: m.shader_defs,
            }
        } else {
            ModuleV {
                name: m.name,
                source_url: m.source_url,
                modules: m.modules.push(spec_place(empty_module_v(path[0]), path.skip(1), p)),
                constants: m.constants,
                global_variables: m.global_variables,
                structs: m.structs,
                functions: m.functions,
                shader_defs: m.shader_defs,
            }
        }
    }
}

fn find_child(ms: &Vec<Module>, name: &str) -> (r: Option<usize>)
    ensures
        match r {
            Some(i) => i < ms@.len() && child_first_index(view_modules(ms@), name@) == i,
            None => child_first_index(view_modules(ms@), name@) == -1,
        },
{
    let mut i: usize = 0;
    while i != ms.len()
        invariant
            i <= ms@.len(),
            forall|j: int| 0 <= j < i ==> (#[trigger] ms@[j]).name@ != name@,
        decreases ms@.len() - i,
    {
        if str_eq(ms[i].name.as_str(), name) {
            proof {
                assert forall|j: int|
                    0 <= j < i implies (#[trigger] view_modules(ms@)[j]).name@ != name@ by {
                    assert(view_modules(ms@)[j] == view_module(ms@[j]));
                }
                assert(view_modules(ms@)[i as int].name@ == name@);
                lemma_child_index_at(view_modules(ms@), name@, i as int);
            }
            return Some(i);
        }
        i = i + 1;
    }
    proof {
        assert forall|j: int|
            0 <= j < ms@.len() implies (#[trigger] view_modules(ms@)[j]).name@ != name@ by {
            assert(view_modules(ms@)[j] == view_module(ms@[j]));
        }
        lemma_child_index_none(view_modules(ms@), name@);
    }
    None
}

fn place_from(m: Module, path: &Vec<String>, from: usize, payload: UnitPayload) -> (r: Module)
    requires
        from <= path@.len(),
    ensures
        view_module(r) == spec_place(view_module(m), path@.skip(from as int), payload_view(
            payload,
        )),
    decreases path@.len() - from,
{
    let ghost mv = view_module(m);
    if from == path.len() {
        let UnitPayload {
            source_url,
            constants,
            global_variables,
            structs,
            functions,
            shader_defs,
        } = payload;
        let mut m = m;
        if let Some(url) = source_url {
            m.source_url = Some(url);
        }
        let mut constants = constants;
        let mut global_variables = global_variables;
        let mut structs = structs;
        let mut functions = functions;
        m.constants.append(&mut constants);
        m.global_variables.append(&mut global_variables);
        m.structs.append(&mut structs);
        m.functions.append(&mut functions);
        let defs = extend_unique(m.shader_defs, &shader_defs);
        m.shader_defs = defs;
        proof {
            assert(path@.skip(from as int) =~= Seq::<String>::empty());
            assert(view_module(m) =~~= apply_payload(mv, payload_view(payload)));
        }
        m
    } else {
        let ghost tail = path@.skip(from as int);
        proof {
            assert(tail[0] == path@[from as int]);
            assert(tail.skip(1) =~= path@.skip(from + 1));
        }
        let mut m = m;
        match find_child(&m.modules, path[from].as_str()) {
            Some(idx) => {
                let ghost orig = m.modules@;
                let ghost ii = idx as int;
                let child = m.modules.remove(idx);
                proof {
                    assert(child == orig[ii]);
                }
                let child = place_from(child, path, from + 1, payload);
                let ghost removed = m.modules@;
                m.modules.insert(idx, child);
                proof {
                    assert(m.modules@ =~= removed.insert(ii, child));
                    removed.insert_ensures(ii, child);
                    orig.remove_ensures(ii);
                    assert(m.modules@ =~= orig.update(ii, child)) by {
                        assert forall|t: int| 0 <= t < m.modules@.len() implies m.modules@[t]
                            == orig.update(ii, child)[t] by {
                            if t < ii {
                                assert(m.modules@[t] == removed[t]);
                                assert(removed[t] == orig[t]);
                            } else if t == ii {
                                assert(m.modules@[t] == child);
                            } else {
                                assert(m.modules@[t] == removed[t - 1]);
                                assert(removed[t - 1] == orig[t]);
                            }
                        }
                    }
                    assert(view_modules(m.modules@) =~= view_modules(orig).update(
                        ii,
                        view_module(child),
                    )) by {
                        assert forall|t: int| 0 <= t < m.modules@.len() implies view_modules(
                            m.modules@,
                        )[t] == view_modules(orig).update(ii, view_module(child))[t] by {
                            lemma_view_modules_index(m.modules@, t);
                            lemma_view_modules_index(orig, t);
                        }
                    }
                    assert(view_modules(orig) == mv.modules);
                    assert(view_module(m) =~~= spec_place(mv, tail, payload_view(payload)));
                }
                m
            },
            None => {
                let fresh = Module::new(path[from].clone());
                proof {
                    assert(view_module(fresh) =~~= empty_module_v(path@[from as int]));
                }
                let fresh = place_from(fresh, path, from + 1, payload);
                proof {
                    lemma_view_modules_push(m.modules@, fresh);
                }
                m.modules.push(fresh);
                proof {
                    assert(view_module(m) =~~= spec_place(mv, tail, payload_view(payload)));
                }
                m
            },
        }
    }
}

/// Place one unit's contribution at the module named by `path`
/// (relative to the root), creating missing nodes on the way.
pub fn place_unit(root: Module, path: &Vec<String>, payload: UnitPayload) -> (r: Module)
    ensures
        view_module(r) == spec_place(view_module(root), path@, payload_view(payload)),
{
    let r = place_from(root, path, 0, payload);
    proof {
        assert(path@.skip(0) =~= path@);
    }
    r
}

/// The contribution of a unit that declares nothing.
pub open spec fn empty_payload_v() -> PayloadV {
    PayloadV {
        source_url: None,
        constants: Seq::empty(),
        global_variables: Seq::empty(),
        structs: Seq::empty(),
        functions: Seq::empty(),
        shader_defs: Seq::empty(),
    }
}

/// An empty contribution, used when a namespace path is created
/// without declarations.
pub fn empty_payload() -> (p: UnitPayload)
    ensures
        payload_view(p) == empty_payload_v(),
{
    let p = UnitPayload {
        source_url: None,
        constants: Vec::new(),
        global_variables: Vec::new(),
        structs: Vec::new(),
        functions: Vec::new(),
        shader_defs: Vec::new(),
    };
    proof {
        assert(payload_view(p) =~~= empty_payload_v());
    }
    p
}

/// Split the import path and make sure the module it names exists,
/// creating every missing node on the way. Returns the path segments
/// beside the grown tree.
pub fn find_or_create_module(doc: Doc, import_path: &str) -> (r: (Doc, Vec<String>))
    ensures
        r.1.deep_view() == split_path(import_path@),
        view_module(r.0.root) == spec_place(view_module(doc.root), r.1@, empty_payload_v()),
        r.0.version == doc.version,
        r.0.compiled_with == doc.compiled_with,
{
    let segments = split_namespace(import_path);
    let Doc { version, root, compiled_with } = doc;
    let payload = empty_payload();
    let root = place_unit(root, &segments, payload);
    (Doc { version, root, compiled_with }, segments)
}

} // verus!
