//! Ghost mirror of the module tree. Declarations stay as their executable
//! values; only the recursive module structure is lifted to `Seq`, so that
//! contracts can speak about whole trees.
use vstd::prelude::*;

use crate::model::{Constant, Doc, DefEntry, Function, GlobalVariable, Module, Struct};

verus! {

/// The ghost image of one module node.
#[verifier::ext_equal]
pub ghost struct ModuleV {
    pub name: String,
    pub source_url: Option<String>,
    pub modules: Seq<ModuleV>,
    pub constants: Seq<Constant>,
    pub global_variables: Seq<GlobalVariable>,
    pub structs: Seq<Struct>,
    pub functions: Seq<Function>,
    pub shader_defs: Seq<String>,
}

/// The ghost image of a whole documentation tree.
#[verifier::ext_equal]
pub ghost struct DocV {
    pub version: crate::model::Version,
    pub root: ModuleV,
    pub compiled_with: Seq<DefEntry>,
}

/// The ghost image of a module.
pub open spec fn view_module(m: Module) -> ModuleV
    decreases m,
{
    ModuleV {
        name: m.name,
        source_url: m.source_url,
        modules: view_modules(m.modules@),
        constants: m.constants@,
        global_variables: m.global_variables@,
        structs: m.structs@,
        functions: m.functions@,
        shader_defs: m.shader_defs@,
    }
}

/// The ghost images of a sequence of modules, element by element.
pub open spec fn view_modules(ms: Seq<Module>) -> Seq<ModuleV>
    decreases ms,
{
    if ms.len() == 0 {
        Seq::empty()
    } else {
        view_modules(ms.drop_last()).push(view_module(ms.last()))
    }
}

/// The ghost image of a documentation tree.
pub open spec fn view_doc(d: Doc) -> DocV {
    DocV { version: d.version, root: view_module(d.root), compiled_with: d.compiled_with@ }
}

pub broadcast proof fn lemma_view_modules_len(ms: Seq<Module>)
    ensures
        #[trigger] view_modules(ms).len() == ms.len(),
    decreases ms,
{
    if ms.len() > 0 {
        lemma_view_modules_len(ms.drop_last());
    }
}

pub broadcast proof fn lemma_view_modules_index(ms: Seq<Module>, i: int)
    requires
        0 <= i < ms.len(),
    ensures
        #[trigger] view_modules(ms)[i] == view_module(ms[i]),
    decreases ms,
{
    lemma_view_modules_len(ms);
    if i == ms.len() - 1 {
    } else {
        lemma_view_modules_index(ms.drop_last(), i);
    }
}

pub broadcast proof fn lemma_view_modules_push(ms: Seq<Module>, m: Module)
    ensures
        #[trigger] view_modules(ms.push(m)) == view_modules(ms).push(view_module(m)),
{
    assert(ms.push(m).drop_last() =~= ms);
    assert(ms.push(m).last() == m);
}

} // verus!
