//! The boundary to the external composition engine. The engine registers
//! composable units and compiles fully resolved units into its IR; only
//! the registration calls are made from verified code, through the trusted
//! wrappers below.
use vstd::prelude::*;

use crate::model::DefEntry;
use naga_oil::compose::ShaderDefValue as EngineDefValue;

verus! {

#[verifier::external_type_specification]
#[verifier::external_body]
pub struct ExComposer(naga_oil::compose::Composer);

#[verifier::external_type_specification]
#[verifier::external_body]
pub struct ExComposerError(naga_oil::compose::ComposerError);

/// The engine spends a fixed span budget per module and aborts at this
/// many registered modules, so a caller keeps the table strictly below it.
pub const ENGINE_MODULE_LIMIT: usize = 2047;

/// The set of module names the engine knows: the key set of its module
/// table.
pub uninterp spec fn composer_modules(c: naga_oil::compose::Composer) -> Set<Seq<char>>;

/// Relies on naga_oil's `Composer::default`: a fresh engine whose module
/// table is empty.
#[verifier::external_body]
pub(crate) fn composer_new() -> (c: naga_oil::compose::Composer)
    ensures
        composer_modules(c) == Set::<Seq<char>>::empty(),
{
    naga_oil::compose::Composer::default()
}

/// Relies on naga_oil's `Composer::add_composable_module`: it registers
/// one composable unit under the given name; every module the unit
/// imports must already be known. On success the engine knows the name.
/// Registering a name the engine already knows replaces the old
/// registration, and the engine then drops every module that depended on
/// it, so the final table can lose members but stays within the old
/// table plus the name; a fresh name only grows the table. Every failure
/// (a parse or validation error, a missing import) is reported before
/// the table is touched. The engine aborts outright at its span budget,
/// so the table must stay below `ENGINE_MODULE_LIMIT` entries.
#[verifier::external_body]
pub(crate) fn add_composable_module(
    composer: &mut naga_oil::compose::Composer,
    as_name: &str,
    source: &str,
    file_path: &str,
    shader_defs: &Vec<DefEntry>,
) -> (r: Result<(), naga_oil::compose::ComposerError>)
    requires
        composer_modules(*old(composer)).finite(),
        composer_modules(*old(composer)).len() < ENGINE_MODULE_LIMIT,
    ensures
        composer_modules(*final(composer)).finite(),
        r is Ok ==> composer_modules(*final(composer)).contains(as_name@)
            && composer_modules(*final(composer)).subset_of(
            composer_modules(*old(composer)).insert(as_name@),
        ),
        r is Ok && !composer_modules(*old(composer)).contains(as_name@) ==> composer_modules(
            *final(composer),
        ) == composer_modules(*old(composer)).insert(as_name@),
        r is Err ==> composer_modules(*final(composer)) == composer_modules(*old(composer)),
{
    let defs = shader_defs.iter().map(|e| (e.name.clone(), match e.value {
        crate::model::ShaderDefValue::Bool(b) => EngineDefValue::Bool(b),
        crate::model::ShaderDefValue::Int(v) => EngineDefValue::Int(v),
        crate::model::ShaderDefValue::UInt(v) => EngineDefValue::UInt(v),
    })).collect();
    composer.add_composable_module(naga_oil::compose::ComposableModuleDescriptor {
        source, file_path, language: naga_oil::compose::ShaderLanguage::Wgsl,
        as_name: Some(as_name.to_string()), additional_imports: &[], shader_defs: defs,
    }).map(|_| ())
}

} // verus!
