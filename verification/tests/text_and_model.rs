use shader_docs::model::{AddressSpace, DefEntry, Expression, Ident, Literal, ShaderDefValue,
    Version};
use shader_docs::text::{i64_to_string, str_eq, str_le, u64_to_string};
use shader_docs::{CrateLocalPath, CrateLocation, CratesIoIdentifier};

#[test]
fn decimal_rendering() {
    assert_eq!(u64_to_string(0).as_str(), "0");
    assert_eq!(u64_to_string(10).as_str(), "10");
    assert_eq!(u64_to_string(90321).as_str(), "90321");
    assert_eq!(i64_to_string(-42).as_str(), "-42");
    assert_eq!(i64_to_string(i64::MIN).as_str(), "-9223372036854775808");
    assert_eq!(i64_to_string(7).as_str(), "7");
}

#[test]
fn string_order() {
    assert!(str_le("a", "b"));
    assert!(str_le("abc", "abd"));
    assert!(!str_le("b", "ab"));
    assert!(str_le("", "x"));
    assert!(str_le("same", "same"));
    assert!(str_eq("same", "same"));
    assert!(!str_eq("same", "Same"));
}

#[test]
fn shader_def_value_text() {
    assert_eq!(ShaderDefValue::Bool(true).text().as_str(), "true");
    assert_eq!(ShaderDefValue::Bool(false).text().as_str(), "false");
    assert_eq!(ShaderDefValue::Int(-3).text().as_str(), "-3i");
    assert_eq!(ShaderDefValue::UInt(4).text().as_str(), "4u");
}

#[test]
fn address_space_text() {
    assert_eq!(AddressSpace::Function.text().as_str(), "<function>");
    assert_eq!(AddressSpace::WorkGroup.text().as_str(), "<workgroup>");
    assert_eq!(AddressSpace::Storage { load: true, store: true }.text().as_str(),
        "<storage, read_write>");
    assert_eq!(AddressSpace::Storage { load: true, store: false }.text().as_str(), "<storage>");
    assert_eq!(AddressSpace::Handle.text().as_str(), "");
    assert_eq!(AddressSpace::PushConstant.text().as_str(), "<push_constant>");
}

#[test]
fn literal_and_expression_text() {
    assert_eq!(Expression::Unknown.text().as_str(), "..");
    assert_eq!(Expression::Literal(Literal::U32(7)).text().as_str(), "7");
    assert_eq!(Expression::Literal(Literal::I64(-9)).text().as_str(), "-9");
    assert_eq!(Expression::Literal(Literal::F32("1.5".to_string())).text().as_str(), "1.5");
    assert_eq!(Ident::Named("foo".to_string()).text().as_str(), "foo");
    assert_eq!(Ident::Unnamed.text().as_str(), "unknown");
}

#[test]
fn version_text_and_order() {
    let a = Version::new(0, 14, 2);
    let b = Version::new(0, 15, 0);
    assert_eq!(a.text().as_str(), "0.14.2");
    assert!(a.le(&b));
    assert!(!b.le(&a));
    assert!(a.le(&a));
}

#[test]
fn crate_location_name() {
    let local = CrateLocation::Local(CrateLocalPath { path: "work/crates/bevy".to_string() });
    assert_eq!(local.name().as_str(), "bevy");
    // trailing separators do not hide the file name
    let slashed = CrateLocation::Local(CrateLocalPath { path: "./bevy/".to_string() });
    assert_eq!(slashed.name().as_str(), "bevy");
    let reg = CrateLocation::CratesIo(CratesIoIdentifier { name: "bevy".to_string() });
    assert_eq!(reg.name().as_str(), "bevy");
}

#[test]
fn download_url() {
    let url = shader_docs::crates_io_download_url("bevy", &Version::new(0, 15, 0));
    assert_eq!(url.as_str(), "https://static.crates.io/crates/bevy/bevy-0.15.0.crate");
}

#[test]
fn backend_minor_versions() {
    assert_eq!(shader_docs::CompilerBackend::V0_15.naga_oil_minor(), 15);
    assert_eq!(shader_docs::CompilerBackend::V0_08.naga_oil_minor(), 8);
}

#[test]
fn def_entry_holds_value() {
    let e = DefEntry { name: "MAX".to_string(), value: ShaderDefValue::UInt(10) };
    assert_eq!(e.name.as_str(), "MAX");
    assert_eq!(e.value, ShaderDefValue::UInt(10));
}
