use strict_types::stl::{
    _std_sym, catalog_entry, roster_name, std_stl, std_sym, try_std_stl, LIB_ID_BITCOIN,
    LIB_ID_BITCOIN_TX, LIB_ID_STD, LIB_ID_STRICT_TYPES,
};
use strict_types::{TypeExpr, TypeLibId};

#[test]
fn std_lib_id() {
    let lib = std_stl();
    assert_eq!(lib.id().to_string(), LIB_ID_STD);
}

#[test]
fn std_sym_holds_the_catalogue_in_order_of_name() {
    let lib = std_sym();
    assert_eq!(lib.name(), "Std");
    assert_eq!(lib.len(), 31);
    let names = lib.type_names();
    let mut sorted = names.clone();
    sorted.sort();
    assert_eq!(names, sorted);
    assert_eq!(names[0], "Alpha");
    assert!(names.contains(&"Ascii".to_string()));
    assert!(names.contains(&"AsciiPrintable".to_string()));
    assert!(names.contains(&"U7".to_string()));
}

#[test]
fn std_sym_reads_variants_as_declared() {
    let lib = std_sym();
    match lib.get("Bool") {
        Some(TypeExpr::Enum(variants)) => {
            assert_eq!(variants.len(), 2);
            assert_eq!(variants[0].name, "false");
            assert_eq!(variants[0].tag, 0);
            assert_eq!(variants[1].name, "true");
            assert_eq!(variants[1].tag, 1);
        }
        other => panic!("unexpected definition {:?}", other),
    }
    match lib.get("AlphaCapsLodash") {
        Some(TypeExpr::Enum(variants)) => {
            assert_eq!(variants.len(), 27);
            assert_eq!(variants[0].name, "_A");
            assert_eq!(variants[0].tag, b'A');
            assert_eq!(variants[26].name, "lodash");
            assert_eq!(variants[26].tag, b'_');
        }
        other => panic!("unexpected definition {:?}", other),
    }
    match lib.get("U3") {
        Some(TypeExpr::Enum(variants)) => {
            assert_eq!(variants.len(), 8);
            assert_eq!(variants[7].name, "_7");
            assert_eq!(variants[7].tag, 7);
        }
        other => panic!("unexpected definition {:?}", other),
    }
    assert!(lib.get("Missing").is_none());
}

#[test]
fn std_sym_result_agrees_with_std_sym() {
    assert_eq!(_std_sym(), Ok(std_sym()));
}

#[test]
fn try_std_stl_agrees_with_std_stl() {
    let lib = try_std_stl().expect("the catalogue builds");
    assert_eq!(lib, std_stl());
    assert_eq!(lib.id().to_string(), LIB_ID_STD);
}

#[test]
fn std_stl_is_deterministic() {
    assert_eq!(std_stl().id(), std_stl().id());
    assert_eq!(std_stl().id().to_string(), std_stl().id().to_string());
}

#[test]
fn std_lib_id_bytes() {
    let expected: [u8; 32] = [
        0x82, 0x89, 0xeb, 0x4d, 0x0f, 0x0b, 0x70, 0x54, 0xaf, 0x74, 0x4b, 0x05, 0xe8, 0xc1, 0xd7,
        0x9d, 0x23, 0x03, 0xa6, 0x5c, 0x63, 0xcb, 0xcf, 0xa5, 0x67, 0x98, 0xf9, 0xfa, 0x56, 0x3c,
        0x31, 0x6a,
    ];
    assert_eq!(std_stl().id().to_byte_array(), expected);
    assert_eq!(std_stl().id(), TypeLibId::from_byte_array(expected));
}

#[test]
fn std_stl_as_dependency() {
    let lib = std_stl();
    let dep = lib.to_dependency_types();
    assert_eq!(dep.name, "Std");
    assert_eq!(dep.id, lib.id());
    assert_eq!(dep.types.len(), 31);
    assert!(dep.is_valid());
    assert!(dep.offers(&"Bool".to_string()));
    assert!(!dep.offers(&"Flag".to_string()));
}

#[test]
fn the_catalogue_names_its_types_as_the_roster_does() {
    for index in 0..31u8 {
        let (name, variants) = catalog_entry(index);
        assert_eq!(name.as_deref(), Some(roster_name(index)));
        assert!(!variants.is_empty());
    }
    assert_eq!(roster_name(0), "Bool");
    assert_eq!(roster_name(8), "Ascii");
    assert_eq!(roster_name(30), "AlphaNumLodash");
    let names: Vec<String> = (0..31u8).map(|i| roster_name(i).to_string()).collect();
    let mut sorted = names.clone();
    sorted.sort();
    assert_eq!(std_sym().type_names(), sorted);
}

#[test]
fn catalogue_entries_hold_name_and_variants_of_one_type() {
    let (name, variants) = catalog_entry(22);
    assert_eq!(name.as_deref(), Some("Dec"));
    let names: Vec<&str> = variants.iter().map(|v| v.1.as_str()).collect();
    assert_eq!(
        names,
        vec!["zero", "one", "two", "three", "four", "five", "six", "seven", "eight", "nine"]
    );
    assert_eq!(variants[0].0, b'0');
    let (name, variants) = catalog_entry(7);
    assert_eq!(name.as_deref(), Some("U7"));
    assert_eq!(variants.len(), 128);
    let (name, variants) = catalog_entry(24);
    assert_eq!(name.as_deref(), Some("HexDecCaps"));
    assert_eq!(variants.len(), 16);
    assert_eq!(variants[15], (b'F', "fifteen".to_string()));
}

#[test]
fn known_identifiers_have_the_documented_shape() {
    for text in [LIB_ID_STD, LIB_ID_STRICT_TYPES, LIB_ID_BITCOIN, LIB_ID_BITCOIN_TX] {
        let (head, words) = text.split_once('#').unwrap();
        assert_eq!(head.strip_prefix("stl:").unwrap().split('-').count(), 6);
        assert_eq!(words.split('-').count(), 3);
    }
}
