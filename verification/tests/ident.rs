use strict_types::ident::{field_name_ok, name_before, type_name_ok, IDENT_MAX_LEN};
use strict_types::order::insertion_point;

#[test]
fn type_names() {
    assert!(type_name_ok("Flag"));
    assert!(type_name_ok("_Flag"));
    assert!(type_name_ok("U8"));
    assert!(type_name_ok("Alpha_Num9"));
    assert!(!type_name_ok(""));
    assert!(!type_name_ok("flag"));
    assert!(!type_name_ok("9Flag"));
    assert!(!type_name_ok("Fl-ag"));
    assert!(!type_name_ok("Fl ag"));
    assert!(!type_name_ok("Fläg"));
    assert!(type_name_ok(&"A".repeat(IDENT_MAX_LEN)));
    assert!(!type_name_ok(&"A".repeat(IDENT_MAX_LEN + 1)));
}

#[test]
fn field_names() {
    assert!(field_name_ok("inner"));
    assert!(field_name_ok("_A"));
    assert!(field_name_ok("x"));
    assert!(field_name_ok("cBracketR"));
    assert!(!field_name_ok(""));
    assert!(!field_name_ok("Inner"));
    assert!(!field_name_ok("0x"));
    assert!(!field_name_ok("in.ner"));
    assert!(field_name_ok(&"a".repeat(IDENT_MAX_LEN)));
    assert!(!field_name_ok(&"a".repeat(IDENT_MAX_LEN + 1)));
}

#[test]
fn order_of_names() {
    assert!(name_before("Alpha", "AlphaCaps"));
    assert!(!name_before("AlphaCaps", "Alpha"));
    assert!(name_before("Alpha", "Bool"));
    assert!(!name_before("Bool", "Alpha"));
    assert!(!name_before("Bool", "Bool"));
    assert!(name_before("", "A"));
    assert!(!name_before("", ""));
    assert!(name_before("U1", "U2"));
    assert!(name_before("Z", "a"));
    assert!(name_before("A_", "Aa"));
}

#[test]
fn insertion_points() {
    let names: Vec<String> = ["Alpha", "Bool", "U1"].iter().map(|s| s.to_string()).collect();
    assert_eq!(insertion_point(&names, &"Bool".to_string()), (1, true));
    assert_eq!(insertion_point(&names, &"Ascii".to_string()), (1, false));
    assert_eq!(insertion_point(&names, &"A".to_string()), (0, false));
    assert_eq!(insertion_point(&names, &"U2".to_string()), (3, false));
    assert_eq!(insertion_point(&Vec::new(), &"U2".to_string()), (0, false));
}
