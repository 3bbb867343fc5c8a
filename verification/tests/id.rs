use strict_types::TypeLibId;

fn bytes_of(hex: &str) -> [u8; 32] {
    let mut out = [0u8; 32];
    for i in 0..32 {
        out[i] = u8::from_str_radix(&hex[2 * i..2 * i + 2], 16).unwrap();
    }
    out
}

#[test]
fn identifier_text_of_known_digests() {
    let cases = [
        (
            "8289eb4d0f0b7054af744b05e8c1d79d2303a65c63cbcfa56798f9fa563c316a",
            "stl:gonrTQ8L-cFSvdEs-F6MHXnS-MDplxjy-8_lZ5j5-_lY8MWo#delete-roman-hair",
        ),
        (
            "e99e92e73b40977f917e85ae3885bf2b4d38b7b47edca222072844d56e2b3c50",
            "stl:6Z6S5ztA-l3_RfoW-uOIW~K0-04t7R_3-KIiByhE-1W4rPFA#henry-heart-survive",
        ),
        (
            "c7ce2d58f6862a130a0099bee30c0c44a84c2e21f14d8cf02c7ad6ce4c9106ca",
            "stl:x84tWPaG-KhMKAJm-_4wwMRK-hMLiHxT-YzwLHrW-zkyRBso#strong-samba-analyze",
        ),
        (
            "f56c136223f639a74a0993dc4746c9f98aabb883585db5d9163f187ec4281a0a",
            "stl:9WwTYiP2-OadKCZP-cR0bJ_Y-qruINYX-bXZFj8Y-fsQoGgo#signal-color-cipher",
        ),
    ];
    for (hex, text) in cases {
        assert_eq!(TypeLibId::from_byte_array(bytes_of(hex)).to_string(), text);
    }
}

#[test]
fn identifier_text_has_the_documented_shape() {
    let text = TypeLibId::from_byte_array([7u8; 32]).to_string();
    let (head, words) = text.split_once('#').unwrap();
    let body = head.strip_prefix("stl:").unwrap();
    let groups: Vec<&str> = body.split('-').collect();
    assert_eq!(groups.len(), 6);
    assert_eq!(groups[0].len(), 8);
    for g in &groups[1..] {
        assert_eq!(g.len(), 7);
    }
    let alphabet = "ABCDEFGHIJKLMNOPQRSTUVWXYZabcdefghijklmnopqrstuvwxyz0123456789_~";
    assert!(body.chars().all(|c| c == '-' || alphabet.contains(c)));
    let words: Vec<&str> = words.split('-').collect();
    assert_eq!(words.len(), 3);
    assert!(words.iter().all(|w| !w.is_empty() && w.chars().all(|c| c.is_ascii_lowercase())));
}

#[test]
fn identifiers_compare_by_their_bytes() {
    let a = TypeLibId::from_byte_array([1u8; 32]);
    let b = TypeLibId::from_byte_array([1u8; 32]);
    let mut other = [1u8; 32];
    other[31] = 2;
    let c = TypeLibId::from_byte_array(other);
    assert!(a.same(&b));
    assert!(!a.same(&c));
    assert_eq!(a, b);
    assert_ne!(a, c);
    assert_eq!(c.to_byte_array(), other);
    assert_ne!(a.to_string(), c.to_string());
}
