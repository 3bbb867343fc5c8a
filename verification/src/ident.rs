//! Identifiers: which strings may name a library, a type, a field or a variant,
//! the bytes that stand for a name in a canonical serialisation, and the order
//! in which names are sorted.

use vstd::prelude::*;
use vstd::string::*;

verus! {

/// The longest identifier accepted, in characters.
pub const IDENT_MAX_LEN: usize = 100;

/// A capital letter of the Latin alphabet.
pub open spec fn is_capital(c: char) -> bool {
    'A' <= c <= 'Z'
}

/// A small letter of the Latin alphabet.
pub open spec fn is_small(c: char) -> bool {
    'a' <= c <= 'z'
}

/// A decimal digit.
pub open spec fn is_digit(c: char) -> bool {
    '0' <= c <= '9'
}

/// Characters allowed anywhere in an identifier: ASCII letters, digits and `_`.
pub open spec fn is_ident_char(c: char) -> bool {
    is_capital(c) || is_small(c) || is_digit(c) || c == '_'
}

/// Every character is an identifier character, and there are between one and
/// [`IDENT_MAX_LEN`] of them.
pub open spec fn is_ident_body(s: Seq<char>) -> bool {
    &&& 1 <= s.len() <= IDENT_MAX_LEN
    &&& forall|i: int| 0 <= i < s.len() ==> is_ident_char(#[trigger] s[i])
}

/// Names of libraries and types start with a capital letter or `_`.
pub open spec fn is_type_name(s: Seq<char>) -> bool {
    is_ident_body(s) && (is_capital(s[0]) || s[0] == '_')
}

/// Names of fields and variants start with a small letter or `_`.
pub open spec fn is_field_name(s: Seq<char>) -> bool {
    is_ident_body(s) && (is_small(s[0]) || s[0] == '_')
}

/// The bytes of an ASCII text: one byte per character.
pub open spec fn text_bytes(s: Seq<char>) -> Seq<u8> {
    Seq::new(s.len(), |i: int| s[i] as u8)
}

/// An identifier holds ASCII characters only.
pub proof fn lemma_ident_is_ascii(s: Seq<char>)
    requires
        is_ident_body(s),
    ensures
        vstd::utf8::is_ascii_chars(s),
{
    assert forall|i: int| 0 <= i < s.len() implies '\0' <= #[trigger] s[i] <= '\u{7f}' by {
        assert(is_ident_char(s[i]));
    }
}

fn ident_byte_ok(b: u8) -> (ok: bool)
    ensures
        ok == (65 <= b <= 90 || 97 <= b <= 122 || 48 <= b <= 57 || b == 95),
{
    (65 <= b && b <= 90) || (97 <= b && b <= 122) || (48 <= b && b <= 57) || b == 95
}

fn ident_body_ok(s: &str) -> (ok: bool)
    ensures
        ok == is_ident_body(s@),
{
    if !s.is_ascii() {
        proof {
            if is_ident_body(s@) {
                lemma_ident_is_ascii(s@);
            }
        }
        return false;
    }
    let bytes = s.as_bytes();
    proof {
        is_ascii_spec_bytes(s);
    }
    let n: usize = bytes.len();
    if n == 0 || n > IDENT_MAX_LEN {
        return false;
    }
    let mut i: usize = 0;
    while i < n
        invariant
            0 <= i <= n,
            n == s@.len(),
            bytes@ =~= text_bytes(s@),
            is_ascii(s),
            1 <= n <= IDENT_MAX_LEN,
            forall|j: int| 0 <= j < i ==> is_ident_char(#[trigger] s@[j]),
        decreases n - i,
    {
        let ok = ident_byte_ok(bytes[i]);
        assert(bytes@[i as int] == s@[i as int] as u8);
        assert('\0' <= s@[i as int] <= '\u{7f}');
        if !ok {
            assert(!is_ident_char(s@[i as int]));
            return false;
        }
        i += 1;
    }
    true
}

/// Tells whether `s` may name a library or a type.
pub fn type_name_ok(s: &str) -> (ok: bool)
    ensures
        ok == is_type_name(s@),
{
    if !ident_body_ok(s) {
        return false;
    }
    proof {
        lemma_ident_is_ascii(s@);
        is_ascii_spec_bytes(s);
    }
    let bytes = s.as_bytes();
    let b: u8 = bytes[0];
    assert(b == s@[0] as u8);
    assert('\0' <= s@[0] <= '\u{7f}');
    (65 <= b && b <= 90) || b == 95
}

/// Tells whether `s` may name a field or a variant.
pub fn field_name_ok(s: &str) -> (ok: bool)
    ensures
        ok == is_field_name(s@),
{
    if !ident_body_ok(s) {
        return false;
    }
    proof {
        lemma_ident_is_ascii(s@);
        is_ascii_spec_bytes(s);
    }
    let bytes = s.as_bytes();
    let b: u8 = bytes[0];
    assert(b == s@[0] as u8);
    assert('\0' <= s@[0] <= '\u{7f}');
    (97 <= b && b <= 122) || b == 95
}

/// `a` and `b` hold the same characters at their first `k` places.
pub open spec fn agree_upto(a: Seq<char>, b: Seq<char>, k: int) -> bool {
    &&& 0 <= k <= a.len()
    &&& k <= b.len()
    &&& forall|j: int| 0 <= j < k ==> a[j] == b[j]
}

/// The order in which names are sorted: character by character, by code, and
/// a proper prefix before the longer name.
pub open spec fn name_lt(a: Seq<char>, b: Seq<char>) -> bool {
    exists|k: int| #[trigger] agree_upto(a, b, k) && k < b.len() && (k == a.len() || a[k] < b[k])
}

/// No name comes before itself, and of two names at most one comes first.
pub proof fn lemma_name_lt_asymmetric(a: Seq<char>, b: Seq<char>)
    requires
        name_lt(a, b),
    ensures
        !name_lt(b, a),
        a != b,
{
    let k = choose|k: int| #[trigger] agree_upto(a, b, k) && k < b.len() && (k == a.len() || a[k] < b[k]);
    if name_lt(b, a) {
        let m = choose|m: int| #[trigger] agree_upto(b, a, m) && m < a.len() && (m == b.len() || b[m] < a[m]);
        if m < k {
            assert(a[m] == b[m]);
        } else if k < m {
            assert(b[k] == a[k]);
        }
    }
}

/// The order of names is transitive.
pub proof fn lemma_name_lt_transitive(a: Seq<char>, b: Seq<char>, c: Seq<char>)
    requires
        name_lt(a, b),
        name_lt(b, c),
    ensures
        name_lt(a, c),
{
    let k = choose|k: int| #[trigger] agree_upto(a, b, k) && k < b.len() && (k == a.len() || a[k] < b[k]);
    let m = choose|m: int| #[trigger] agree_upto(b, c, m) && m < c.len() && (m == b.len() || b[m] < c[m]);
    let n = if k <= m { k } else { m };
    assert(agree_upto(a, c, n));
    if k < m {
        assert(b[k] == c[k]);
    } else if m < k {
        assert(a[m] == b[m]);
    }
}

proof fn lemma_name_order_scan(a: Seq<char>, b: Seq<char>, k: int)
    requires
        agree_upto(a, b, k),
    ensures
        name_lt(a, b) || a == b || name_lt(b, a),
    decreases a.len() - k,
{
    if k == a.len() && k == b.len() {
        assert(a =~= b);
    } else if k == a.len() {
        assert(agree_upto(a, b, k) && k < b.len());
    } else if k == b.len() {
        assert(agree_upto(b, a, k) && k < a.len());
    } else if a[k] < b[k] {
        assert(agree_upto(a, b, k) && k < b.len());
    } else if b[k] < a[k] {
        assert(agree_upto(b, a, k) && k < a.len());
    } else {
        assert(agree_upto(a, b, k + 1));
        lemma_name_order_scan(a, b, k + 1);
    }
}

/// Any two names are equal or one comes before the other.
pub proof fn lemma_name_order_total(a: Seq<char>, b: Seq<char>)
    ensures
        name_lt(a, b) || a == b || name_lt(b, a),
{
    assert(agree_upto(a, b, 0));
    lemma_name_order_scan(a, b, 0);
}

/// Tells whether `a` comes before `b` in the order of names.
pub fn name_before(a: &str, b: &str) -> (before: bool)
    requires
        is_ascii(a),
        is_ascii(b),
    ensures
        before == name_lt(a@, b@),
{
    proof {
        is_ascii_spec_bytes(a);
        is_ascii_spec_bytes(b);
    }
    let x = a.as_bytes();
    let y = b.as_bytes();
    let n: usize = x.len();
    let m: usize = y.len();
    let mut i: usize = 0;
    while i < n && i < m && x[i] == y[i]
        invariant
            n == a@.len(),
            m == b@.len(),
            x@ =~= text_bytes(a@),
            y@ =~= text_bytes(b@),
            is_ascii(a),
            is_ascii(b),
            agree_upto(a@, b@, i as int),
        decreases n - i,
    {
        assert(x@[i as int] == a@[i as int] as u8);
        assert(y@[i as int] == b@[i as int] as u8);
        assert('\0' <= a@[i as int] <= '\u{7f}');
        assert('\0' <= b@[i as int] <= '\u{7f}');
        i += 1;
    }
    let ghost k = i as int;
    if i < n && i < m {
        assert(x@[k] == a@[k] as u8);
        assert(y@[k] == b@[k] as u8);
        assert('\0' <= a@[k] <= '\u{7f}');
        assert('\0' <= b@[k] <= '\u{7f}');
    }
    let before = i < m && (i == n || x[i] < y[i]);
    proof {
        if before {
            assert(agree_upto(a@, b@, k) && k < b@.len() && (k == a@.len() || a@[k] < b@[k]));
        } else {
            if i == m {
                if i < n {
                    assert(agree_upto(b@, a@, k) && k < a@.len());
                } else {
                    assert(a@ =~= b@);
                }
            } else {
                assert(agree_upto(b@, a@, k) && k < a@.len() && b@[k] < a@[k]);
            }
            if name_lt(a@, b@) {
                lemma_name_lt_asymmetric(a@, b@);
            }
        }
    }
    before
}

} // verus!
