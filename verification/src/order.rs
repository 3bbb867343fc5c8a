//! Lists of names kept in ascending order.
//!
//! A library keeps its types and its dependencies sorted by name. A sorted
//! list without repeats is fixed by the set of names in it, so the order in
//! which the entries were added leaves no trace.

use crate::ident::{lemma_name_lt_asymmetric, lemma_name_lt_transitive, lemma_name_order_total, name_before, name_lt};
use vstd::prelude::*;
use vstd::string::*;
use vstd::utf8::is_ascii_chars;

verus! {

/// The texts of a list of strings.
pub open spec fn texts(v: Seq<String>) -> Seq<Seq<char>> {
    Seq::new(v.len(), |i: int| v[i]@)
}

/// Each name comes before all that follow it; so no name occurs twice.
pub open spec fn names_sorted(keys: Seq<Seq<char>>) -> bool {
    forall|i: int, j: int| 0 <= i < j < keys.len() ==> name_lt(#[trigger] keys[i], #[trigger] keys[j])
}

/// Every name holds ASCII characters only.
pub open spec fn names_ascii(keys: Seq<Seq<char>>) -> bool {
    forall|i: int| 0 <= i < keys.len() ==> is_ascii_chars(#[trigger] keys[i])
}

/// `p` is where `name` belongs in the sorted list `keys`: after every smaller
/// name and before every greater one.
pub open spec fn is_insertion_point(keys: Seq<Seq<char>>, name: Seq<char>, p: int) -> bool {
    &&& 0 <= p <= keys.len()
    &&& forall|j: int| 0 <= j < p ==> name_lt(#[trigger] keys[j], name)
    &&& forall|j: int| p <= j < keys.len() ==> name_lt(name, #[trigger] keys[j])
}

/// Putting a name at its insertion point keeps the list sorted.
pub proof fn lemma_insert_keeps_sorted(keys: Seq<Seq<char>>, name: Seq<char>, p: int)
    requires
        names_sorted(keys),
        is_insertion_point(keys, name, p),
    ensures
        names_sorted(keys.insert(p, name)),
{
    let out = keys.insert(p, name);
    assert forall|i: int, j: int| 0 <= i < j < out.len() implies name_lt(
        #[trigger] out[i],
        #[trigger] out[j],
    ) by {
        if i < p {
            assert(out[i] == keys[i]);
        } else if i > p {
            assert(out[i] == keys[i - 1]);
        }
        if j < p {
            assert(out[j] == keys[j]);
        } else if j > p {
            assert(out[j] == keys[j - 1]);
        }
    }
}

/// Two sorted lists that hold the same names are the same list.
pub proof fn lemma_sorted_names_unique(a: Seq<Seq<char>>, b: Seq<Seq<char>>)
    requires
        names_sorted(a),
        names_sorted(b),
        forall|x: Seq<char>| a.contains(x) <==> b.contains(x),
    ensures
        a == b,
    decreases a.len(),
{
    if a.len() == 0 {
        if b.len() > 0 {
            assert(b.contains(b[0]));
            assert(a.contains(b[0]));
        }
        assert(a =~= b);
    } else {
        let x = a.last();
        assert(a.contains(x));
        assert(b.contains(x));
        let y = b.last();
        assert(b.contains(y));
        assert(a.contains(y));
        let i = choose|i: int| 0 <= i < a.len() && a[i] == y;
        let j = choose|j: int| 0 <= j < b.len() && b[j] == x;
        if i < a.len() - 1 && j < b.len() - 1 {
            assert(name_lt(a[i], a[a.len() - 1]));
            assert(name_lt(b[j], b[b.len() - 1]));
            lemma_name_lt_asymmetric(y, x);
        }
        if i < a.len() - 1 {
            assert(name_lt(a[i], a[a.len() - 1]));
            lemma_name_lt_asymmetric(y, x);
        } else if j < b.len() - 1 {
            assert(name_lt(b[j], b[b.len() - 1]));
            lemma_name_lt_asymmetric(x, y);
        }
        assert(x == y);
        let a0 = a.drop_last();
        let b0 = b.drop_last();
        assert forall|z: Seq<char>| a0.contains(z) <==> b0.contains(z) by {
            if a0.contains(z) {
                let k = choose|k: int| 0 <= k < a0.len() && a0[k] == z;
                assert(a[k] == z);
                assert(name_lt(a[k], a[a.len() - 1]));
                lemma_name_lt_asymmetric(z, x);
                assert(a.contains(z));
                let m = choose|m: int| 0 <= m < b.len() && b[m] == z;
                assert(b0[m] == z);
            }
            if b0.contains(z) {
                let k = choose|k: int| 0 <= k < b0.len() && b0[k] == z;
                assert(b[k] == z);
                assert(name_lt(b[k], b[b.len() - 1]));
                lemma_name_lt_asymmetric(z, y);
                assert(b.contains(z));
                let m = choose|m: int| 0 <= m < a.len() && a[m] == z;
                assert(a0[m] == z);
            }
        }
        lemma_sorted_names_unique(a0, b0);
        assert(a =~= a0.push(x));
        assert(b =~= b0.push(y));
    }
}

/// Looks `name` up in a sorted list. Returns the place where it stands, or
/// where it would have to be put, and whether it is there.
pub fn insertion_point(names: &Vec<String>, name: &String) -> (r: (usize, bool))
    requires
        names_sorted(texts(names@)),
        names_ascii(texts(names@)),
        is_ascii_chars(name@),
    ensures
        r.0 <= names.len(),
        r.1 == texts(names@).contains(name@),
        r.1 ==> r.0 < names.len() && texts(names@)[r.0 as int] == name@,
        !r.1 ==> is_insertion_point(texts(names@), name@, r.0 as int),
{
    let ghost keys = texts(names@);
    let n: usize = names.len();
    let mut i: usize = 0;
    assert forall|j: int| 0 <= j < n implies is_ascii_chars((#[trigger] names@[j])@) by {
        assert(keys[j] == names@[j]@);
    }
    while i < n && name_before(names[i].as_str(), name.as_str())
        invariant
            n == names.len(),
            keys == texts(names@),
            names_sorted(keys),
            names_ascii(keys),
            is_ascii_chars(name@),
            forall|j: int| 0 <= j < n ==> is_ascii_chars((#[trigger] names@[j])@),
            0 <= i <= n,
            forall|j: int| 0 <= j < i ==> name_lt(#[trigger] keys[j], name@),
        decreases n - i,
    {
        assert(keys[i as int] == names@[i as int]@);
        i += 1;
    }
    let found = i < n && names[i] == *name;
    proof {
        let p = i as int;
        if p < n {
            assert(keys[p] == names@[p]@);
            assert(is_ascii_chars(keys[p]));
        }
        if found {
            assert(keys.contains(name@));
        } else {
            if p < n {
                lemma_name_order_total(keys[p], name@);
                assert(name_lt(name@, keys[p]));
            }
            assert forall|j: int| p <= j < keys.len() implies name_lt(name@, #[trigger] keys[j]) by {
                if j > p {
                    assert(name_lt(keys[p], keys[j]));
                    lemma_name_lt_transitive(name@, keys[p], keys[j]);
                }
            }
            if keys.contains(name@) {
                let k = choose|k: int| 0 <= k < keys.len() && keys[k] == name@;
                if k < p {
                    assert(name_lt(keys[k], name@));
                } else {
                    assert(name_lt(name@, keys[k]));
                }
                lemma_name_lt_asymmetric(keys[k], name@);
            }
        }
    }
    (i, found)
}

/// A name that is not in a sorted list has an insertion point in it.
pub proof fn lemma_insertion_point_exists(keys: Seq<Seq<char>>, name: Seq<char>) -> (p: int)
    requires
        names_sorted(keys),
        !keys.contains(name),
    ensures
        is_insertion_point(keys, name, p),
    decreases keys.len(),
{
    if keys.len() == 0 {
        0
    } else {
        let init = keys.drop_last();
        let last = keys.last();
        assert forall|i: int, j: int| 0 <= i < j < init.len() implies name_lt(
            #[trigger] init[i],
            #[trigger] init[j],
        ) by {
            assert(init[i] == keys[i] && init[j] == keys[j]);
        }
        if init.contains(name) {
            let k = choose|k: int| 0 <= k < init.len() && init[k] == name;
            assert(keys[k] == name);
        }
        let below = lemma_insertion_point_exists(init, name);
        assert(keys.contains(last));
        lemma_name_order_total(last, name);
        if below < init.len() {
            assert(name_lt(name, init[below]));
            assert(init[below] == keys[below]);
            assert(name_lt(keys[below], keys[keys.len() - 1]));
            lemma_name_lt_transitive(name, keys[below], last);
            assert forall|j: int| 0 <= j < below implies name_lt(#[trigger] keys[j], name) by {
                assert(keys[j] == init[j]);
            }
            assert forall|j: int| below <= j < keys.len() implies name_lt(name, #[trigger] keys[j]) by {
                if j < init.len() {
                    assert(keys[j] == init[j]);
                }
            }
            below
        } else if name_lt(last, name) {
            assert forall|j: int| 0 <= j < keys.len() implies name_lt(#[trigger] keys[j], name) by {
                if j < init.len() {
                    assert(keys[j] == init[j]);
                }
            }
            keys.len() as int
        } else {
            assert forall|j: int| 0 <= j < below implies name_lt(#[trigger] keys[j], name) by {
                assert(keys[j] == init[j]);
            }
            below
        }
    }
}

} // verus!
