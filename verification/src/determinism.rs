//! A library is fixed by what it holds, not by how it was put together.
//!
//! A builder keeps its symbols sorted by name and takes each name once. So
//! two runs of a builder that take the same symbols, in whatever order, end
//! with the same library, which compiles to the same identity.

use crate::ast::TypeSymbolView;
use crate::ident::is_type_name;
use crate::resolve::{
    first_offer, is_first_offer, is_ref_of, lemma_resolution_is_complete, ref_outcome, refs_of,
};
use crate::symbolic::{spec_new, spec_resolve_lib, MAX_TYPES};
use crate::canon::lib_id;
use crate::ident::lemma_name_lt_asymmetric;
use crate::order::{lemma_insert_keeps_sorted, lemma_insertion_point_exists, lemma_sorted_names_unique};
use crate::symbolic::{
    builder_sound, lemma_rank, spec_compile_symbols, spec_transpile, BuilderView,
    DependencyView, LibView, TranspileErrorView,
};
use crate::typelib::spec_compile;
use vstd::prelude::*;

verus! {

/// Taking the symbols of `symbols` one after another.
pub open spec fn spec_transpile_all(b: BuilderView, symbols: Seq<TypeSymbolView>) -> BuilderView
    decreases symbols.len(),
{
    if symbols.len() == 0 {
        b
    } else {
        spec_transpile(spec_transpile_all(b, symbols.drop_last()), symbols.last())
    }
}

/// A symbol that a builder takes is added to what it holds, and nothing
/// else changes.
pub proof fn lemma_transpile_adds(b: BuilderView, s: TypeSymbolView)
    requires
        builder_sound(b),
        spec_transpile(b, s).failure is None,
    ensures
        b.failure is None,
        s.wf(),
        spec_transpile(b, s).lib.wf(),
        spec_transpile(b, s).lib.name == b.lib.name,
        spec_transpile(b, s).lib.deps == b.lib.deps,
        spec_transpile(b, s).lib.symbols.len() <= b.lib.symbols.len() + 1,
        forall|x: TypeSymbolView|
            #![trigger spec_transpile(b, s).lib.symbols.contains(x)]
            #![trigger b.lib.symbols.contains(x)]
            spec_transpile(b, s).lib.symbols.contains(x) <==> b.lib.symbols.contains(x) || x == s,
{
    let keys = b.lib.symbol_names();
    if keys.contains(s.name) {
        assert(spec_transpile(b, s) == b);
        return ;
    }
    let p = lemma_insertion_point_exists(keys, s.name);
    lemma_rank(keys, s.name, p);
    lemma_insert_keeps_sorted(keys, s.name, p);
    let out = spec_transpile(b, s).lib;
    assert(out.symbols == b.lib.symbols.insert(p, s));
    assert(out.symbol_names() =~= keys.insert(p, s.name));
    assert(out.dep_names() =~= b.lib.dep_names());
    assert forall|i: int| 0 <= i < out.symbols.len() implies (#[trigger] out.symbols[i]).wf() by {
        if i < p {
            assert(out.symbols[i] == b.lib.symbols[i]);
        } else if i > p {
            assert(out.symbols[i] == b.lib.symbols[i - 1]);
        }
    }
    assert forall|x: TypeSymbolView|
        #![trigger out.symbols.contains(x)]
        #![trigger b.lib.symbols.contains(x)]
        out.symbols.contains(x) <==> b.lib.symbols.contains(x) || x == s by {
        if out.symbols.contains(x) {
            let i = choose|i: int| 0 <= i < out.symbols.len() && out.symbols[i] == x;
            if i < p {
                assert(b.lib.symbols[i] == x);
            } else if i > p {
                assert(b.lib.symbols[i - 1] == x);
            }
        }
        if b.lib.symbols.contains(x) {
            let i = choose|i: int| 0 <= i < b.lib.symbols.len() && b.lib.symbols[i] == x;
            if i < p {
                assert(out.symbols[i] == x);
            } else {
                assert(out.symbols[i + 1] == x);
            }
        }
        if x == s {
            assert(out.symbols[p] == x);
        }
    }
}

/// A sound library holds one symbol under a name.
pub proof fn lemma_one_symbol_per_name(lib: LibView, a: TypeSymbolView, b: TypeSymbolView)
    requires
        lib.wf(),
        lib.symbols.contains(a),
        lib.symbols.contains(b),
        a.name == b.name,
    ensures
        a == b,
{
    let i = choose|i: int| 0 <= i < lib.symbols.len() && lib.symbols[i] == a;
    let j = choose|j: int| 0 <= j < lib.symbols.len() && lib.symbols[j] == b;
    assert(lib.symbol_names()[i] == lib.symbol_names()[j]);
    if i < j {
        lemma_name_lt_asymmetric(lib.symbol_names()[i], lib.symbol_names()[j]);
    } else if j < i {
        lemma_name_lt_asymmetric(lib.symbol_names()[j], lib.symbol_names()[i]);
    }
}

/// A definition handed in again under its own name is no collision: the
/// builder stays as it was.
pub proof fn lemma_same_symbol_again_changes_nothing(b: BuilderView, s: TypeSymbolView)
    requires
        builder_sound(b),
        spec_transpile(b, s).failure is None,
    ensures
        spec_transpile(spec_transpile(b, s), s) == spec_transpile(b, s),
{
    lemma_transpile_adds(b, s);
    let held = spec_transpile(b, s).lib;
    assert(held.symbols.contains(s));
    let i = choose|i: int| 0 <= i < held.symbols.len() && held.symbols[i] == s;
    assert(held.symbol_names()[i] == s.name);
}

/// Name uniqueness: once a builder holds a symbol, it refuses every other
/// definition under that name, and keeps what it holds.
pub proof fn lemma_second_symbol_of_a_name_is_refused(
    b: BuilderView,
    first: TypeSymbolView,
    second: TypeSymbolView,
)
    requires
        builder_sound(b),
        spec_transpile(b, first).failure is None,
        second.wf(),
        second.name == first.name,
        second != first,
    ensures
        spec_transpile(spec_transpile(b, first), second).failure == Some(
            TranspileErrorView::NameCollision(second.name),
        ),
        spec_transpile(spec_transpile(b, first), second).lib == spec_transpile(b, first).lib,
{
    lemma_transpile_adds(b, first);
    let held = spec_transpile(b, first).lib;
    assert(held.symbols.contains(first));
    let i = choose|i: int| 0 <= i < held.symbols.len() && held.symbols[i] == first;
    assert(held.symbol_names()[i] == second.name);
    if held.symbols.contains(second) {
        lemma_one_symbol_per_name(held, first, second);
    }
}

/// A builder that took a run of symbols without failing holds what it held
/// before and those symbols, and is sound.
pub proof fn lemma_transpile_all_adds(b: BuilderView, symbols: Seq<TypeSymbolView>)
    requires
        builder_sound(b),
        spec_transpile_all(b, symbols).failure is None,
    ensures
        b.failure is None,
        spec_transpile_all(b, symbols).lib.wf(),
        spec_transpile_all(b, symbols).lib.name == b.lib.name,
        spec_transpile_all(b, symbols).lib.deps == b.lib.deps,
        spec_transpile_all(b, symbols).lib.symbols.len() <= b.lib.symbols.len() + symbols.len(),
        forall|x: TypeSymbolView|
            #![trigger spec_transpile_all(b, symbols).lib.symbols.contains(x)]
            #![trigger b.lib.symbols.contains(x)]
            #![trigger symbols.contains(x)]
            spec_transpile_all(b, symbols).lib.symbols.contains(x) <==> b.lib.symbols.contains(x)
                || symbols.contains(x),
    decreases symbols.len(),
{
    if symbols.len() > 0 {
        let before = spec_transpile_all(b, symbols.drop_last());
        let s = symbols.last();
        assert(before.failure is None);
        lemma_transpile_all_adds(b, symbols.drop_last());
        lemma_transpile_adds(before, s);
        let out = spec_transpile_all(b, symbols).lib;
        assert(out == spec_transpile(before, s).lib);
        assert forall|x: TypeSymbolView|
            #![trigger out.symbols.contains(x)]
            #![trigger b.lib.symbols.contains(x)]
            #![trigger symbols.contains(x)]
            out.symbols.contains(x) <==> b.lib.symbols.contains(x) || symbols.contains(x) by {
            assert(out.symbols.contains(x) <==> before.lib.symbols.contains(x) || x == s);
            assert(before.lib.symbols.contains(x) <==> b.lib.symbols.contains(x)
                || symbols.drop_last().contains(x));
            if symbols.contains(x) {
                let i = choose|i: int| 0 <= i < symbols.len() && symbols[i] == x;
                if i < symbols.len() - 1 {
                    assert(symbols.drop_last()[i] == x);
                }
            }
            if symbols.drop_last().contains(x) {
                let i = choose|i: int| 0 <= i < symbols.drop_last().len() && symbols.drop_last()[i]
                    == x;
                assert(symbols[i] == x);
            }
            assert(symbols[symbols.len() - 1] == s);
        }
    }
}

/// Two well-formed libraries of one name that hold the same dependencies and
/// the same symbols are one and the same library.
pub proof fn lemma_same_content_same_library(a: LibView, b: LibView)
    requires
        a.wf(),
        b.wf(),
        a.name == b.name,
        forall|d: DependencyView|
            #![trigger a.deps.contains(d)]
            #![trigger b.deps.contains(d)]
            a.deps.contains(d) <==> b.deps.contains(d),
        forall|s: TypeSymbolView|
            #![trigger a.symbols.contains(s)]
            #![trigger b.symbols.contains(s)]
            a.symbols.contains(s) <==> b.symbols.contains(s),
    ensures
        a == b,
{
    assert forall|n: Seq<char>| a.symbol_names().contains(n) <==> b.symbol_names().contains(n) by {
        if a.symbol_names().contains(n) {
            let i = choose|i: int| 0 <= i < a.symbols.len() && a.symbol_names()[i] == n;
            assert(a.symbols.contains(a.symbols[i]));
            let j = choose|j: int| 0 <= j < b.symbols.len() && b.symbols[j] == a.symbols[i];
            assert(b.symbol_names()[j] == n);
        }
        if b.symbol_names().contains(n) {
            let i = choose|i: int| 0 <= i < b.symbols.len() && b.symbol_names()[i] == n;
            assert(b.symbols.contains(b.symbols[i]));
            let j = choose|j: int| 0 <= j < a.symbols.len() && a.symbols[j] == b.symbols[i];
            assert(a.symbol_names()[j] == n);
        }
    }
    lemma_sorted_names_unique(a.symbol_names(), b.symbol_names());
    assert forall|i: int| 0 <= i < a.symbols.len() implies a.symbols[i] == b.symbols[i] by {
        assert(a.symbols.contains(a.symbols[i]));
        let j = choose|j: int| 0 <= j < b.symbols.len() && b.symbols[j] == a.symbols[i];
        assert(b.symbol_names()[j] == a.symbol_names()[i]);
        assert(b.symbol_names()[i] == a.symbol_names()[i]);
        if i < j {
            lemma_name_lt_asymmetric(b.symbol_names()[i], b.symbol_names()[j]);
        } else if j < i {
            lemma_name_lt_asymmetric(b.symbol_names()[j], b.symbol_names()[i]);
        }
    }
    assert(a.symbols =~= b.symbols);
    assert forall|n: Seq<char>| a.dep_names().contains(n) <==> b.dep_names().contains(n) by {
        if a.dep_names().contains(n) {
            let i = choose|i: int| 0 <= i < a.deps.len() && a.dep_names()[i] == n;
            assert(a.deps.contains(a.deps[i]));
            let j = choose|j: int| 0 <= j < b.deps.len() && b.deps[j] == a.deps[i];
            assert(b.dep_names()[j] == n);
        }
        if b.dep_names().contains(n) {
            let i = choose|i: int| 0 <= i < b.deps.len() && b.dep_names()[i] == n;
            assert(b.deps.contains(b.deps[i]));
            let j = choose|j: int| 0 <= j < a.deps.len() && a.deps[j] == b.deps[i];
            assert(a.dep_names()[j] == n);
        }
    }
    lemma_sorted_names_unique(a.dep_names(), b.dep_names());
    assert forall|i: int| 0 <= i < a.deps.len() implies a.deps[i] == b.deps[i] by {
        assert(a.deps.contains(a.deps[i]));
        let j = choose|j: int| 0 <= j < b.deps.len() && b.deps[j] == a.deps[i];
        assert(b.dep_names()[j] == a.dep_names()[i]);
        assert(b.dep_names()[i] == a.dep_names()[i]);
        if i < j {
            lemma_name_lt_asymmetric(b.dep_names()[i], b.dep_names()[j]);
        } else if j < i {
            lemma_name_lt_asymmetric(b.dep_names()[j], b.dep_names()[i]);
        }
    }
    assert(a.deps =~= b.deps);
}

/// Determinism of building: a builder that takes the same symbols in two
/// different orders, and fails in neither, ends up holding the same library;
/// so what is compiled from it, and its identity, are the same.
pub proof fn lemma_build_order_is_irrelevant(
    b: BuilderView,
    one: Seq<TypeSymbolView>,
    other: Seq<TypeSymbolView>,
)
    requires
        builder_sound(b),
        forall|s: TypeSymbolView|
            #![trigger one.contains(s)]
            #![trigger other.contains(s)]
            one.contains(s) <==> other.contains(s),
        spec_transpile_all(b, one).failure is None,
        spec_transpile_all(b, other).failure is None,
    ensures
        spec_transpile_all(b, one) == spec_transpile_all(b, other),
        spec_compile_symbols(spec_transpile_all(b, one)) == spec_compile_symbols(
            spec_transpile_all(b, other),
        ),
{
    lemma_transpile_all_adds(b, one);
    lemma_transpile_all_adds(b, other);
    let x1 = spec_transpile_all(b, one).lib;
    let x2 = spec_transpile_all(b, other).lib;
    assert forall|s: TypeSymbolView|
        #![trigger x1.symbols.contains(s)]
        #![trigger x2.symbols.contains(s)]
        x1.symbols.contains(s) <==> x2.symbols.contains(s) by {
        assert(x1.symbols.contains(s) <==> b.lib.symbols.contains(s) || one.contains(s));
        assert(x2.symbols.contains(s) <==> b.lib.symbols.contains(s) || other.contains(s));
    }
    lemma_same_content_same_library(
        spec_transpile_all(b, one).lib,
        spec_transpile_all(b, other).lib,
    );
}

/// Determinism: two well-formed libraries of one name that hold the same
/// dependencies and the same symbols compile to the same library, with the
/// same identity, however each was put together.
pub proof fn lemma_same_content_same_identity(a: LibView, b: LibView)
    requires
        a.wf(),
        b.wf(),
        a.name == b.name,
        forall|d: DependencyView|
            #![trigger a.deps.contains(d)]
            #![trigger b.deps.contains(d)]
            a.deps.contains(d) <==> b.deps.contains(d),
        forall|s: TypeSymbolView|
            #![trigger a.symbols.contains(s)]
            #![trigger b.symbols.contains(s)]
            a.symbols.contains(s) <==> b.symbols.contains(s),
    ensures
        lib_id(a) == lib_id(b),
        spec_compile(a) == spec_compile(b),
{
    lemma_same_content_same_library(a, b);
}

/// Two of the symbols are distinct definitions under one name.
pub open spec fn has_collision(symbols: Seq<TypeSymbolView>) -> bool {
    exists|i: int, j: int|
        0 <= i < j < symbols.len() && (#[trigger] symbols[i]).name == (#[trigger] symbols[j]).name
            && symbols[i] != symbols[j]
}

/// A builder that holds nothing yet and is handed well-formed symbols, no
/// more than a library can hold, fails exactly when two of them are distinct
/// definitions under one name; the failure is then a name collision.
pub proof fn lemma_build_fails_exactly_on_collisions(b: BuilderView, symbols: Seq<TypeSymbolView>)
    requires
        builder_sound(b),
        b.failure is None,
        b.lib.symbols.len() == 0,
        symbols.len() <= MAX_TYPES,
        forall|i: int| 0 <= i < symbols.len() ==> (#[trigger] symbols[i]).wf(),
    ensures
        spec_transpile_all(b, symbols).failure is Some <==> has_collision(symbols),
        spec_transpile_all(b, symbols).failure matches Some(e) ==> e is NameCollision,
    decreases symbols.len(),
{
    if symbols.len() > 0 {
        let init = symbols.drop_last();
        let s = symbols.last();
        let last = symbols.len() - 1;
        let prev = spec_transpile_all(b, init);
        assert forall|i: int| 0 <= i < init.len() implies (#[trigger] init[i]).wf() by {
            assert(init[i] == symbols[i]);
        }
        lemma_build_fails_exactly_on_collisions(b, init);
        if has_collision(init) {
            let (i, j) = choose|i: int, j: int|
                0 <= i < j < init.len() && (#[trigger] init[i]).name == (#[trigger] init[j]).name
                    && init[i] != init[j];
            assert(symbols[i] == init[i] && symbols[j] == init[j]);
        }
        if prev.failure is None {
            lemma_transpile_all_adds(b, init);
            assert(s.wf());
            if prev.lib.symbol_names().contains(s.name) {
                let k = choose|k: int|
                    0 <= k < prev.lib.symbols.len() && prev.lib.symbol_names()[k] == s.name;
                let x = prev.lib.symbols[k];
                assert(prev.lib.symbols.contains(x));
                assert(init.contains(x));
                let i = choose|i: int| 0 <= i < init.len() && init[i] == x;
                assert(symbols[i] == x);
                if !prev.lib.symbols.contains(s) {
                    assert(symbols[i].name == symbols[last].name && symbols[i] != symbols[last]);
                }
            }
            if spec_transpile_all(b, symbols).failure is None && has_collision(symbols) {
                let (i, j) = choose|i: int, j: int|
                    0 <= i < j < symbols.len() && (#[trigger] symbols[i]).name == (
                    #[trigger] symbols[j]).name && symbols[i] != symbols[j];
                if j < last {
                    assert(init[i] == symbols[i] && init[j] == symbols[j]);
                } else {
                    assert(init[i] == symbols[i]);
                    assert(init.contains(symbols[i]));
                    assert(prev.lib.symbols.contains(symbols[i]));
                    let k = choose|k: int|
                        0 <= k < prev.lib.symbols.len() && prev.lib.symbols[k] == symbols[i];
                    assert(prev.lib.symbol_names()[k] == s.name);
                    assert(prev.lib.symbols.contains(s));
                    lemma_one_symbol_per_name(prev.lib, symbols[i], s);
                }
            }
        }
    }
}

/// The reference `k` of the symbol `i` names, without a library, one of the
/// symbols.
pub open spec fn ref_is_defined(symbols: Seq<TypeSymbolView>, i: int, k: int) -> bool {
    &&& refs_of(symbols[i].definition)[k].lib_name is None
    &&& exists|j: int|
        0 <= j < symbols.len() && (#[trigger] symbols[j]).name == refs_of(
            symbols[i].definition,
        )[k].name
}

/// A build without dependencies, from well-formed symbols that are no more
/// than a library can hold, succeeds exactly when no two of them are distinct
/// definitions under one name and every reference names one of them.
pub proof fn lemma_build_without_dependencies(name: Seq<char>, symbols: Seq<TypeSymbolView>)
    requires
        is_type_name(name),
        symbols.len() <= MAX_TYPES,
        forall|i: int| 0 <= i < symbols.len() ==> (#[trigger] symbols[i]).wf(),
    ensures
        spec_compile_symbols(spec_transpile_all(spec_new(name), symbols)) is Ok <==> !has_collision(
            symbols,
        ) && forall|i: int, k: int|
            is_ref_of(symbols, i, k) ==> #[trigger] ref_is_defined(symbols, i, k),
{
    let start = spec_new(name);
    assert(start.lib.dep_names() =~= Seq::empty());
    assert(start.lib.symbol_names() =~= Seq::empty());
    lemma_build_fails_exactly_on_collisions(start, symbols);
    let b = spec_transpile_all(start, symbols);
    if b.failure is None {
        lemma_transpile_all_adds(start, symbols);
        let held = b.lib.symbols;
        let local = b.lib.symbol_names();
        let deps = b.lib.deps;
        assert(deps.len() == 0);
        lemma_resolution_is_complete(local, deps, held);
        assert forall|n: Seq<char>| #[trigger] first_offer(deps, n) is None by {
            if exists|c: int| is_first_offer(deps, n, c) {
                let c = choose|c: int| is_first_offer(deps, n, c);
                assert(false);
            }
        }
        assert forall|n: Seq<char>| local.contains(n) <==> exists|j: int|
            0 <= j < symbols.len() && (#[trigger] symbols[j]).name == n by {
            if local.contains(n) {
                let k = choose|k: int| 0 <= k < local.len() && local[k] == n;
                assert(held.contains(held[k]));
                assert(symbols.contains(held[k]));
                let j = choose|j: int| 0 <= j < symbols.len() && symbols[j] == held[k];
                assert(symbols[j].name == n);
            }
            if exists|j: int| 0 <= j < symbols.len() && (#[trigger] symbols[j]).name == n {
                let j = choose|j: int| 0 <= j < symbols.len() && (#[trigger] symbols[j]).name == n;
                assert(symbols.contains(symbols[j]));
                assert(held.contains(symbols[j]));
                let k = choose|k: int| 0 <= k < held.len() && held[k] == symbols[j];
                assert(local[k] == n);
            }
        }
        if spec_resolve_lib(b.lib) is Ok {
            assert forall|i: int, k: int| is_ref_of(symbols, i, k) implies #[trigger] ref_is_defined(
                symbols,
                i,
                k,
            ) by {
                assert(symbols.contains(symbols[i]));
                assert(held.contains(symbols[i]));
                let m = choose|m: int| 0 <= m < held.len() && held[m] == symbols[i];
                assert(is_ref_of(held, m, k));
                assert(ref_outcome(local, deps, held, m, k) is Ok);
                let r = refs_of(symbols[i].definition)[k];
                assert(first_offer(deps, r.name) is None);
                assert(local.contains(r.name));
            }
        } else {
            let (m, k) = choose|m: int, k: int|
                is_ref_of(held, m, k) && #[trigger] ref_outcome(local, deps, held, m, k) is Err;
            assert(held.contains(held[m]));
            assert(symbols.contains(held[m]));
            let i = choose|i: int| 0 <= i < symbols.len() && symbols[i] == held[m];
            assert(is_ref_of(symbols, i, k));
            let r = refs_of(symbols[i].definition)[k];
            if ref_is_defined(symbols, i, k) {
                assert(local.contains(r.name));
                assert(ref_outcome(local, deps, held, m, k) is Ok);
            }
        }
    }
}

} // verus!
