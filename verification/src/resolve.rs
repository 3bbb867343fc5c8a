//! Resolving references: finding, for every name that a definition mentions,
//! the symbol it stands for.
//!
//! A reference without a library name stands for a symbol of the library
//! itself or, failing that, of the first dependency (in order of name) that
//! offers the name. A reference with a library name stands for a symbol of
//! that dependency, which must be declared, must offer the name and, where the
//! reference already carries an identity, must be declared under that identity.

use crate::ast::{
    field_views, fields_wf, variant_views, Field, FieldView, SymbolRef, SymbolRefView, TypeExpr,
    TypeExprView, TypeSymbolView, Variant,
};
use crate::ident::{is_field_name, lemma_ident_is_ascii, lemma_name_lt_asymmetric};
use crate::order::{insertion_point, names_ascii, names_sorted, texts};
use crate::symbolic::{
    dep_views, symbol_views, Dependency, DependencyView, TranspileError, TranspileErrorView,
};
use vstd::prelude::*;

verus! {

/// The place of the dependency called `lib`, if one is declared.
pub open spec fn find_dep(deps: Seq<DependencyView>, lib: Seq<char>) -> Option<int> {
    if exists|i: int| 0 <= i < deps.len() && (#[trigger] deps[i]).name == lib {
        Some(choose|i: int| 0 <= i < deps.len() && (#[trigger] deps[i]).name == lib)
    } else {
        None
    }
}

/// `i` is the first dependency that offers `name`.
pub open spec fn is_first_offer(deps: Seq<DependencyView>, name: Seq<char>, i: int) -> bool {
    &&& 0 <= i < deps.len()
    &&& deps[i].types.contains(name)
    &&& forall|j: int| 0 <= j < i ==> !(#[trigger] deps[j]).types.contains(name)
}

/// The place of the first dependency that offers `name`, if one does.
pub open spec fn first_offer(deps: Seq<DependencyView>, name: Seq<char>) -> Option<int> {
    if exists|i: int| is_first_offer(deps, name, i) {
        Some(choose|i: int| is_first_offer(deps, name, i))
    } else {
        None
    }
}

/// The error for a reference that stands for nothing.
pub open spec fn unresolved(r: SymbolRefView, referrer: Seq<char>) -> TranspileErrorView {
    TranspileErrorView::UnresolvedReference { symbol: r.name, referrer }
}

/// The reference `r` once it is known to stand for a symbol of `d`.
pub open spec fn resolved_into(d: DependencyView, r: SymbolRefView) -> SymbolRefView {
    SymbolRefView { lib_name: Some(d.name), name: r.name, resolved_id: Some(d.id) }
}

/// What a reference made in `referrer` resolves to, in a library with the
/// symbols `local` and the dependencies `deps`.
pub open spec fn spec_resolve_ref(
    local: Seq<Seq<char>>,
    deps: Seq<DependencyView>,
    referrer: Seq<char>,
    r: SymbolRefView,
) -> Result<SymbolRefView, TranspileErrorView> {
    match r.lib_name {
        None => {
            if local.contains(r.name) {
                Ok(SymbolRefView { lib_name: None, name: r.name, resolved_id: None })
            } else {
                match first_offer(deps, r.name) {
                    Some(i) => Ok(resolved_into(deps[i], r)),
                    None => Err(unresolved(r, referrer)),
                }
            }
        },
        Some(lib) => match find_dep(deps, lib) {
            None => Err(unresolved(r, referrer)),
            Some(i) => {
                if r.resolved_id is Some && r.resolved_id != Some(deps[i].id) {
                    Err(TranspileErrorView::DependencyMismatch { lib, referrer })
                } else if deps[i].types.contains(r.name) {
                    Ok(resolved_into(deps[i], r))
                } else {
                    Err(unresolved(r, referrer))
                }
            },
        },
    }
}

/// `done` followed by what `rest` holds, where `rest` is not an error.
pub open spec fn prefixed<A>(done: Seq<A>, rest: Result<Seq<A>, TranspileErrorView>) -> Result<
    Seq<A>,
    TranspileErrorView,
> {
    match rest {
        Ok(more) => Ok(done + more),
        Err(e) => Err(e),
    }
}

/// The fields with their references resolved, or the error of the first
/// field whose reference does not resolve.
pub open spec fn spec_resolve_fields(
    local: Seq<Seq<char>>,
    deps: Seq<DependencyView>,
    referrer: Seq<char>,
    fields: Seq<FieldView>,
) -> Result<Seq<FieldView>, TranspileErrorView>
    decreases fields.len(),
{
    if fields.len() == 0 {
        Ok(Seq::empty())
    } else {
        match spec_resolve_ref(local, deps, referrer, fields[0].ty) {
            Err(e) => Err(e),
            Ok(ty) => prefixed(
                seq![FieldView { name: fields[0].name, ty }],
                spec_resolve_fields(local, deps, referrer, fields.drop_first()),
            ),
        }
    }
}

/// The definition with its references resolved.
pub open spec fn spec_resolve_def(
    local: Seq<Seq<char>>,
    deps: Seq<DependencyView>,
    referrer: Seq<char>,
    def: TypeExprView,
) -> Result<TypeExprView, TranspileErrorView> {
    match def {
        TypeExprView::Primitive(code) => Ok(TypeExprView::Primitive(code)),
        TypeExprView::Enum(variants) => Ok(TypeExprView::Enum(variants)),
        TypeExprView::Struct(fields) => match spec_resolve_fields(local, deps, referrer, fields) {
            Ok(resolved) => Ok(TypeExprView::Struct(resolved)),
            Err(e) => Err(e),
        },
        TypeExprView::Collection(item, sizing) => match spec_resolve_ref(
            local,
            deps,
            referrer,
            item,
        ) {
            Ok(resolved) => Ok(TypeExprView::Collection(resolved, sizing)),
            Err(e) => Err(e),
        },
        TypeExprView::Reference(target) => match spec_resolve_ref(local, deps, referrer, target) {
            Ok(resolved) => Ok(TypeExprView::Reference(resolved)),
            Err(e) => Err(e),
        },
    }
}

/// The symbols with their references resolved, or the error of the first
/// symbol that holds a reference which does not resolve.
pub open spec fn spec_resolve_symbols(
    local: Seq<Seq<char>>,
    deps: Seq<DependencyView>,
    symbols: Seq<TypeSymbolView>,
) -> Result<Seq<TypeSymbolView>, TranspileErrorView>
    decreases symbols.len(),
{
    if symbols.len() == 0 {
        Ok(Seq::empty())
    } else {
        match spec_resolve_def(local, deps, symbols[0].name, symbols[0].definition) {
            Err(e) => Err(e),
            Ok(definition) => prefixed(
                seq![TypeSymbolView { name: symbols[0].name, definition }],
                spec_resolve_symbols(local, deps, symbols.drop_first()),
            ),
        }
    }
}

/// What the resolving functions ask of the dependencies handed to them.
pub open spec fn deps_ready(dep_names: Seq<String>, deps: Seq<Dependency>) -> bool {
    &&& dep_names.len() == deps.len()
    &&& forall|i: int| 0 <= i < deps.len() ==> (#[trigger] dep_names[i])@ == deps[i].name@
    &&& forall|i: int| 0 <= i < deps.len() ==> (#[trigger] deps[i])@.wf()
    &&& names_sorted(texts(dep_names))
}

/// What they ask of the names of the library's own symbols.
pub open spec fn names_ready(local: Seq<String>) -> bool {
    names_sorted(texts(local)) && names_ascii(texts(local))
}

/// The outcome `out` is the one that `model` describes.
pub open spec fn ref_result_is(
    out: Result<SymbolRef, TranspileError>,
    model: Result<SymbolRefView, TranspileErrorView>,
) -> bool {
    match out {
        Ok(r) => model == Ok::<SymbolRefView, TranspileErrorView>(r@),
        Err(e) => model == Err::<SymbolRefView, TranspileErrorView>(e@),
    }
}

/// The outcome `out` is the one that `model` describes.
pub open spec fn def_result_is(
    out: Result<TypeExpr, TranspileError>,
    model: Result<TypeExprView, TranspileErrorView>,
) -> bool {
    match out {
        Ok(d) => model == Ok::<TypeExprView, TranspileErrorView>(d@),
        Err(e) => model == Err::<TypeExprView, TranspileErrorView>(e@),
    }
}

fn unresolved_error(r: &SymbolRef, referrer: &String) -> (e: TranspileError)
    ensures
        e@ == unresolved(r@, referrer@),
{
    TranspileError::UnresolvedReference { symbol: r.name.clone(), referrer: referrer.clone() }
}

fn resolve_into(d: &Dependency, r: &SymbolRef) -> (out: SymbolRef)
    requires
        d@.wf(),
        r@.wf(),
    ensures
        out@ == resolved_into(d@, r@),
        out@.wf(),
{
    SymbolRef { lib_name: Some(d.name.clone()), name: r.name.clone(), resolved_id: Some(d.id) }
}

/// Resolves one reference.
pub fn resolve_ref(
    local: &Vec<String>,
    dep_names: &Vec<String>,
    deps: &Vec<Dependency>,
    referrer: &String,
    r: &SymbolRef,
) -> (out: Result<SymbolRef, TranspileError>)
    requires
        names_ready(local@),
        deps_ready(dep_names@, deps@),
        r@.wf(),
    ensures
        ref_result_is(out, spec_resolve_ref(texts(local@), dep_views(deps@), referrer@, r@)),
        out matches Ok(x) ==> x@.wf(),
{
    let ghost dv = dep_views(deps@);
    proof {
        lemma_ident_is_ascii(r@.name);
    }
    match &r.lib_name {
        None => {
            let (_p, found) = insertion_point(local, &r.name);
            if found {
                return Ok(SymbolRef { lib_name: None, name: r.name.clone(), resolved_id: None });
            }
            let n: usize = deps.len();
            let mut i: usize = 0;
            while i < n
                invariant
                    n == deps.len(),
                    dv == dep_views(deps@),
                    deps_ready(dep_names@, deps@),
                    r@.wf(),
                    r@.lib_name is None,
                    !texts(local@).contains(r@.name),
                    0 <= i <= n,
                    forall|j: int| 0 <= j < i ==> !(#[trigger] dv[j]).types.contains(r@.name),
                decreases n - i,
            {
                assert(dv[i as int] == deps@[i as int]@);
                if deps[i].offers(&r.name) {
                    proof {
                        let at = i as int;
                        assert(is_first_offer(dv, r@.name, at));
                        let c = choose|c: int| is_first_offer(dv, r@.name, c);
                        assert(is_first_offer(dv, r@.name, c));
                        if c < at {
                            assert(!dv[c].types.contains(r@.name));
                        } else if at < c {
                            assert(!dv[at].types.contains(r@.name));
                        }
                        assert(first_offer(dv, r@.name) == Some(at));
                        assert(!texts(local@).contains(r@.name));
                        assert(r@.lib_name is None);
                    }
                    let resolved = resolve_into(&deps[i], r);
                    assert(resolved@ == resolved_into(dv[i as int], r@));
                    return Ok(resolved);
                }
                i += 1;
            }
            assert(first_offer(dv, r@.name) is None);
            Err(unresolved_error(r, referrer))
        },
        Some(lib) => {
            proof {
                lemma_ident_is_ascii(lib@);
                assert forall|i: int| 0 <= i < dep_names.len() implies vstd::utf8::is_ascii_chars(
                    #[trigger] texts(dep_names@)[i],
                ) by {
                    assert(deps@[i]@.wf());
                    assert(dep_names@[i]@ == deps@[i].name@);
                    lemma_ident_is_ascii(deps@[i]@.name);
                }
            }
            let (p, found) = insertion_point(dep_names, lib);
            if !found {
                proof {
                    if exists|i: int| 0 <= i < dv.len() && (#[trigger] dv[i]).name == lib@ {
                        let i = choose|i: int| 0 <= i < dv.len() && (#[trigger] dv[i]).name == lib@;
                        assert(texts(dep_names@)[i] == lib@);
                    }
                }
                return Err(unresolved_error(r, referrer));
            }
            proof {
                let at = p as int;
                assert(texts(dep_names@)[at] == lib@);
                assert(dv[at].name == lib@);
                let c = choose|i: int| 0 <= i < dv.len() && (#[trigger] dv[i]).name == lib@;
                assert(texts(dep_names@)[c] == lib@);
                if c < at {
                    lemma_name_lt_asymmetric(texts(dep_names@)[c], texts(dep_names@)[at]);
                } else if at < c {
                    lemma_name_lt_asymmetric(texts(dep_names@)[at], texts(dep_names@)[c]);
                }
                assert(find_dep(dv, lib@) == Some(at));
            }
            let d = &deps[p];
            let mismatch = match &r.resolved_id {
                Some(id) => !id.same(&d.id),
                None => false,
            };
            if mismatch {
                Err(
                    TranspileError::DependencyMismatch {
                        lib: lib.clone(),
                        referrer: referrer.clone(),
                    },
                )
            } else if d.offers(&r.name) {
                Ok(resolve_into(d, r))
            } else {
                Err(unresolved_error(r, referrer))
            }
        },
    }
}

fn resolve_fields(
    local: &Vec<String>,
    dep_names: &Vec<String>,
    deps: &Vec<Dependency>,
    referrer: &String,
    fields: &Vec<Field>,
) -> (out: Result<Vec<Field>, TranspileError>)
    requires
        names_ready(local@),
        deps_ready(dep_names@, deps@),
        fields_wf(field_views(fields@)),
    ensures
        match out {
            Ok(v) => spec_resolve_fields(
                texts(local@),
                dep_views(deps@),
                referrer@,
                field_views(fields@),
            ) == Ok::<Seq<FieldView>, TranspileErrorView>(field_views(v@)) && fields_wf(
                field_views(v@),
            ),
            Err(e) => spec_resolve_fields(
                texts(local@),
                dep_views(deps@),
                referrer@,
                field_views(fields@),
            ) == Err::<Seq<FieldView>, TranspileErrorView>(e@),
        },
{
    let ghost all = field_views(fields@);
    let ghost keys = texts(local@);
    let ghost dv = dep_views(deps@);
    let n: usize = fields.len();
    let mut done: Vec<Field> = Vec::new();
    let mut i: usize = 0;
    assert(all.subrange(0, n as int) =~= all);
    assert(field_views(done@) =~= Seq::empty());
    while i < n
        invariant
            n == fields.len(),
            all == field_views(fields@),
            keys == texts(local@),
            dv == dep_views(deps@),
            names_ready(local@),
            deps_ready(dep_names@, deps@),
            fields_wf(all),
            0 <= i <= n,
            done@.len() == i,
            forall|k: int|
                0 <= k < i ==> (#[trigger] done@[k])@.name == all[k].name && done@[k]@.ty.wf(),
            spec_resolve_fields(keys, dv, referrer@, all) == prefixed(
                field_views(done@),
                spec_resolve_fields(keys, dv, referrer@, all.subrange(i as int, n as int)),
            ),
        decreases n - i,
    {
        let ghost tail = all.subrange(i as int, n as int);
        assert(tail[0] == all[i as int]);
        assert(all[i as int] == fields@[i as int]@);
        assert(tail.drop_first() =~= all.subrange(i + 1, n as int));
        match resolve_ref(local, dep_names, deps, referrer, &fields[i].ty) {
            Err(e) => {
                return Err(e);
            },
            Ok(ty) => {
                let ghost before = field_views(done@);
                let f = Field { name: fields[i].name.clone(), ty };
                done.push(f);
                proof {
                    assert(field_views(done@) =~= before + seq![f@]);
                    let rest = spec_resolve_fields(keys, dv, referrer@, tail.drop_first());
                    if let Ok(more) = rest {
                        assert(before + (seq![f@] + more) =~= (before + seq![f@]) + more);
                    }
                }
                i += 1;
            },
        }
    }
    proof {
        assert(all.subrange(n as int, n as int) =~= Seq::empty());
        assert(field_views(done@) + Seq::<FieldView>::empty() =~= field_views(done@));
        let out = field_views(done@);
        assert forall|a: int, b: int| 0 <= a < b < out.len() implies (#[trigger] out[a]).name != (
        #[trigger] out[b]).name by {
            assert(out[a].name == all[a].name);
            assert(out[b].name == all[b].name);
        }
        assert forall|a: int| 0 <= a < out.len() implies is_field_name(
            (#[trigger] out[a]).name,
        ) && out[a].ty.wf() by {
            assert(out[a] == done@[a]@);
            assert(out[a].name == all[a].name);
        }
    }
    Ok(done)
}

/// Resolves the references of one definition, made in the symbol `referrer`.
pub fn resolve_def(
    local: &Vec<String>,
    dep_names: &Vec<String>,
    deps: &Vec<Dependency>,
    referrer: &String,
    def: &TypeExpr,
) -> (out: Result<TypeExpr, TranspileError>)
    requires
        names_ready(local@),
        deps_ready(dep_names@, deps@),
        def@.wf(),
    ensures
        def_result_is(out, spec_resolve_def(texts(local@), dep_views(deps@), referrer@, def@)),
        out matches Ok(d) ==> d@.wf(),
{
    match def {
        TypeExpr::Primitive(code) => Ok(TypeExpr::Primitive(*code)),
        TypeExpr::Enum(variants) => {
            let copy = copy_variants(variants);
            Ok(TypeExpr::Enum(copy))
        },
        TypeExpr::Struct(fields) => match resolve_fields(local, dep_names, deps, referrer, fields) {
            Ok(resolved) => Ok(TypeExpr::Struct(resolved)),
            Err(e) => Err(e),
        },
        TypeExpr::Collection(item, sizing) => match resolve_ref(
            local,
            dep_names,
            deps,
            referrer,
            item,
        ) {
            Ok(resolved) => Ok(TypeExpr::Collection(resolved, *sizing)),
            Err(e) => Err(e),
        },
        TypeExpr::Reference(target) => match resolve_ref(local, dep_names, deps, referrer, target) {
            Ok(resolved) => Ok(TypeExpr::Reference(resolved)),
            Err(e) => Err(e),
        },
    }
}

fn copy_variants(variants: &Vec<Variant>) -> (out: Vec<Variant>)
    ensures
        variant_views(out@) == variant_views(variants@),
{
    let n: usize = variants.len();
    let mut out: Vec<Variant> = Vec::new();
    let mut i: usize = 0;
    while i < n
        invariant
            n == variants.len(),
            0 <= i <= n,
            out@.len() == i,
            forall|k: int| 0 <= k < i ==> (#[trigger] out@[k])@ == variants@[k]@,
        decreases n - i,
    {
        out.push(Variant { name: variants[i].name.clone(), tag: variants[i].tag });
        i += 1;
    }
    assert(variant_views(out@) =~= variant_views(variants@));
    out
}

/// Resolves the references of every definition of a library. The names are
/// those of the library's symbols, in order, and `defs` their definitions.
pub fn resolve_symbols(
    local: &Vec<String>,
    defs: &Vec<TypeExpr>,
    dep_names: &Vec<String>,
    deps: &Vec<Dependency>,
) -> (out: Result<Vec<TypeExpr>, TranspileError>)
    requires
        names_ready(local@),
        deps_ready(dep_names@, deps@),
        local.len() == defs.len(),
        forall|i: int| 0 <= i < defs.len() ==> (#[trigger] defs@[i])@.wf(),
    ensures
        match out {
            Ok(v) => v.len() == defs.len() && spec_resolve_symbols(
                texts(local@),
                dep_views(deps@),
                symbol_views(local@, defs@),
            ) == Ok::<Seq<TypeSymbolView>, TranspileErrorView>(symbol_views(local@, v@))
                && forall|i: int| 0 <= i < v.len() ==> (#[trigger] v@[i])@.wf(),
            Err(e) => spec_resolve_symbols(
                texts(local@),
                dep_views(deps@),
                symbol_views(local@, defs@),
            ) == Err::<Seq<TypeSymbolView>, TranspileErrorView>(e@),
        },
{
    let ghost all = symbol_views(local@, defs@);
    let ghost keys = texts(local@);
    let ghost dv = dep_views(deps@);
    let n: usize = defs.len();
    let mut done: Vec<TypeExpr> = Vec::new();
    let mut i: usize = 0;
    assert(all.subrange(0, n as int) =~= all);
    assert(symbol_views(local@.subrange(0, 0), done@) =~= Seq::empty());
    while i < n
        invariant
            n == defs.len(),
            n == local.len(),
            all == symbol_views(local@, defs@),
            keys == texts(local@),
            dv == dep_views(deps@),
            names_ready(local@),
            deps_ready(dep_names@, deps@),
            forall|k: int| 0 <= k < defs.len() ==> (#[trigger] defs@[k])@.wf(),
            0 <= i <= n,
            done@.len() == i,
            forall|k: int| 0 <= k < i ==> (#[trigger] done@[k])@.wf(),
            spec_resolve_symbols(keys, dv, all) == prefixed(
                symbol_views(local@.subrange(0, i as int), done@),
                spec_resolve_symbols(keys, dv, all.subrange(i as int, n as int)),
            ),
        decreases n - i,
    {
        let ghost tail = all.subrange(i as int, n as int);
        assert(tail[0] == all[i as int]);
        assert(tail.drop_first() =~= all.subrange(i + 1, n as int));
        match resolve_def(local, dep_names, deps, &local[i], &defs[i]) {
            Err(e) => {
                return Err(e);
            },
            Ok(d) => {
                let ghost before = symbol_views(local@.subrange(0, i as int), done@);
                let ghost item = TypeSymbolView { name: local@[i as int]@, definition: d@ };
                done.push(d);
                proof {
                    assert(symbol_views(local@.subrange(0, i + 1), done@) =~= before + seq![item]);
                    let rest = spec_resolve_symbols(keys, dv, tail.drop_first());
                    if let Ok(more) = rest {
                        assert(before + (seq![item] + more) =~= (before + seq![item]) + more);
                    }
                }
                i += 1;
            },
        }
    }
    proof {
        assert(all.subrange(n as int, n as int) =~= Seq::empty());
        assert(local@.subrange(0, n as int) =~= local@);
        let out = symbol_views(local@, done@);
        assert(out + Seq::<TypeSymbolView>::empty() =~= out);
    }
    Ok(done)
}

/// The names of the dependencies, in their order.
pub open spec fn names_of(deps: Seq<DependencyView>) -> Seq<Seq<char>> {
    Seq::new(deps.len(), |i: int| deps[i].name)
}

/// A resolved reference resolves to itself, whoever makes it.
pub proof fn lemma_resolved_ref_is_fixed(
    local: Seq<Seq<char>>,
    deps: Seq<DependencyView>,
    referrer: Seq<char>,
    again: Seq<char>,
    r: SymbolRefView,
)
    requires
        names_sorted(names_of(deps)),
        spec_resolve_ref(local, deps, referrer, r) is Ok,
    ensures
        spec_resolve_ref(local, deps, again, spec_resolve_ref(local, deps, referrer, r)->Ok_0)
            == spec_resolve_ref(local, deps, referrer, r),
{
    let x = spec_resolve_ref(local, deps, referrer, r)->Ok_0;
    if x.lib_name is Some {
        let lib = x.lib_name->Some_0;
        let i = choose|i: int|
            0 <= i < deps.len() && x == resolved_into(#[trigger] deps[i], r)
                && deps[i].types.contains(r.name);
        match r.lib_name {
            None => {
                let c = first_offer(deps, r.name)->Some_0;
                assert(is_first_offer(deps, r.name, c));
                assert(x == resolved_into(deps[c], r) && deps[c].types.contains(r.name));
            },
            Some(l) => {
                let c = find_dep(deps, l)->Some_0;
                assert(x == resolved_into(deps[c], r) && deps[c].types.contains(r.name));
            },
        }
        assert(deps[i].name == lib);
        let j = find_dep(deps, lib)->Some_0;
        assert(names_of(deps)[i] == lib && names_of(deps)[j] == lib);
        if i < j {
            lemma_name_lt_asymmetric(names_of(deps)[i], names_of(deps)[j]);
        } else if j < i {
            lemma_name_lt_asymmetric(names_of(deps)[j], names_of(deps)[i]);
        }
        assert(resolved_into(deps[i], x) == x);
    }
}

/// Resolved fields resolve to themselves.
pub proof fn lemma_resolved_fields_are_fixed(
    local: Seq<Seq<char>>,
    deps: Seq<DependencyView>,
    referrer: Seq<char>,
    again: Seq<char>,
    fields: Seq<FieldView>,
)
    requires
        names_sorted(names_of(deps)),
        spec_resolve_fields(local, deps, referrer, fields) is Ok,
    ensures
        spec_resolve_fields(
            local,
            deps,
            again,
            spec_resolve_fields(local, deps, referrer, fields)->Ok_0,
        ) == spec_resolve_fields(local, deps, referrer, fields),
    decreases fields.len(),
{
    if fields.len() > 0 {
        let head = spec_resolve_ref(local, deps, referrer, fields[0].ty)->Ok_0;
        let rest = spec_resolve_fields(local, deps, referrer, fields.drop_first())->Ok_0;
        lemma_resolved_ref_is_fixed(local, deps, referrer, again, fields[0].ty);
        lemma_resolved_fields_are_fixed(local, deps, referrer, again, fields.drop_first());
        let out = seq![FieldView { name: fields[0].name, ty: head }] + rest;
        assert(out[0].ty == head);
        assert(out.drop_first() =~= rest);
    }
}

/// A resolved definition resolves to itself.
pub proof fn lemma_resolved_def_is_fixed(
    local: Seq<Seq<char>>,
    deps: Seq<DependencyView>,
    referrer: Seq<char>,
    again: Seq<char>,
    def: TypeExprView,
)
    requires
        names_sorted(names_of(deps)),
        spec_resolve_def(local, deps, referrer, def) is Ok,
    ensures
        spec_resolve_def(local, deps, again, spec_resolve_def(local, deps, referrer, def)->Ok_0)
            == spec_resolve_def(local, deps, referrer, def),
{
    match def {
        TypeExprView::Primitive(_) => {},
        TypeExprView::Enum(_) => {},
        TypeExprView::Struct(fields) => {
            lemma_resolved_fields_are_fixed(local, deps, referrer, again, fields);
        },
        TypeExprView::Collection(item, _) => {
            lemma_resolved_ref_is_fixed(local, deps, referrer, again, item);
        },
        TypeExprView::Reference(target) => {
            lemma_resolved_ref_is_fixed(local, deps, referrer, again, target);
        },
    }
}

/// Resolved symbols resolve to themselves: resolving a second time changes
/// nothing.
pub proof fn lemma_resolved_symbols_are_fixed(
    local: Seq<Seq<char>>,
    deps: Seq<DependencyView>,
    symbols: Seq<TypeSymbolView>,
)
    requires
        names_sorted(names_of(deps)),
        spec_resolve_symbols(local, deps, symbols) is Ok,
    ensures
        spec_resolve_symbols(local, deps, spec_resolve_symbols(local, deps, symbols)->Ok_0)
            == spec_resolve_symbols(local, deps, symbols),
        spec_resolve_symbols(local, deps, symbols)->Ok_0.len() == symbols.len(),
        forall|i: int|
            0 <= i < symbols.len() ==> (#[trigger] spec_resolve_symbols(
                local,
                deps,
                symbols,
            )->Ok_0[i]).name == symbols[i].name,
    decreases symbols.len(),
{
    if symbols.len() > 0 {
        let name = symbols[0].name;
        let head = spec_resolve_def(local, deps, name, symbols[0].definition)->Ok_0;
        let rest = spec_resolve_symbols(local, deps, symbols.drop_first())->Ok_0;
        lemma_resolved_def_is_fixed(local, deps, name, name, symbols[0].definition);
        lemma_resolved_symbols_are_fixed(local, deps, symbols.drop_first());
        let out = seq![TypeSymbolView { name, definition: head }] + rest;
        assert(out[0].definition == head);
        assert(out.drop_first() =~= rest);
        assert forall|i: int| 0 <= i < symbols.len() implies (#[trigger] out[i]).name
            == symbols[i].name by {
            if i > 0 {
                assert(out[i] == rest[i - 1]);
                assert(symbols.drop_first()[i - 1] == symbols[i]);
            }
        }
    }
}

/// The references that a definition holds, in their order.
pub open spec fn refs_of(def: TypeExprView) -> Seq<SymbolRefView> {
    match def {
        TypeExprView::Primitive(_) => Seq::empty(),
        TypeExprView::Enum(_) => Seq::empty(),
        TypeExprView::Struct(fields) => Seq::new(fields.len(), |k: int| fields[k].ty),
        TypeExprView::Collection(item, _) => seq![item],
        TypeExprView::Reference(target) => seq![target],
    }
}

/// What resolving the reference `k` of the symbol `i` yields.
pub open spec fn ref_outcome(
    local: Seq<Seq<char>>,
    deps: Seq<DependencyView>,
    symbols: Seq<TypeSymbolView>,
    i: int,
    k: int,
) -> Result<SymbolRefView, TranspileErrorView> {
    spec_resolve_ref(local, deps, symbols[i].name, refs_of(symbols[i].definition)[k])
}

/// `i` and `k` point at a reference of one of the symbols.
pub open spec fn is_ref_of(symbols: Seq<TypeSymbolView>, i: int, k: int) -> bool {
    0 <= i < symbols.len() && 0 <= k < refs_of(symbols[i].definition).len()
}

proof fn lemma_fields_outcome(
    local: Seq<Seq<char>>,
    deps: Seq<DependencyView>,
    referrer: Seq<char>,
    fields: Seq<FieldView>,
)
    ensures
        match spec_resolve_fields(local, deps, referrer, fields) {
            Ok(_) => forall|k: int|
                0 <= k < fields.len() ==> spec_resolve_ref(
                    local,
                    deps,
                    referrer,
                    (#[trigger] fields[k]).ty,
                ) is Ok,
            Err(e) => exists|k: int|
                0 <= k < fields.len() && spec_resolve_ref(
                    local,
                    deps,
                    referrer,
                    (#[trigger] fields[k]).ty,
                ) == Err::<SymbolRefView, TranspileErrorView>(e),
        },
    decreases fields.len(),
{
    if fields.len() > 0 {
        let rest = fields.drop_first();
        lemma_fields_outcome(local, deps, referrer, rest);
        match spec_resolve_ref(local, deps, referrer, fields[0].ty) {
            Err(e) => {
                assert(spec_resolve_ref(local, deps, referrer, fields[0].ty) == Err::<
                    SymbolRefView,
                    TranspileErrorView,
                >(e));
            },
            Ok(_) => match spec_resolve_fields(local, deps, referrer, rest) {
                Ok(_) => {
                    assert forall|k: int| 0 <= k < fields.len() implies spec_resolve_ref(
                        local,
                        deps,
                        referrer,
                        (#[trigger] fields[k]).ty,
                    ) is Ok by {
                        if k > 0 {
                            assert(fields[k] == rest[k - 1]);
                        }
                    }
                },
                Err(e) => {
                    let k = choose|k: int|
                        0 <= k < rest.len() && spec_resolve_ref(
                            local,
                            deps,
                            referrer,
                            (#[trigger] rest[k]).ty,
                        ) == Err::<SymbolRefView, TranspileErrorView>(e);
                    assert(fields[k + 1] == rest[k]);
                },
            },
        }
    }
}

proof fn lemma_def_outcome(
    local: Seq<Seq<char>>,
    deps: Seq<DependencyView>,
    referrer: Seq<char>,
    def: TypeExprView,
)
    ensures
        match spec_resolve_def(local, deps, referrer, def) {
            Ok(_) => forall|k: int|
                0 <= k < refs_of(def).len() ==> spec_resolve_ref(
                    local,
                    deps,
                    referrer,
                    #[trigger] refs_of(def)[k],
                ) is Ok,
            Err(e) => exists|k: int|
                0 <= k < refs_of(def).len() && spec_resolve_ref(
                    local,
                    deps,
                    referrer,
                    #[trigger] refs_of(def)[k],
                ) == Err::<SymbolRefView, TranspileErrorView>(e),
        },
{
    match def {
        TypeExprView::Primitive(_) => {},
        TypeExprView::Enum(_) => {},
        TypeExprView::Struct(fields) => {
            lemma_fields_outcome(local, deps, referrer, fields);
            match spec_resolve_fields(local, deps, referrer, fields) {
                Ok(_) => {
                    assert forall|k: int| 0 <= k < refs_of(def).len() implies spec_resolve_ref(
                        local,
                        deps,
                        referrer,
                        #[trigger] refs_of(def)[k],
                    ) is Ok by {
                        assert(refs_of(def)[k] == fields[k].ty);
                    }
                },
                Err(e) => {
                    let k = choose|k: int|
                        0 <= k < fields.len() && spec_resolve_ref(
                            local,
                            deps,
                            referrer,
                            (#[trigger] fields[k]).ty,
                        ) == Err::<SymbolRefView, TranspileErrorView>(e);
                    assert(refs_of(def)[k] == fields[k].ty);
                },
            }
        },
        TypeExprView::Collection(item, _) => {
            assert(refs_of(def)[0] == item);
        },
        TypeExprView::Reference(target) => {
            assert(refs_of(def)[0] == target);
        },
    }
}

/// Resolution completeness: a library resolves exactly when every reference
/// of every symbol resolves; and when it does not, the error reported is the
/// error of one of its references, which names the symbol that is missing
/// and the symbol that refers to it.
pub proof fn lemma_resolution_is_complete(
    local: Seq<Seq<char>>,
    deps: Seq<DependencyView>,
    symbols: Seq<TypeSymbolView>,
)
    ensures
        spec_resolve_symbols(local, deps, symbols) is Ok <==> forall|i: int, k: int|
            is_ref_of(symbols, i, k) ==> #[trigger] ref_outcome(local, deps, symbols, i, k) is Ok,
        spec_resolve_symbols(local, deps, symbols) matches Err(e) ==> exists|i: int, k: int|
            is_ref_of(symbols, i, k) && #[trigger] ref_outcome(local, deps, symbols, i, k) == Err::<
                SymbolRefView,
                TranspileErrorView,
            >(e),
    decreases symbols.len(),
{
    if symbols.len() > 0 {
        let rest = symbols.drop_first();
        let name = symbols[0].name;
        let def = symbols[0].definition;
        lemma_resolution_is_complete(local, deps, rest);
        lemma_def_outcome(local, deps, name, def);
        assert forall|i: int, k: int| is_ref_of(rest, i, k) implies is_ref_of(symbols, i + 1, k)
            && ref_outcome(local, deps, rest, i, k) == ref_outcome(local, deps, symbols, i + 1, k) by {
            assert(rest[i] == symbols[i + 1]);
        }
        match spec_resolve_def(local, deps, name, def) {
            Err(e) => {
                let k = choose|k: int|
                    0 <= k < refs_of(def).len() && spec_resolve_ref(
                        local,
                        deps,
                        name,
                        #[trigger] refs_of(def)[k],
                    ) == Err::<SymbolRefView, TranspileErrorView>(e);
                assert(is_ref_of(symbols, 0, k) && ref_outcome(local, deps, symbols, 0, k) == Err::<
                    SymbolRefView,
                    TranspileErrorView,
                >(e));
            },
            Ok(_) => match spec_resolve_symbols(local, deps, rest) {
                Err(e) => {
                    let (i, k) = choose|i: int, k: int|
                        is_ref_of(rest, i, k) && #[trigger] ref_outcome(local, deps, rest, i, k)
                            == Err::<SymbolRefView, TranspileErrorView>(e);
                    assert(is_ref_of(symbols, i + 1, k) && ref_outcome(
                        local,
                        deps,
                        symbols,
                        i + 1,
                        k,
                    ) == Err::<SymbolRefView, TranspileErrorView>(e));
                },
                Ok(_) => {
                    assert forall|i: int, k: int| is_ref_of(symbols, i, k) implies #[trigger] ref_outcome(
                        local,
                        deps,
                        symbols,
                        i,
                        k,
                    ) is Ok by {
                        if i > 0 {
                            assert(is_ref_of(rest, i - 1, k));
                            assert(ref_outcome(local, deps, rest, i - 1, k) is Ok);
                        } else {
                            assert(spec_resolve_ref(local, deps, name, refs_of(def)[k]) is Ok);
                        }
                    }
                },
            },
        }
    }
}

/// A reference without a library name resolves exactly when the library or
/// one of its dependencies holds the name; when neither does, the error names
/// the missing symbol and the symbol that refers to it.
pub proof fn lemma_plain_ref_outcome(
    local: Seq<Seq<char>>,
    deps: Seq<DependencyView>,
    referrer: Seq<char>,
    r: SymbolRefView,
)
    requires
        r.lib_name is None,
    ensures
        spec_resolve_ref(local, deps, referrer, r) is Ok <==> local.contains(r.name) || exists|
            i: int,
        |
            0 <= i < deps.len() && (#[trigger] deps[i]).types.contains(r.name),
        spec_resolve_ref(local, deps, referrer, r) is Err ==> spec_resolve_ref(
            local,
            deps,
            referrer,
            r,
        ) == Err::<SymbolRefView, TranspileErrorView>(
            TranspileErrorView::UnresolvedReference { symbol: r.name, referrer },
        ),
{
    if exists|i: int| 0 <= i < deps.len() && (#[trigger] deps[i]).types.contains(r.name) {
        let i = choose|i: int| 0 <= i < deps.len() && (#[trigger] deps[i]).types.contains(r.name);
        lemma_first_offer_exists(deps, r.name, i);
    }
    if first_offer(deps, r.name) is Some {
        let c = choose|c: int| is_first_offer(deps, r.name, c);
        assert(deps[c].types.contains(r.name));
    }
}

proof fn lemma_first_offer_exists(deps: Seq<DependencyView>, name: Seq<char>, i: int)
    requires
        0 <= i < deps.len(),
        deps[i].types.contains(name),
    ensures
        exists|c: int| is_first_offer(deps, name, c),
    decreases i,
{
    if exists|j: int| 0 <= j < i && (#[trigger] deps[j]).types.contains(name) {
        let j = choose|j: int| 0 <= j < i && (#[trigger] deps[j]).types.contains(name);
        lemma_first_offer_exists(deps, name, j);
    } else {
        assert(is_first_offer(deps, name, i));
    }
}

} // verus!
