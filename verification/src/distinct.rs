//! The canonical serialisation tells definitions apart.
//!
//! Every part of a serialisation can be read back from it: a name from its
//! length byte, a reference from its first byte, a definition from its kind
//! byte. So two well-formed symbols with the same serialisation are the same
//! symbol, up to the names under which they refer to their dependencies,
//! which are not written: a dependency is written by its identity.

use crate::ast::{FieldView, Sizing, SymbolRefView, TypeExprView, TypeSymbolView, VariantView};
use crate::canon::{
    def_frame, dep_ids_frame, digests_sized, field_frame, fields_frame, lib_id, lib_preimage,
    name_frame, ref_frame, sem_id, sem_ids_frame, sem_preimage, sizing_frame, tag_prefix,
    variant_frame, variants_frame, LIB_ID_TAG, SEM_ID_TAG,
};
use crate::digest::no_collision;
use crate::id::{stl_text, text_tells_apart};
use crate::symbolic::{DependencyView, LibView};
use crate::typelib::TypeLib;
use vstd::bytes::{
    lemma_auto_spec_u16_to_from_le_bytes, spec_u16_from_le_bytes, spec_u16_to_le_bytes,
};
use crate::ident::{is_field_name, is_ident_body, lemma_ident_is_ascii, text_bytes};
use vstd::bytes::{lemma_auto_spec_u64_to_from_le_bytes, spec_u64_from_le_bytes, spec_u64_to_le_bytes};
use vstd::prelude::*;

verus! {

/// A reference without the name of its library.
pub open spec fn bare_ref(r: SymbolRefView) -> SymbolRefView {
    SymbolRefView { lib_name: None, name: r.name, resolved_id: r.resolved_id }
}

/// Fields without the names of the libraries they refer into.
pub open spec fn bare_fields(fields: Seq<FieldView>) -> Seq<FieldView> {
    Seq::new(fields.len(), |i: int| FieldView { name: fields[i].name, ty: bare_ref(fields[i].ty) })
}

/// A definition without the names of the libraries it refers into.
pub open spec fn bare_def(def: TypeExprView) -> TypeExprView {
    match def {
        TypeExprView::Primitive(code) => TypeExprView::Primitive(code),
        TypeExprView::Enum(variants) => TypeExprView::Enum(variants),
        TypeExprView::Struct(fields) => TypeExprView::Struct(bare_fields(fields)),
        TypeExprView::Collection(item, sizing) => TypeExprView::Collection(bare_ref(item), sizing),
        TypeExprView::Reference(target) => TypeExprView::Reference(bare_ref(target)),
    }
}

/// A symbol without the names of the libraries it refers into.
pub open spec fn bare_symbol(symbol: TypeSymbolView) -> TypeSymbolView {
    TypeSymbolView { name: symbol.name, definition: bare_def(symbol.definition) }
}

/// Two byte strings that start with parts of one length and are equal have
/// equal parts and equal rests.
pub proof fn lemma_concat_split(p: Seq<u8>, x: Seq<u8>, q: Seq<u8>, y: Seq<u8>)
    requires
        p + x == q + y,
        p.len() == q.len(),
    ensures
        p == q,
        x == y,
{
    let n = p.len() as int;
    assert(p =~= (p + x).subrange(0, n));
    assert(q =~= (q + y).subrange(0, n));
    assert(x =~= (p + x).subrange(n, (p + x).len() as int));
    assert(y =~= (q + y).subrange(n, (q + y).len() as int));
}

/// A name can be read back from the front of a byte string.
pub proof fn lemma_name_frame_split(a: Seq<char>, x: Seq<u8>, b: Seq<char>, y: Seq<u8>)
    requires
        is_ident_body(a),
        is_ident_body(b),
        name_frame(a) + x == name_frame(b) + y,
    ensures
        a == b,
        x == y,
{
    assert((name_frame(a) + x)[0] == a.len() as u8);
    assert((name_frame(b) + y)[0] == b.len() as u8);
    assert(a.len() == b.len());
    lemma_concat_split(name_frame(a), x, name_frame(b), y);
    lemma_ident_is_ascii(a);
    lemma_ident_is_ascii(b);
    assert forall|i: int| 0 <= i < a.len() implies a[i] == b[i] by {
        assert(name_frame(a)[i + 1] == text_bytes(a)[i]);
        assert(name_frame(b)[i + 1] == text_bytes(b)[i]);
        assert('\0' <= a[i] <= '\u{7f}');
        assert('\0' <= b[i] <= '\u{7f}');
        assert(a[i] as u8 == b[i] as u8);
    }
    assert(a =~= b);
}

/// A reference can be read back from the front of a byte string.
pub proof fn lemma_ref_frame_split(r: SymbolRefView, x: Seq<u8>, s: SymbolRefView, y: Seq<u8>)
    requires
        r.wf(),
        s.wf(),
        ref_frame(r) + x == ref_frame(s) + y,
    ensures
        bare_ref(r) == bare_ref(s),
        x == y,
{
    assert((ref_frame(r) + x)[0] == if r.resolved_id is Some { 1u8 } else { 0u8 });
    assert((ref_frame(s) + y)[0] == if s.resolved_id is Some { 1u8 } else { 0u8 });
    match (r.resolved_id, s.resolved_id) {
        (Some(i), Some(j)) => {
            let p = seq![1u8] + i;
            let q = seq![1u8] + j;
            assert(ref_frame(r) + x =~= p + (name_frame(r.name) + x));
            assert(ref_frame(s) + y =~= q + (name_frame(s.name) + y));
            lemma_concat_split(p, name_frame(r.name) + x, q, name_frame(s.name) + y);
            lemma_concat_split(seq![1u8], i, seq![1u8], j);
            lemma_name_frame_split(r.name, x, s.name, y);
        },
        (None, None) => {
            assert(ref_frame(r) + x =~= seq![0u8] + (name_frame(r.name) + x));
            assert(ref_frame(s) + y =~= seq![0u8] + (name_frame(s.name) + y));
            lemma_concat_split(seq![0u8], name_frame(r.name) + x, seq![0u8], name_frame(s.name) + y);
            lemma_name_frame_split(r.name, x, s.name, y);
        },
        _ => {},
    }
}

/// A variant can be read back from the front of a byte string.
pub proof fn lemma_variant_frame_split(v: VariantView, x: Seq<u8>, w: VariantView, y: Seq<u8>)
    requires
        is_ident_body(v.name),
        is_ident_body(w.name),
        variant_frame(v) + x == variant_frame(w) + y,
    ensures
        v == w,
        x == y,
{
    assert(variant_frame(v) + x =~= name_frame(v.name) + (seq![v.tag] + x));
    assert(variant_frame(w) + y =~= name_frame(w.name) + (seq![w.tag] + y));
    lemma_name_frame_split(v.name, seq![v.tag] + x, w.name, seq![w.tag] + y);
    lemma_concat_split(seq![v.tag], x, seq![w.tag], y);
    assert(seq![v.tag][0] == seq![w.tag][0]);
}

/// A field can be read back from the front of a byte string.
pub proof fn lemma_field_frame_split(f: FieldView, x: Seq<u8>, g: FieldView, y: Seq<u8>)
    requires
        is_ident_body(f.name),
        is_ident_body(g.name),
        f.ty.wf(),
        g.ty.wf(),
        field_frame(f) + x == field_frame(g) + y,
    ensures
        f.name == g.name,
        bare_ref(f.ty) == bare_ref(g.ty),
        x == y,
{
    assert(field_frame(f) + x =~= name_frame(f.name) + (ref_frame(f.ty) + x));
    assert(field_frame(g) + y =~= name_frame(g.name) + (ref_frame(g.ty) + y));
    lemma_name_frame_split(f.name, ref_frame(f.ty) + x, g.name, ref_frame(g.ty) + y);
    lemma_ref_frame_split(f.ty, x, g.ty, y);
}

/// The variants can also be written first to last.
pub proof fn lemma_variants_frame_from_front(variants: Seq<VariantView>)
    requires
        variants.len() > 0,
    ensures
        variants_frame(variants) == variant_frame(variants[0]) + variants_frame(
            variants.drop_first(),
        ),
    decreases variants.len(),
{
    if variants.len() == 1 {
        assert(variants.drop_last() =~= Seq::empty());
        assert(variants.drop_first() =~= Seq::empty());
        assert(variants_frame(variants) =~= variant_frame(variants[0]) + variants_frame(
            variants.drop_first(),
        ));
    } else {
        let init = variants.drop_last();
        lemma_variants_frame_from_front(init);
        let rest = variants.drop_first();
        assert(rest.drop_last() =~= init.drop_first());
        assert(rest.last() == variants.last());
        assert(init[0] == variants[0]);
        assert(variants_frame(variants) =~= variant_frame(variants[0]) + variants_frame(rest));
    }
}

/// The fields can also be written first to last.
pub proof fn lemma_fields_frame_from_front(fields: Seq<FieldView>)
    requires
        fields.len() > 0,
    ensures
        fields_frame(fields) == field_frame(fields[0]) + fields_frame(fields.drop_first()),
    decreases fields.len(),
{
    if fields.len() == 1 {
        assert(fields.drop_last() =~= Seq::empty());
        assert(fields.drop_first() =~= Seq::empty());
        assert(fields_frame(fields) =~= field_frame(fields[0]) + fields_frame(fields.drop_first()));
    } else {
        let init = fields.drop_last();
        lemma_fields_frame_from_front(init);
        let rest = fields.drop_first();
        assert(rest.drop_last() =~= init.drop_first());
        assert(rest.last() == fields.last());
        assert(init[0] == fields[0]);
        assert(fields_frame(fields) =~= field_frame(fields[0]) + fields_frame(rest));
    }
}

/// Every variant has an identifier for its name.
pub open spec fn variant_names_ok(variants: Seq<VariantView>) -> bool {
    forall|i: int| 0 <= i < variants.len() ==> is_ident_body((#[trigger] variants[i]).name)
}

/// Every field has an identifier for its name and a sound reference.
pub open spec fn fields_ok(fields: Seq<FieldView>) -> bool {
    forall|i: int|
        0 <= i < fields.len() ==> is_ident_body((#[trigger] fields[i]).name) && fields[i].ty.wf()
}

/// Lists of variants with the same serialisation are the same list.
pub proof fn lemma_variants_frame_injective(a: Seq<VariantView>, b: Seq<VariantView>)
    requires
        variant_names_ok(a),
        variant_names_ok(b),
        variants_frame(a) == variants_frame(b),
    ensures
        a == b,
    decreases a.len(),
{
    if a.len() == 0 || b.len() == 0 {
        if a.len() > 0 {
            lemma_variants_frame_from_front(a);
            assert(variant_frame(a[0]).len() >= 2);
        }
        if b.len() > 0 {
            lemma_variants_frame_from_front(b);
            assert(variant_frame(b[0]).len() >= 2);
        }
        assert(a =~= b);
    } else {
        lemma_variants_frame_from_front(a);
        lemma_variants_frame_from_front(b);
        let ra = a.drop_first();
        let rb = b.drop_first();
        lemma_variant_frame_split(a[0], variants_frame(ra), b[0], variants_frame(rb));
        assert forall|i: int| 0 <= i < ra.len() implies is_ident_body((#[trigger] ra[i]).name) by {
            assert(ra[i] == a[i + 1]);
        }
        assert forall|i: int| 0 <= i < rb.len() implies is_ident_body((#[trigger] rb[i]).name) by {
            assert(rb[i] == b[i + 1]);
        }
        lemma_variants_frame_injective(ra, rb);
        assert(a =~= seq![a[0]] + ra);
        assert(b =~= seq![b[0]] + rb);
    }
}

/// Lists of fields with the same serialisation are the same list, up to the
/// names of the libraries referred into.
pub proof fn lemma_fields_frame_injective(a: Seq<FieldView>, b: Seq<FieldView>)
    requires
        fields_ok(a),
        fields_ok(b),
        fields_frame(a) == fields_frame(b),
    ensures
        bare_fields(a) == bare_fields(b),
    decreases a.len(),
{
    if a.len() == 0 || b.len() == 0 {
        if a.len() > 0 {
            lemma_fields_frame_from_front(a);
            assert(field_frame(a[0]).len() >= 2);
        }
        if b.len() > 0 {
            lemma_fields_frame_from_front(b);
            assert(field_frame(b[0]).len() >= 2);
        }
        assert(bare_fields(a) =~= bare_fields(b));
    } else {
        lemma_fields_frame_from_front(a);
        lemma_fields_frame_from_front(b);
        let ra = a.drop_first();
        let rb = b.drop_first();
        lemma_field_frame_split(a[0], fields_frame(ra), b[0], fields_frame(rb));
        assert forall|i: int| 0 <= i < ra.len() implies is_ident_body((#[trigger] ra[i]).name)
            && ra[i].ty.wf() by {
            assert(ra[i] == a[i + 1]);
        }
        assert forall|i: int| 0 <= i < rb.len() implies is_ident_body((#[trigger] rb[i]).name)
            && rb[i].ty.wf() by {
            assert(rb[i] == b[i + 1]);
        }
        lemma_fields_frame_injective(ra, rb);
        assert(bare_fields(ra).len() == bare_fields(rb).len());
        assert forall|i: int| 0 <= i < a.len() implies bare_fields(a)[i] == bare_fields(b)[i] by {
            if i > 0 {
                assert(bare_fields(ra)[i - 1] == bare_fields(rb)[i - 1]);
                assert(ra[i - 1] == a[i]);
                assert(rb[i - 1] == b[i]);
            }
        }
        assert(bare_fields(a) =~= bare_fields(b));
    }
}

/// Bounds of a collection can be read back from their sixteen bytes.
pub proof fn lemma_sizing_frame_injective(a: Sizing, b: Sizing)
    requires
        sizing_frame(a) == sizing_frame(b),
    ensures
        a == b,
{
    lemma_auto_spec_u64_to_from_le_bytes();
    lemma_concat_split(
        spec_u64_to_le_bytes(a.min),
        spec_u64_to_le_bytes(a.max),
        spec_u64_to_le_bytes(b.min),
        spec_u64_to_le_bytes(b.max),
    );
    assert(spec_u64_from_le_bytes(spec_u64_to_le_bytes(a.min)) == a.min);
    assert(spec_u64_from_le_bytes(spec_u64_to_le_bytes(b.min)) == b.min);
    assert(spec_u64_from_le_bytes(spec_u64_to_le_bytes(a.max)) == a.max);
    assert(spec_u64_from_le_bytes(spec_u64_to_le_bytes(b.max)) == b.max);
}

/// The byte that tells the kind of a definition.
pub open spec fn kind_byte(def: TypeExprView) -> u8 {
    match def {
        TypeExprView::Primitive(_) => 0,
        TypeExprView::Enum(_) => 3,
        TypeExprView::Struct(_) => 5,
        TypeExprView::Reference(_) => 6,
        TypeExprView::Collection(_, _) => 8,
    }
}

/// A serialised definition starts with its kind byte.
pub proof fn lemma_kind_byte(def: TypeExprView)
    ensures
        def_frame(def).len() > 0,
        def_frame(def)[0] == kind_byte(def),
{
    match def {
        TypeExprView::Primitive(c) => {
            assert(def_frame(def)[0] == 0u8);
        },
        TypeExprView::Enum(v) => {
            assert(def_frame(def) == seq![3u8] + variants_frame(v));
        },
        TypeExprView::Struct(f) => {
            assert(def_frame(def) == seq![5u8] + fields_frame(f));
        },
        TypeExprView::Reference(r) => {
            assert(def_frame(def) == seq![6u8] + ref_frame(r));
        },
        TypeExprView::Collection(r, m) => {
            assert(def_frame(def) =~= seq![8u8] + (ref_frame(r) + sizing_frame(m)));
        },
    }
}

/// Well-formed definitions with the same serialisation are the same
/// definition, up to the names of the libraries referred into.
pub proof fn lemma_def_frame_injective(a: TypeExprView, b: TypeExprView)
    requires
        a.wf(),
        b.wf(),
        def_frame(a) == def_frame(b),
    ensures
        bare_def(a) == bare_def(b),
{
    let none = Seq::<u8>::empty();
    lemma_kind_byte(a);
    lemma_kind_byte(b);
    match (a, b) {
        (TypeExprView::Primitive(c), TypeExprView::Primitive(d)) => {
            assert(def_frame(a)[1] == c);
            assert(def_frame(b)[1] == d);
        },
        (TypeExprView::Enum(v), TypeExprView::Enum(w)) => {
            lemma_concat_split(seq![3u8], variants_frame(v), seq![3u8], variants_frame(w));
            assert(variant_names_ok(v)) by {
                assert forall|i: int| 0 <= i < v.len() implies is_ident_body(
                    (#[trigger] v[i]).name,
                ) by {
                    assert(is_field_name(v[i].name));
                }
            }
            assert(variant_names_ok(w)) by {
                assert forall|i: int| 0 <= i < w.len() implies is_ident_body(
                    (#[trigger] w[i]).name,
                ) by {
                    assert(is_field_name(w[i].name));
                }
            }
            lemma_variants_frame_injective(v, w);
        },
        (TypeExprView::Struct(f), TypeExprView::Struct(g)) => {
            lemma_concat_split(seq![5u8], fields_frame(f), seq![5u8], fields_frame(g));
            assert(fields_ok(f)) by {
                assert forall|i: int| 0 <= i < f.len() implies is_ident_body(
                    (#[trigger] f[i]).name,
                ) && f[i].ty.wf() by {
                    assert(is_field_name(f[i].name));
                }
            }
            assert(fields_ok(g)) by {
                assert forall|i: int| 0 <= i < g.len() implies is_ident_body(
                    (#[trigger] g[i]).name,
                ) && g[i].ty.wf() by {
                    assert(is_field_name(g[i].name));
                }
            }
            lemma_fields_frame_injective(f, g);
        },
        (TypeExprView::Reference(r), TypeExprView::Reference(s)) => {
            lemma_concat_split(seq![6u8], ref_frame(r), seq![6u8], ref_frame(s));
            assert(ref_frame(r) + none =~= ref_frame(r));
            assert(ref_frame(s) + none =~= ref_frame(s));
            lemma_ref_frame_split(r, none, s, none);
        },
        (TypeExprView::Collection(r, m), TypeExprView::Collection(s, n)) => {
            assert(def_frame(a) =~= seq![8u8] + (ref_frame(r) + sizing_frame(m)));
            assert(def_frame(b) =~= seq![8u8] + (ref_frame(s) + sizing_frame(n)));
            lemma_concat_split(
                seq![8u8],
                ref_frame(r) + sizing_frame(m),
                seq![8u8],
                ref_frame(s) + sizing_frame(n),
            );
            lemma_ref_frame_split(r, sizing_frame(m), s, sizing_frame(n));
            lemma_sizing_frame_injective(m, n);
        },
        _ => {},
    }
}

/// Well-formed symbols with the same serialisation are the same symbol, up
/// to the names of the libraries referred into.
pub proof fn lemma_sem_preimage_injective(a: TypeSymbolView, b: TypeSymbolView)
    requires
        a.wf(),
        b.wf(),
        sem_preimage(a) == sem_preimage(b),
    ensures
        bare_symbol(a) == bare_symbol(b),
{
    let t = tag_prefix(SEM_ID_TAG@);
    assert(sem_preimage(a) =~= t + (name_frame(a.name) + def_frame(a.definition)));
    assert(sem_preimage(b) =~= t + (name_frame(b.name) + def_frame(b.definition)));
    lemma_concat_split(
        t,
        name_frame(a.name) + def_frame(a.definition),
        t,
        name_frame(b.name) + def_frame(b.definition),
    );
    lemma_name_frame_split(a.name, def_frame(a.definition), b.name, def_frame(b.definition));
    lemma_def_frame_injective(a.definition, b.definition);
}

proof fn lemma_dep_ids_frame_len(deps: Seq<DependencyView>)
    requires
        forall|i: int| 0 <= i < deps.len() ==> (#[trigger] deps[i]).id.len() == 32,
    ensures
        dep_ids_frame(deps).len() == 32 * deps.len(),
    decreases deps.len(),
{
    if deps.len() > 0 {
        assert forall|i: int| 0 <= i < deps.drop_last().len() implies (
        #[trigger] deps.drop_last()[i]).id.len() == 32 by {
            assert(deps.drop_last()[i] == deps[i]);
        }
        lemma_dep_ids_frame_len(deps.drop_last());
    }
}

proof fn lemma_dep_ids_frame_injective(a: Seq<DependencyView>, b: Seq<DependencyView>)
    requires
        a.len() == b.len(),
        forall|i: int| 0 <= i < a.len() ==> (#[trigger] a[i]).id.len() == 32,
        forall|i: int| 0 <= i < b.len() ==> (#[trigger] b[i]).id.len() == 32,
        dep_ids_frame(a) == dep_ids_frame(b),
    ensures
        forall|i: int| 0 <= i < a.len() ==> (#[trigger] a[i]).id == b[i].id,
    decreases a.len(),
{
    if a.len() > 0 {
        let a0 = a.drop_last();
        let b0 = b.drop_last();
        assert forall|i: int| 0 <= i < a0.len() implies (#[trigger] a0[i]).id.len() == 32 by {
            assert(a0[i] == a[i]);
        }
        assert forall|i: int| 0 <= i < b0.len() implies (#[trigger] b0[i]).id.len() == 32 by {
            assert(b0[i] == b[i]);
        }
        lemma_dep_ids_frame_len(a0);
        lemma_dep_ids_frame_len(b0);
        lemma_concat_split(dep_ids_frame(a0), a.last().id, dep_ids_frame(b0), b.last().id);
        lemma_dep_ids_frame_injective(a0, b0);
        assert forall|i: int| 0 <= i < a.len() implies (#[trigger] a[i]).id == b[i].id by {
            if i < a.len() - 1 {
                assert(a0[i] == a[i]);
                assert(b0[i] == b[i]);
                assert(a0[i].id == b0[i].id);
            }
        }
    }
}

/// The digest of every symbol is 32 bytes long.
pub open spec fn sem_ids_sized(symbols: Seq<TypeSymbolView>) -> bool {
    forall|i: int| 0 <= i < symbols.len() ==> sem_id(#[trigger] symbols[i]).len() == 32
}

proof fn lemma_sem_ids_frame_len(symbols: Seq<TypeSymbolView>)
    requires
        sem_ids_sized(symbols),
    ensures
        sem_ids_frame(symbols).len() == 32 * symbols.len(),
    decreases symbols.len(),
{
    if symbols.len() > 0 {
        assert forall|i: int| 0 <= i < symbols.drop_last().len() implies sem_id(
            #[trigger] symbols.drop_last()[i],
        ).len() == 32 by {
            assert(symbols.drop_last()[i] == symbols[i]);
        }
        lemma_sem_ids_frame_len(symbols.drop_last());
        assert(sem_id(symbols[symbols.len() - 1]).len() == 32);
    }
}

proof fn lemma_sem_ids_frame_injective(a: Seq<TypeSymbolView>, b: Seq<TypeSymbolView>)
    requires
        a.len() == b.len(),
        sem_ids_sized(a),
        sem_ids_sized(b),
        sem_ids_frame(a) == sem_ids_frame(b),
    ensures
        forall|i: int| 0 <= i < a.len() ==> sem_id(#[trigger] a[i]) == sem_id(b[i]),
    decreases a.len(),
{
    if a.len() > 0 {
        let a0 = a.drop_last();
        let b0 = b.drop_last();
        assert forall|i: int| 0 <= i < a0.len() implies sem_id(#[trigger] a0[i]).len() == 32 by {
            assert(a0[i] == a[i]);
        }
        assert forall|i: int| 0 <= i < b0.len() implies sem_id(#[trigger] b0[i]).len() == 32 by {
            assert(b0[i] == b[i]);
        }
        lemma_sem_ids_frame_len(a0);
        lemma_sem_ids_frame_len(b0);
        lemma_concat_split(
            sem_ids_frame(a0),
            sem_id(a.last()),
            sem_ids_frame(b0),
            sem_id(b.last()),
        );
        lemma_sem_ids_frame_injective(a0, b0);
        assert forall|i: int| 0 <= i < a.len() implies sem_id(#[trigger] a[i]) == sem_id(b[i]) by {
            if i < a.len() - 1 {
                assert(a0[i] == a[i]);
                assert(b0[i] == b[i]);
                assert(sem_id(a0[i]) == sem_id(b0[i]));
            }
        }
    }
}

/// What the serialisation of a library fixes: its name, the identities of
/// its dependencies in their order, and the digests of its symbols in theirs.
pub open spec fn same_parts(a: LibView, b: LibView) -> bool {
    &&& a.name == b.name
    &&& a.deps.len() == b.deps.len()
    &&& forall|i: int| 0 <= i < a.deps.len() ==> (#[trigger] a.deps[i]).id == b.deps[i].id
    &&& a.symbols.len() == b.symbols.len()
    &&& forall|i: int|
        0 <= i < a.symbols.len() ==> sem_id(#[trigger] a.symbols[i]) == sem_id(b.symbols[i])
}

/// Well-formed libraries with the same serialisation have the same parts.
pub proof fn lemma_lib_preimage_injective(a: LibView, b: LibView)
    requires
        a.wf(),
        b.wf(),
        digests_sized(a),
        digests_sized(b),
        lib_preimage(a) == lib_preimage(b),
    ensures
        same_parts(a, b),
{
    lemma_auto_spec_u16_to_from_le_bytes();
    let t = tag_prefix(LIB_ID_TAG@);
    let na = seq![a.deps.len() as u8];
    let nb = seq![b.deps.len() as u8];
    let ca = spec_u16_to_le_bytes(a.symbols.len() as u16);
    let cb = spec_u16_to_le_bytes(b.symbols.len() as u16);
    let da = dep_ids_frame(a.deps);
    let db = dep_ids_frame(b.deps);
    let sa = sem_ids_frame(a.symbols);
    let sb = sem_ids_frame(b.symbols);
    assert(lib_preimage(a) =~= t + (name_frame(a.name) + (na + (da + (ca + sa)))));
    assert(lib_preimage(b) =~= t + (name_frame(b.name) + (nb + (db + (cb + sb)))));
    lemma_concat_split(
        t,
        name_frame(a.name) + (na + (da + (ca + sa))),
        t,
        name_frame(b.name) + (nb + (db + (cb + sb))),
    );
    lemma_name_frame_split(a.name, na + (da + (ca + sa)), b.name, nb + (db + (cb + sb)));
    lemma_concat_split(na, da + (ca + sa), nb, db + (cb + sb));
    assert(na[0] == nb[0]);
    assert(a.deps.len() == b.deps.len());
    assert forall|i: int| 0 <= i < a.deps.len() implies (#[trigger] a.deps[i]).id.len() == 32 by {
        assert(a.deps[i].wf());
    }
    assert forall|i: int| 0 <= i < b.deps.len() implies (#[trigger] b.deps[i]).id.len() == 32 by {
        assert(b.deps[i].wf());
    }
    lemma_dep_ids_frame_len(a.deps);
    lemma_dep_ids_frame_len(b.deps);
    lemma_concat_split(da, ca + sa, db, cb + sb);
    lemma_dep_ids_frame_injective(a.deps, b.deps);
    lemma_concat_split(ca, sa, cb, sb);
    assert(spec_u16_from_le_bytes(ca) == a.symbols.len() as u16);
    assert(spec_u16_from_le_bytes(cb) == b.symbols.len() as u16);
    assert(a.symbols.len() == b.symbols.len());
    lemma_sem_ids_frame_injective(a.symbols, b.symbols);
}

/// Content sensitivity. Two compiled libraries with one identity have the
/// same name, the same identities of dependencies and the same symbols (up
/// to the names under which they refer to their dependencies), unless the
/// digest collides on their serialisations. So a change of a field's name, of
/// the order of fields or variants, or of the identity of a dependency
/// referred to changes the identity of the library.
pub proof fn lemma_identity_tells_content_apart(a: TypeLib, b: TypeLib)
    requires
        a.wf(),
        b.wf(),
        a@.id == b@.id,
        no_collision(lib_preimage(a@.lib), lib_preimage(b@.lib)),
        forall|i: int|
            0 <= i < a@.lib.symbols.len() && i < b@.lib.symbols.len() ==> no_collision(
                sem_preimage(#[trigger] a@.lib.symbols[i]),
                sem_preimage(b@.lib.symbols[i]),
            ),
    ensures
        a@.lib.name == b@.lib.name,
        a@.lib.deps.len() == b@.lib.deps.len(),
        forall|i: int| 0 <= i < a@.lib.deps.len() ==> (#[trigger] a@.lib.deps[i]).id == b@.lib.deps[i].id,
        a@.lib.symbols.len() == b@.lib.symbols.len(),
        forall|i: int|
            0 <= i < a@.lib.symbols.len() ==> bare_symbol(#[trigger] a@.lib.symbols[i])
                == bare_symbol(b@.lib.symbols[i]),
{
    a.lemma_wf();
    b.lemma_wf();
    let x = a@.lib;
    let y = b@.lib;
    assert(lib_id(x) == lib_id(y));
    lemma_lib_preimage_injective(x, y);
    assert forall|i: int| 0 <= i < x.symbols.len() implies bare_symbol(#[trigger] x.symbols[i])
        == bare_symbol(y.symbols[i]) by {
        assert(sem_id(x.symbols[i]) == sem_id(y.symbols[i]));
        assert(no_collision(sem_preimage(x.symbols[i]), sem_preimage(y.symbols[i])));
        assert(x.symbols[i].wf());
        assert(y.symbols[i].wf());
        lemma_sem_preimage_injective(x.symbols[i], y.symbols[i]);
    }
}

/// Content sensitivity of the identifier text: two compiled libraries with
/// one identifier text have the same parts, as
/// [`lemma_identity_tells_content_apart`] says, unless the digest collides on
/// their serialisations or the text stands for two identities.
pub proof fn lemma_identifier_text_tells_content_apart(a: TypeLib, b: TypeLib)
    requires
        a.wf(),
        b.wf(),
        stl_text(a@.id) == stl_text(b@.id),
        text_tells_apart(a@.id, b@.id),
        no_collision(lib_preimage(a@.lib), lib_preimage(b@.lib)),
        forall|i: int|
            0 <= i < a@.lib.symbols.len() && i < b@.lib.symbols.len() ==> no_collision(
                sem_preimage(#[trigger] a@.lib.symbols[i]),
                sem_preimage(b@.lib.symbols[i]),
            ),
    ensures
        a@.lib.name == b@.lib.name,
        a@.lib.deps.len() == b@.lib.deps.len(),
        forall|i: int| 0 <= i < a@.lib.deps.len() ==> (#[trigger] a@.lib.deps[i]).id == b@.lib.deps[i].id,
        a@.lib.symbols.len() == b@.lib.symbols.len(),
        forall|i: int|
            0 <= i < a@.lib.symbols.len() ==> bare_symbol(#[trigger] a@.lib.symbols[i])
                == bare_symbol(b@.lib.symbols[i]),
{
    lemma_identity_tells_content_apart(a, b);
}

} // verus!
