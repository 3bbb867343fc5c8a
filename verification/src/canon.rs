//! The canonical serialisation of a type definition, and the digest taken of
//! it.
//!
//! Every name is written as its length in one byte followed by its
//! characters; a definition starts with one byte that tells its kind. The
//! serialisation of a symbol starts with the digest of a fixed tag, written
//! twice, so that a digest of a type is never a digest of anything else.

use crate::ast::{
    field_views, variant_views, Field, FieldView, Sizing, SymbolRef, SymbolRefView, TypeExpr,
    TypeExprView, TypeSymbolView, Variant, VariantView,
};
use crate::digest::{sha256, sha256_of};
use crate::ident::{is_ident_body, lemma_ident_is_ascii, text_bytes};
use crate::symbolic::{DependencyView, LibView};
use vstd::bytes::{spec_u16_to_le_bytes, spec_u64_to_le_bytes, u64_to_le_bytes};
use vstd::prelude::*;
use vstd::string::*;

verus! {

/// The tag under which types are hashed: `urn:ubideco:strict-types:typ:v01`.
pub const SEM_ID_TAG: [u8; 32] = [117, 114, 110, 58, 117, 98, 105, 100, 101, 99, 111, 58, 115, 116, 114, 105, 99, 116, 45, 116, 121, 112, 101, 115, 58, 116, 121, 112, 58, 118, 48, 49];

/// The tag under which libraries are hashed: `urn:ubideco:strict-types:lib:v01`.
pub const LIB_ID_TAG: [u8; 32] = [117, 114, 110, 58, 117, 98, 105, 100, 101, 99, 111, 58, 115, 116, 114, 105, 99, 116, 45, 116, 121, 112, 101, 115, 58, 108, 105, 98, 58, 118, 48, 49];

/// Kind bytes of the five forms of definition.
pub const KIND_PRIMITIVE: u8 = 0;

/// An enumeration.
pub const KIND_ENUM: u8 = 3;

/// A structure.
pub const KIND_STRUCT: u8 = 5;

/// Another name for a type.
pub const KIND_REFERENCE: u8 = 6;

/// A collection.
pub const KIND_COLLECTION: u8 = 8;

/// A name: its length, then its characters.
pub open spec fn name_frame(name: Seq<char>) -> Seq<u8> {
    seq![name.len() as u8] + text_bytes(name)
}

/// A reference: `0` and the name for a type of the same library; `1`, the
/// identity of the library and the name for a type of a dependency.
pub open spec fn ref_frame(r: SymbolRefView) -> Seq<u8> {
    match r.resolved_id {
        Some(id) => seq![1u8] + id + name_frame(r.name),
        None => seq![0u8] + name_frame(r.name),
    }
}

/// A variant: its name, then its tag.
pub open spec fn variant_frame(v: VariantView) -> Seq<u8> {
    name_frame(v.name) + seq![v.tag]
}

/// A field: its name, then the reference to its type.
pub open spec fn field_frame(f: FieldView) -> Seq<u8> {
    name_frame(f.name) + ref_frame(f.ty)
}

/// The variants one after another, in their declared order.
pub open spec fn variants_frame(variants: Seq<VariantView>) -> Seq<u8>
    decreases variants.len(),
{
    if variants.len() == 0 {
        Seq::empty()
    } else {
        variants_frame(variants.drop_last()) + variant_frame(variants.last())
    }
}

/// The fields one after another, in their declared order.
pub open spec fn fields_frame(fields: Seq<FieldView>) -> Seq<u8>
    decreases fields.len(),
{
    if fields.len() == 0 {
        Seq::empty()
    } else {
        fields_frame(fields.drop_last()) + field_frame(fields.last())
    }
}

/// The bounds of a collection: the least and the greatest number of
/// elements, each in eight bytes, low byte first.
pub open spec fn sizing_frame(sizing: Sizing) -> Seq<u8> {
    spec_u64_to_le_bytes(sizing.min) + spec_u64_to_le_bytes(sizing.max)
}

/// The kind byte, then what the definition holds.
pub open spec fn def_frame(def: TypeExprView) -> Seq<u8> {
    match def {
        TypeExprView::Primitive(code) => seq![KIND_PRIMITIVE, code],
        TypeExprView::Struct(fields) => seq![KIND_STRUCT] + fields_frame(fields),
        TypeExprView::Enum(variants) => seq![KIND_ENUM] + variants_frame(variants),
        TypeExprView::Collection(item, sizing) => seq![KIND_COLLECTION] + ref_frame(item)
            + sizing_frame(sizing),
        TypeExprView::Reference(target) => seq![KIND_REFERENCE] + ref_frame(target),
    }
}

/// The digest of a tag, twice.
pub open spec fn tag_prefix(tag: Seq<u8>) -> Seq<u8> {
    sha256(tag) + sha256(tag)
}

/// What is hashed for a type: the tag prefix, its name and its definition.
pub open spec fn sem_preimage(symbol: TypeSymbolView) -> Seq<u8> {
    tag_prefix(SEM_ID_TAG@) + name_frame(symbol.name) + def_frame(symbol.definition)
}

/// The digest that stands for a type in the identity of its library.
pub open spec fn sem_id(symbol: TypeSymbolView) -> Seq<u8> {
    sha256(sem_preimage(symbol))
}

/// Appends all of `bytes` to `out`.
pub fn push_bytes(out: &mut Vec<u8>, bytes: &[u8])
    ensures
        final(out)@ == old(out)@ + bytes@,
{
    let n: usize = bytes.len();
    let mut i: usize = 0;
    while i < n
        invariant
            n == bytes.len(),
            0 <= i <= n,
            out@ == old(out)@ + bytes@.subrange(0, i as int),
        decreases n - i,
    {
        out.push(bytes[i]);
        assert(bytes@.subrange(0, i + 1) =~= bytes@.subrange(0, i as int).push(bytes@[i as int]));
        i += 1;
    }
    assert(bytes@.subrange(0, n as int) =~= bytes@);
}

/// Appends the digest of `tag`, twice.
pub fn push_tag_prefix(out: &mut Vec<u8>, tag: &[u8; 32])
    ensures
        final(out)@ == old(out)@ + tag_prefix(tag@),
{
    let digest = sha256_of(tag.as_slice());
    push_bytes(out, digest.as_slice());
    push_bytes(out, digest.as_slice());
    assert(out@ =~= old(out)@ + tag_prefix(tag@));
}

/// Appends the frame of a name.
pub fn push_name(out: &mut Vec<u8>, name: &String)
    requires
        is_ident_body(name@),
    ensures
        final(out)@ == old(out)@ + name_frame(name@),
{
    let text = name.as_str();
    proof {
        lemma_ident_is_ascii(name@);
        is_ascii_spec_bytes(text);
    }
    let bytes = text.as_bytes();
    assert(bytes@ =~= text_bytes(name@));
    let n: usize = bytes.len();
    out.push(n as u8);
    push_bytes(out, bytes);
    assert(out@ =~= old(out)@ + name_frame(name@));
}

/// Appends the frame of a reference.
pub fn push_ref(out: &mut Vec<u8>, r: &SymbolRef)
    requires
        r@.wf(),
    ensures
        final(out)@ == old(out)@ + ref_frame(r@),
{
    match &r.resolved_id {
        Some(id) => {
            out.push(1u8);
            let bytes = id.to_byte_array();
            push_bytes(out, bytes.as_slice());
        },
        None => {
            out.push(0u8);
        },
    }
    push_name(out, &r.name);
    assert(out@ =~= old(out)@ + ref_frame(r@));
}

fn push_variants(out: &mut Vec<u8>, variants: &Vec<Variant>)
    requires
        forall|i: int| 0 <= i < variants.len() ==> is_ident_body((#[trigger] variants@[i])@.name),
    ensures
        final(out)@ == old(out)@ + variants_frame(variant_views(variants@)),
{
    let ghost views = variant_views(variants@);
    let n: usize = variants.len();
    let mut i: usize = 0;
    while i < n
        invariant
            n == variants.len(),
            views == variant_views(variants@),
            0 <= i <= n,
            forall|k: int| 0 <= k < variants.len() ==> is_ident_body((#[trigger] variants@[k])@.name),
            out@ == old(out)@ + variants_frame(views.subrange(0, i as int)),
        decreases n - i,
    {
        push_name(out, &variants[i].name);
        out.push(variants[i].tag);
        proof {
            let head = views.subrange(0, i + 1);
            assert(head.drop_last() =~= views.subrange(0, i as int));
            assert(head.last() == variants@[i as int]@);
            assert(out@ =~= old(out)@ + variants_frame(head));
        }
        i += 1;
    }
    assert(views.subrange(0, n as int) =~= views);
}

fn push_fields(out: &mut Vec<u8>, fields: &Vec<Field>)
    requires
        forall|i: int|
            0 <= i < fields.len() ==> is_ident_body((#[trigger] fields@[i])@.name)
                && fields@[i]@.ty.wf(),
    ensures
        final(out)@ == old(out)@ + fields_frame(field_views(fields@)),
{
    let ghost views = field_views(fields@);
    let n: usize = fields.len();
    let mut i: usize = 0;
    while i < n
        invariant
            n == fields.len(),
            views == field_views(fields@),
            0 <= i <= n,
            forall|k: int|
                0 <= k < fields.len() ==> is_ident_body((#[trigger] fields@[k])@.name)
                    && fields@[k]@.ty.wf(),
            out@ == old(out)@ + fields_frame(views.subrange(0, i as int)),
        decreases n - i,
    {
        push_name(out, &fields[i].name);
        push_ref(out, &fields[i].ty);
        proof {
            let head = views.subrange(0, i + 1);
            assert(head.drop_last() =~= views.subrange(0, i as int));
            assert(head.last() == fields@[i as int]@);
            assert(out@ =~= old(out)@ + fields_frame(head));
        }
        i += 1;
    }
    assert(views.subrange(0, n as int) =~= views);
}

/// Appends the frame of a definition.
pub fn push_def(out: &mut Vec<u8>, def: &TypeExpr)
    requires
        def@.wf(),
    ensures
        final(out)@ == old(out)@ + def_frame(def@),
{
    match def {
        TypeExpr::Primitive(code) => {
            out.push(KIND_PRIMITIVE);
            out.push(*code);
        },
        TypeExpr::Struct(fields) => {
            out.push(KIND_STRUCT);
            assert forall|i: int| 0 <= i < fields.len() implies is_ident_body(
                (#[trigger] fields@[i])@.name,
            ) && fields@[i]@.ty.wf() by {
                assert(field_views(fields@)[i] == fields@[i]@);
            }
            push_fields(out, fields);
        },
        TypeExpr::Enum(variants) => {
            out.push(KIND_ENUM);
            assert forall|i: int| 0 <= i < variants.len() implies is_ident_body(
                (#[trigger] variants@[i])@.name,
            ) by {
                assert(variant_views(variants@)[i] == variants@[i]@);
            }
            push_variants(out, variants);
        },
        TypeExpr::Collection(item, sizing) => {
            out.push(KIND_COLLECTION);
            push_ref(out, item);
            let min = u64_to_le_bytes(sizing.min);
            push_bytes(out, min.as_slice());
            let max = u64_to_le_bytes(sizing.max);
            push_bytes(out, max.as_slice());
        },
        TypeExpr::Reference(target) => {
            out.push(KIND_REFERENCE);
            push_ref(out, target);
        },
    }
    assert(out@ =~= old(out)@ + def_frame(def@));
}

/// Computes the digest that stands for the type `name` with definition `def`.
pub fn sem_id_of(name: &String, def: &TypeExpr) -> (id: [u8; 32])
    requires
        is_ident_body(name@),
        def@.wf(),
    ensures
        id@ == sem_id(TypeSymbolView { name: name@, definition: def@ }),
{
    let mut out: Vec<u8> = Vec::new();
    push_tag_prefix(&mut out, &SEM_ID_TAG);
    push_name(&mut out, name);
    push_def(&mut out, def);
    assert(out@ =~= sem_preimage(TypeSymbolView { name: name@, definition: def@ }));
    sha256_of(out.as_slice())
}

/// The identities of the dependencies one after another, in their order.
pub open spec fn dep_ids_frame(deps: Seq<DependencyView>) -> Seq<u8>
    decreases deps.len(),
{
    if deps.len() == 0 {
        Seq::empty()
    } else {
        dep_ids_frame(deps.drop_last()) + deps.last().id
    }
}

/// The digests of the symbols one after another, in their order.
pub open spec fn sem_ids_frame(symbols: Seq<TypeSymbolView>) -> Seq<u8>
    decreases symbols.len(),
{
    if symbols.len() == 0 {
        Seq::empty()
    } else {
        sem_ids_frame(symbols.drop_last()) + sem_id(symbols.last())
    }
}

/// What is hashed for a library: the tag prefix, its name, the number of its
/// dependencies in one byte and their identities, the number of its types in
/// two bytes, low byte first, and the digests of its types.
pub open spec fn lib_preimage(lib: LibView) -> Seq<u8> {
    tag_prefix(LIB_ID_TAG@) + name_frame(lib.name) + seq![lib.deps.len() as u8] + dep_ids_frame(
        lib.deps,
    ) + spec_u16_to_le_bytes(lib.symbols.len() as u16) + sem_ids_frame(lib.symbols)
}

/// The identity of a library: the digest of its canonical serialisation.
pub open spec fn lib_id(lib: LibView) -> Seq<u8> {
    sha256(lib_preimage(lib))
}

/// The digest of every symbol of the library is 32 bytes long.
pub open spec fn digests_sized(lib: LibView) -> bool {
    forall|i: int| 0 <= i < lib.symbols.len() ==> sem_id(#[trigger] lib.symbols[i]).len() == 32
}

} // verus!
