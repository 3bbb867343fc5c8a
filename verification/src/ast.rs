//! Type definitions as a library holds them, and their mathematical models.
//!
//! A definition never holds another definition: where a type is built from
//! other named types it refers to them by [`SymbolRef`].

use crate::id::TypeLibId;
use crate::ident::{field_name_ok, is_field_name, is_type_name, type_name_ok};
use vstd::prelude::*;

verus! {

/// A reference to a named type, by name. Without `lib_name` it points into
/// the library that holds it; with it, into that dependency. `resolved_id` is
/// the identity of the library it was resolved against.
#[derive(Clone, Debug, PartialEq, Eq)]
pub struct SymbolRef {
    pub lib_name: Option<String>,
    pub name: String,
    pub resolved_id: Option<TypeLibId>,
}

/// The model of a [`SymbolRef`].
pub struct SymbolRefView {
    pub lib_name: Option<Seq<char>>,
    pub name: Seq<char>,
    pub resolved_id: Option<Seq<u8>>,
}

impl View for SymbolRef {
    type V = SymbolRefView;

    open spec fn view(&self) -> SymbolRefView {
        SymbolRefView {
            lib_name: match self.lib_name {
                Some(l) => Some(l@),
                None => None,
            },
            name: self.name@,
            resolved_id: match self.resolved_id {
                Some(id) => Some(id@),
                None => None,
            },
        }
    }
}

impl SymbolRefView {
    /// The names are identifiers and an identity, where present, is 32 bytes.
    pub open spec fn wf(self) -> bool {
        &&& is_type_name(self.name)
        &&& self.lib_name matches Some(l) ==> is_type_name(l)
        &&& self.resolved_id matches Some(id) ==> id.len() == 32
    }
}

impl SymbolRef {
    /// A reference to a type of the same library.
    pub fn local(name: &str) -> (r: SymbolRef)
        ensures
            r@ == (SymbolRefView { lib_name: None, name: name@, resolved_id: None }),
    {
        SymbolRef { lib_name: None, name: name.to_owned(), resolved_id: None }
    }

    /// A reference to a type of the dependency `lib_name`.
    pub fn external(lib_name: &str, name: &str) -> (r: SymbolRef)
        ensures
            r@ == (SymbolRefView {
                lib_name: Some(lib_name@),
                name: name@,
                resolved_id: None,
            }),
    {
        SymbolRef {
            lib_name: Some(lib_name.to_owned()),
            name: name.to_owned(),
            resolved_id: None,
        }
    }

    /// Tells whether two references say the same.
    pub fn same(&self, other: &SymbolRef) -> (same: bool)
        ensures
            same == (self@ == other@),
    {
        let libs = match (&self.lib_name, &other.lib_name) {
            (Some(a), Some(b)) => *a == *b,
            (None, None) => true,
            _ => false,
        };
        let ids = match (&self.resolved_id, &other.resolved_id) {
            (Some(a), Some(b)) => a.same(b),
            (None, None) => true,
            _ => false,
        };
        libs && ids && self.name == other.name
    }

    /// Tells whether the names in the reference are identifiers.
    pub fn is_valid(&self) -> (ok: bool)
        ensures
            ok == self@.wf(),
    {
        let lib_ok = match &self.lib_name {
            Some(l) => type_name_ok(l.as_str()),
            None => true,
        };
        proof {
            if let Some(id) = self.resolved_id {
                id.lemma_len();
            }
        }
        lib_ok && type_name_ok(self.name.as_str())
    }
}

/// One case of an enumeration: its name and the number that encodes it.
#[derive(Clone, Debug, PartialEq, Eq)]
pub struct Variant {
    pub name: String,
    pub tag: u8,
}

/// The model of a [`Variant`].
pub struct VariantView {
    pub name: Seq<char>,
    pub tag: u8,
}

impl View for Variant {
    type V = VariantView;

    open spec fn view(&self) -> VariantView {
        VariantView { name: self.name@, tag: self.tag }
    }
}

/// One field of a structure: its name and the type it holds.
#[derive(Clone, Debug, PartialEq, Eq)]
pub struct Field {
    pub name: String,
    pub ty: SymbolRef,
}

/// The model of a [`Field`].
pub struct FieldView {
    pub name: Seq<char>,
    pub ty: SymbolRefView,
}

impl View for Field {
    type V = FieldView;

    open spec fn view(&self) -> FieldView {
        FieldView { name: self.name@, ty: self.ty@ }
    }
}

/// How many elements a collection may hold.
#[derive(Clone, Copy, Debug, PartialEq, Eq)]
pub struct Sizing {
    pub min: u64,
    pub max: u64,
}

/// The definition of a type.
#[derive(Clone, Debug, PartialEq, Eq)]
pub enum TypeExpr {
    /// A leaf, known by its code.
    Primitive(u8),
    /// Fields, in the order of their declaration.
    Struct(Vec<Field>),
    /// Variants, in the order of their declaration.
    Enum(Vec<Variant>),
    /// A bounded run of elements of one type.
    Collection(SymbolRef, Sizing),
    /// Another name for a type.
    Reference(SymbolRef),
}

/// The model of a [`TypeExpr`].
pub enum TypeExprView {
    Primitive(u8),
    Struct(Seq<FieldView>),
    Enum(Seq<VariantView>),
    Collection(SymbolRefView, Sizing),
    Reference(SymbolRefView),
}

/// The models of a list of fields.
pub open spec fn field_views(fields: Seq<Field>) -> Seq<FieldView> {
    Seq::new(fields.len(), |i: int| fields[i]@)
}

/// The models of a list of variants.
pub open spec fn variant_views(variants: Seq<Variant>) -> Seq<VariantView> {
    Seq::new(variants.len(), |i: int| variants[i]@)
}

impl View for TypeExpr {
    type V = TypeExprView;

    open spec fn view(&self) -> TypeExprView {
        match self {
            TypeExpr::Primitive(code) => TypeExprView::Primitive(*code),
            TypeExpr::Struct(fields) => TypeExprView::Struct(field_views(fields@)),
            TypeExpr::Enum(variants) => TypeExprView::Enum(variant_views(variants@)),
            TypeExpr::Collection(item, sizing) => TypeExprView::Collection(item@, *sizing),
            TypeExpr::Reference(target) => TypeExprView::Reference(target@),
        }
    }
}

/// A structure has between 1 and 255 fields, each with a field name and a
/// sound reference, and no two fields share a name.
pub open spec fn fields_wf(fields: Seq<FieldView>) -> bool {
    &&& 1 <= fields.len() <= 255
    &&& forall|i: int|
        0 <= i < fields.len() ==> is_field_name((#[trigger] fields[i]).name) && fields[i].ty.wf()
    &&& forall|i: int, j: int|
        0 <= i < j < fields.len() ==> (#[trigger] fields[i]).name != (#[trigger] fields[j]).name
}

/// An enumeration has between 1 and 256 variants, each with a variant name,
/// and no two variants share a name or a tag.
pub open spec fn variants_wf(variants: Seq<VariantView>) -> bool {
    &&& 1 <= variants.len() <= 256
    &&& forall|i: int| 0 <= i < variants.len() ==> is_field_name((#[trigger] variants[i]).name)
    &&& forall|i: int, j: int|
        0 <= i < j < variants.len() ==> (#[trigger] variants[i]).name != (#[trigger] variants[j]).name
            && variants[i].tag != variants[j].tag
}

impl TypeExprView {
    /// A definition is well formed when its fields, its variants and its
    /// references are, and the least size of a collection does not exceed its
    /// greatest.
    pub open spec fn wf(self) -> bool {
        match self {
            TypeExprView::Primitive(_) => true,
            TypeExprView::Struct(fields) => fields_wf(fields),
            TypeExprView::Enum(variants) => variants_wf(variants),
            TypeExprView::Collection(item, sizing) => item.wf() && sizing.min <= sizing.max,
            TypeExprView::Reference(target) => target.wf(),
        }
    }
}

fn fields_valid(fields: &Vec<Field>) -> (ok: bool)
    ensures
        ok == fields_wf(field_views(fields@)),
{
    let ghost views = field_views(fields@);
    let n: usize = fields.len();
    if n < 1 || n > 255 {
        return false;
    }
    let mut i: usize = 0;
    while i < n
        invariant
            n == fields.len(),
            views == field_views(fields@),
            0 <= i <= n,
            forall|k: int| 0 <= k < i ==> is_field_name((#[trigger] views[k]).name) && views[k].ty.wf(),
            forall|k: int, j: int|
                0 <= k < j < n && k < i ==> (#[trigger] views[k]).name != (#[trigger] views[j]).name,
        decreases n - i,
    {
        assert(views[i as int] == fields@[i as int]@);
        if !field_name_ok(fields[i].name.as_str()) || !fields[i].ty.is_valid() {
            return false;
        }
        let mut j: usize = i + 1;
        while j < n
            invariant
                n == fields.len(),
                views == field_views(fields@),
                0 <= i < j <= n,
                forall|m: int| i < m < j ==> views[i as int].name != (#[trigger] views[m]).name,
            decreases n - j,
        {
            assert(views[j as int] == fields@[j as int]@);
            assert(views[i as int] == fields@[i as int]@);
            if fields[i].name == fields[j].name {
                return false;
            }
            j += 1;
        }
        i += 1;
    }
    true
}

fn variants_valid(variants: &Vec<Variant>) -> (ok: bool)
    ensures
        ok == variants_wf(variant_views(variants@)),
{
    let ghost views = variant_views(variants@);
    let n: usize = variants.len();
    if n < 1 || n > 256 {
        return false;
    }
    let mut i: usize = 0;
    while i < n
        invariant
            n == variants.len(),
            views == variant_views(variants@),
            0 <= i <= n,
            forall|k: int| 0 <= k < i ==> is_field_name((#[trigger] views[k]).name),
            forall|k: int, j: int|
                0 <= k < j < n && k < i ==> (#[trigger] views[k]).name != (#[trigger] views[j]).name
                    && views[k].tag != views[j].tag,
        decreases n - i,
    {
        assert(views[i as int] == variants@[i as int]@);
        if !field_name_ok(variants[i].name.as_str()) {
            return false;
        }
        let mut j: usize = i + 1;
        while j < n
            invariant
                n == variants.len(),
                views == variant_views(variants@),
                0 <= i < j <= n,
                forall|m: int|
                    i < m < j ==> views[i as int].name != (#[trigger] views[m]).name
                        && views[i as int].tag != views[m].tag,
            decreases n - j,
        {
            assert(views[j as int] == variants@[j as int]@);
            assert(views[i as int] == variants@[i as int]@);
            if variants[i].name == variants[j].name || variants[i].tag == variants[j].tag {
                return false;
            }
            j += 1;
        }
        i += 1;
    }
    true
}

fn same_fields(a: &Vec<Field>, b: &Vec<Field>) -> (same: bool)
    ensures
        same == (field_views(a@) == field_views(b@)),
{
    let n: usize = a.len();
    if b.len() != n {
        assert(field_views(a@).len() != field_views(b@).len());
        return false;
    }
    let mut i: usize = 0;
    while i < n
        invariant
            n == a.len(),
            n == b.len(),
            0 <= i <= n,
            forall|k: int| 0 <= k < i ==> (#[trigger] a@[k])@ == b@[k]@,
        decreases n - i,
    {
        if !(a[i].name == b[i].name && a[i].ty.same(&b[i].ty)) {
            assert(field_views(a@)[i as int] != field_views(b@)[i as int]);
            return false;
        }
        i += 1;
    }
    assert(field_views(a@) =~= field_views(b@));
    true
}

fn same_variants(a: &Vec<Variant>, b: &Vec<Variant>) -> (same: bool)
    ensures
        same == (variant_views(a@) == variant_views(b@)),
{
    let n: usize = a.len();
    if b.len() != n {
        assert(variant_views(a@).len() != variant_views(b@).len());
        return false;
    }
    let mut i: usize = 0;
    while i < n
        invariant
            n == a.len(),
            n == b.len(),
            0 <= i <= n,
            forall|k: int| 0 <= k < i ==> (#[trigger] a@[k])@ == b@[k]@,
        decreases n - i,
    {
        if !(a[i].name == b[i].name && a[i].tag == b[i].tag) {
            assert(variant_views(a@)[i as int] != variant_views(b@)[i as int]);
            return false;
        }
        i += 1;
    }
    assert(variant_views(a@) =~= variant_views(b@));
    true
}

impl TypeExpr {
    /// Tells whether two definitions say the same.
    pub fn same(&self, other: &TypeExpr) -> (same: bool)
        ensures
            same == (self@ == other@),
    {
        match (self, other) {
            (TypeExpr::Primitive(a), TypeExpr::Primitive(b)) => *a == *b,
            (TypeExpr::Struct(a), TypeExpr::Struct(b)) => same_fields(a, b),
            (TypeExpr::Enum(a), TypeExpr::Enum(b)) => same_variants(a, b),
            (TypeExpr::Collection(a, m), TypeExpr::Collection(b, n)) => a.same(b) && m.min == n.min
                && m.max == n.max,
            (TypeExpr::Reference(a), TypeExpr::Reference(b)) => a.same(b),
            _ => false,
        }
    }

    /// Tells whether the definition is well formed.
    pub fn is_valid(&self) -> (ok: bool)
        ensures
            ok == self@.wf(),
    {
        match self {
            TypeExpr::Primitive(_) => true,
            TypeExpr::Struct(fields) => fields_valid(fields),
            TypeExpr::Enum(variants) => variants_valid(variants),
            TypeExpr::Collection(item, sizing) => item.is_valid() && sizing.min <= sizing.max,
            TypeExpr::Reference(target) => target.is_valid(),
        }
    }
}

/// A named type definition, as it is handed to a builder.
#[derive(Clone, Debug, PartialEq, Eq)]
pub struct TypeSymbol {
    pub name: String,
    pub definition: TypeExpr,
}

/// The model of a [`TypeSymbol`].
pub struct TypeSymbolView {
    pub name: Seq<char>,
    pub definition: TypeExprView,
}

impl View for TypeSymbol {
    type V = TypeSymbolView;

    open spec fn view(&self) -> TypeSymbolView {
        TypeSymbolView { name: self.name@, definition: self.definition@ }
    }
}

impl TypeSymbolView {
    /// A symbol is well formed when its name names a type and its definition
    /// is well formed.
    pub open spec fn wf(self) -> bool {
        is_type_name(self.name) && self.definition.wf()
    }
}

impl TypeSymbol {
    /// Tells whether the symbol can stand in a library: its names are
    /// identifiers of the right kind and its definition is well formed.
    pub fn is_valid(&self) -> (ok: bool)
        ensures
            ok == self@.wf(),
    {
        type_name_ok(self.name.as_str()) && self.definition.is_valid()
    }
}

} // verus!
