//! The standard library of primitive and alphabet types.
//!
//! Its types are the enumerations that `strict_encoding` declares in its
//! catalogue: the boolean, the unsigned integers of one to seven bits, and the
//! restricted character sets. Which types these are is written down here, in
//! [`std_roster`]; their names and variants are read from that crate and the
//! names are held against the roster.

use crate::ast::{
    variant_views, TypeExpr, TypeExprView, TypeSymbol, TypeSymbolView, Variant, VariantView,
};
use crate::determinism::{lemma_transpile_all_adds, spec_transpile_all};
use crate::id::stl_text;
use crate::symbolic::{
    dep_views, is_resolved, lemma_resolved_lib_is_fixed, lib_result_is, spec_compile_symbols,
    spec_new, BuilderView, Dependency, LibBuilder, LibView, SymbolicLib, TranspileError,
    TranspileErrorView,
};
use crate::typelib::{spec_compile, TypeLib, TypeLibView};
use strict_encoding::stl::{
    Alpha, AlphaCaps, AlphaCapsDash, AlphaCapsDot, AlphaCapsLodash, AlphaCapsNum, AlphaDash,
    AlphaDot, AlphaLodash, AlphaNum, AlphaNumDash, AlphaNumDot, AlphaNumLodash, AlphaSmall,
    AlphaSmallDash, AlphaSmallDot, AlphaSmallLodash, AsciiPrintable, AsciiSym, Bool, Dec, DecDot,
    HexDecCaps, HexDecSmall, U1, U2, U3, U4, U5, U6, U7,
};
use strict_encoding::{StrictSum, StrictType, TypeName};
use vstd::prelude::*;

verus! {

/// The identifier of the standard library.
pub const LIB_ID_STD: &'static str =
    "stl:gonrTQ8L-cFSvdEs-F6MHXnS-MDplxjy-8_lZ5j5-_lY8MWo#delete-roman-hair";

/// The identifier of the library of the types that schemas are made of.
pub const LIB_ID_STRICT_TYPES: &'static str =
    "stl:6Z6S5ztA-l3_RfoW-uOIW~K0-04t7R_3-KIiByhE-1W4rPFA#henry-heart-survive";

/// The identifier of the library of Bitcoin types.
pub const LIB_ID_BITCOIN: &'static str =
    "stl:x84tWPaG-KhMKAJm-_4wwMRK-hMLiHxT-YzwLHrW-zkyRBso#strong-samba-analyze";

/// The identifier of the library of the Bitcoin transaction.
pub const LIB_ID_BITCOIN_TX: &'static str =
    "stl:9WwTYiP2-OadKCZP-cR0bJ_Y-qruINYX-bXZFj8Y-fsQoGgo#signal-color-cipher";

/// The number of types in the catalogue.
pub const STD_TYPES: u8 = 31;

/// The catalogue is read in groups of this many types.
pub const STD_GROUP: u8 = 8;

/// The name that the catalogue gives to the type at place `slot` of its
/// group `group`, if it names it.
pub uninterp spec fn std_type_name(group: u8, slot: u8) -> Option<Seq<char>>;

/// The variants that the catalogue declares for the type at place `slot` of
/// its group `group`: tag and name of each, in the order of their
/// declaration.
pub uninterp spec fn std_type_variants(group: u8, slot: u8) -> Seq<(u8, Seq<char>)>;

/// The name read is the one that `model` describes.
pub open spec fn name_is(name: Option<String>, model: Option<Seq<char>>) -> bool {
    match name {
        Some(n) => model == Some(n@),
        None => model is None,
    }
}

/// The texts of pairs of tag and name.
pub open spec fn pair_views(pairs: Seq<(u8, String)>) -> Seq<(u8, Seq<char>)> {
    Seq::new(pairs.len(), |i: int| (pairs[i].0, pairs[i].1@))
}

/// Reads group 0 of the catalogue, the boolean and the unsigned integers of one to seven bits: calls
/// `StrictType::strict_name` of the type at place `slot` and reads its
/// `StrictSum::ALL_VARIANTS`, the tag and the name of each variant as
/// declared. Both depend on the type alone.
#[verifier::external_body]
fn catalog_numbers(group: u8, slot: u8) -> (entry: (Option<String>, Vec<(u8, String)>))
    requires
        group == 0,
        slot < 8,
    ensures
        name_is(entry.0, std_type_name(group, slot)),
        pair_views(entry.1@) == std_type_variants(group, slot),
{
    let table: [(fn() -> Option<TypeName>, &[(u8, &str)]); 8] = [
        (Bool::strict_name, Bool::ALL_VARIANTS), (U1::strict_name, U1::ALL_VARIANTS),
        (U2::strict_name, U2::ALL_VARIANTS), (U3::strict_name, U3::ALL_VARIANTS),
        (U4::strict_name, U4::ALL_VARIANTS), (U5::strict_name, U5::ALL_VARIANTS),
        (U6::strict_name, U6::ALL_VARIANTS), (U7::strict_name, U7::ALL_VARIANTS),
    ];
    let (name, variants) = table[usize::from(slot)];
    (name().map(|n| n.to_string()), variants.iter().map(|v| (v.0, v.1.to_string())).collect())
}

/// Reads group 1 of the catalogue, the ASCII sets and the first sets of letters: calls
/// `StrictType::strict_name` of the type at place `slot` and reads its
/// `StrictSum::ALL_VARIANTS`, the tag and the name of each variant as
/// declared. Both depend on the type alone.
#[verifier::external_body]
fn catalog_letters(group: u8, slot: u8) -> (entry: (Option<String>, Vec<(u8, String)>))
    requires
        group == 1,
        slot < 8,
    ensures
        name_is(entry.0, std_type_name(group, slot)),
        pair_views(entry.1@) == std_type_variants(group, slot),
{
    let table: [(fn() -> Option<TypeName>, &[(u8, &str)]); 8] = [
        (AsciiSym::strict_name, AsciiSym::ALL_VARIANTS), (AsciiPrintable::strict_name, AsciiPrintable::ALL_VARIANTS),
        (Alpha::strict_name, Alpha::ALL_VARIANTS), (AlphaDot::strict_name, AlphaDot::ALL_VARIANTS),
        (AlphaDash::strict_name, AlphaDash::ALL_VARIANTS), (AlphaLodash::strict_name, AlphaLodash::ALL_VARIANTS),
        (AlphaCaps::strict_name, AlphaCaps::ALL_VARIANTS), (AlphaCapsDot::strict_name, AlphaCapsDot::ALL_VARIANTS),
    ];
    let (name, variants) = table[usize::from(slot)];
    (name().map(|n| n.to_string()), variants.iter().map(|v| (v.0, v.1.to_string())).collect())
}

/// Reads group 2 of the catalogue, the further sets of letters and the decimal digits: calls
/// `StrictType::strict_name` of the type at place `slot` and reads its
/// `StrictSum::ALL_VARIANTS`, the tag and the name of each variant as
/// declared. Both depend on the type alone.
#[verifier::external_body]
fn catalog_cases(group: u8, slot: u8) -> (entry: (Option<String>, Vec<(u8, String)>))
    requires
        group == 2,
        slot < 8,
    ensures
        name_is(entry.0, std_type_name(group, slot)),
        pair_views(entry.1@) == std_type_variants(group, slot),
{
    let table: [(fn() -> Option<TypeName>, &[(u8, &str)]); 8] = [
        (AlphaCapsDash::strict_name, AlphaCapsDash::ALL_VARIANTS), (AlphaCapsLodash::strict_name, AlphaCapsLodash::ALL_VARIANTS),
        (AlphaSmall::strict_name, AlphaSmall::ALL_VARIANTS), (AlphaSmallDot::strict_name, AlphaSmallDot::ALL_VARIANTS),
        (AlphaSmallDash::strict_name, AlphaSmallDash::ALL_VARIANTS), (AlphaSmallLodash::strict_name, AlphaSmallLodash::ALL_VARIANTS),
        (Dec::strict_name, Dec::ALL_VARIANTS), (DecDot::strict_name, DecDot::ALL_VARIANTS),
    ];
    let (name, variants) = table[usize::from(slot)];
    (name().map(|n| n.to_string()), variants.iter().map(|v| (v.0, v.1.to_string())).collect())
}

/// Reads group 3 of the catalogue, the hexadecimal digits and the sets of letters and digits: calls
/// `StrictType::strict_name` of the type at place `slot` and reads its
/// `StrictSum::ALL_VARIANTS`, the tag and the name of each variant as
/// declared. Both depend on the type alone.
#[verifier::external_body]
fn catalog_digits(group: u8, slot: u8) -> (entry: (Option<String>, Vec<(u8, String)>))
    requires
        group == 3,
        slot < 7,
    ensures
        name_is(entry.0, std_type_name(group, slot)),
        pair_views(entry.1@) == std_type_variants(group, slot),
{
    let table: [(fn() -> Option<TypeName>, &[(u8, &str)]); 7] = [
        (HexDecCaps::strict_name, HexDecCaps::ALL_VARIANTS), (HexDecSmall::strict_name, HexDecSmall::ALL_VARIANTS),
        (AlphaNum::strict_name, AlphaNum::ALL_VARIANTS), (AlphaCapsNum::strict_name, AlphaCapsNum::ALL_VARIANTS),
        (AlphaNumDot::strict_name, AlphaNumDot::ALL_VARIANTS), (AlphaNumDash::strict_name, AlphaNumDash::ALL_VARIANTS),
        (AlphaNumLodash::strict_name, AlphaNumLodash::ALL_VARIANTS),
    ];
    let (name, variants) = table[usize::from(slot)];
    (name().map(|n| n.to_string()), variants.iter().map(|v| (v.0, v.1.to_string())).collect())
}

/// The names of the types of the standard library, in the order in which it
/// takes them.
pub open spec fn std_roster(index: u8) -> Seq<char> {
    if index == 0 {
        "Bool"@
    } else if index == 1 {
        "U1"@
    } else if index == 2 {
        "U2"@
    } else if index == 3 {
        "U3"@
    } else if index == 4 {
        "U4"@
    } else if index == 5 {
        "U5"@
    } else if index == 6 {
        "U6"@
    } else if index == 7 {
        "U7"@
    } else if index == 8 {
        "Ascii"@
    } else if index == 9 {
        "AsciiPrintable"@
    } else if index == 10 {
        "Alpha"@
    } else if index == 11 {
        "AlphaDot"@
    } else if index == 12 {
        "AlphaDash"@
    } else if index == 13 {
        "AlphaLodash"@
    } else if index == 14 {
        "AlphaCaps"@
    } else if index == 15 {
        "AlphaCapsDot"@
    } else if index == 16 {
        "AlphaCapsDash"@
    } else if index == 17 {
        "AlphaCapsLodash"@
    } else if index == 18 {
        "AlphaSmall"@
    } else if index == 19 {
        "AlphaSmallDot"@
    } else if index == 20 {
        "AlphaSmallDash"@
    } else if index == 21 {
        "AlphaSmallLodash"@
    } else if index == 22 {
        "Dec"@
    } else if index == 23 {
        "DecDot"@
    } else if index == 24 {
        "HexDecCaps"@
    } else if index == 25 {
        "HexDecSmall"@
    } else if index == 26 {
        "AlphaNum"@
    } else if index == 27 {
        "AlphaCapsNum"@
    } else if index == 28 {
        "AlphaNumDot"@
    } else if index == 29 {
        "AlphaNumDash"@
    } else {
        "AlphaNumLodash"@
    }
}

/// The name of the type that the standard library takes at place `index`.
pub fn roster_name(index: u8) -> (name: &'static str)
    requires
        index < STD_TYPES,
    ensures
        name@ == std_roster(index),
{
    match index {
        0 => "Bool",
        1 => "U1",
        2 => "U2",
        3 => "U3",
        4 => "U4",
        5 => "U5",
        6 => "U6",
        7 => "U7",
        8 => "Ascii",
        9 => "AsciiPrintable",
        10 => "Alpha",
        11 => "AlphaDot",
        12 => "AlphaDash",
        13 => "AlphaLodash",
        14 => "AlphaCaps",
        15 => "AlphaCapsDot",
        16 => "AlphaCapsDash",
        17 => "AlphaCapsLodash",
        18 => "AlphaSmall",
        19 => "AlphaSmallDot",
        20 => "AlphaSmallDash",
        21 => "AlphaSmallLodash",
        22 => "Dec",
        23 => "DecDot",
        24 => "HexDecCaps",
        25 => "HexDecSmall",
        26 => "AlphaNum",
        27 => "AlphaCapsNum",
        28 => "AlphaNumDot",
        29 => "AlphaNumDash",
        _ => "AlphaNumLodash",
    }
}

/// The name that the catalogue gives to the type at place `index`.
pub open spec fn std_name_at(index: u8) -> Option<Seq<char>> {
    std_type_name(index / STD_GROUP, index % STD_GROUP)
}

/// The variants that the catalogue declares for the type at place `index`.
pub open spec fn std_variants_at(index: u8) -> Seq<(u8, Seq<char>)> {
    std_type_variants(index / STD_GROUP, index % STD_GROUP)
}

/// Reads the entry of the catalogue at place `index`: its name and its
/// variants.
pub fn catalog_entry(index: u8) -> (entry: (Option<String>, Vec<(u8, String)>))
    requires
        index < STD_TYPES,
    ensures
        name_is(entry.0, std_name_at(index)),
        pair_views(entry.1@) == std_variants_at(index),
{
    let group: u8 = index / STD_GROUP;
    let slot: u8 = index % STD_GROUP;
    if group == 0 {
        catalog_numbers(group, slot)
    } else if group == 1 {
        catalog_letters(group, slot)
    } else if group == 2 {
        catalog_cases(group, slot)
    } else {
        catalog_digits(group, slot)
    }
}

/// The variants of an enumeration, from pairs of tag and name.
pub open spec fn variants_of(pairs: Seq<(u8, Seq<char>)>) -> Seq<VariantView> {
    Seq::new(pairs.len(), |i: int| VariantView { name: pairs[i].1, tag: pairs[i].0 })
}

/// The symbol made of a name and the variants of an enumeration.
pub open spec fn enum_symbol(name: Seq<char>, pairs: Seq<(u8, Seq<char>)>) -> TypeSymbolView {
    TypeSymbolView { name, definition: TypeExprView::Enum(variants_of(pairs)) }
}

/// Makes the symbol of an enumeration from its name and its variants.
pub fn enum_symbol_from(name: String, pairs: Vec<(u8, String)>) -> (symbol: TypeSymbol)
    ensures
        symbol@ == enum_symbol(name@, pair_views(pairs@)),
{
    let n: usize = pairs.len();
    let mut variants: Vec<Variant> = Vec::new();
    let mut i: usize = 0;
    while i < n
        invariant
            n == pairs.len(),
            0 <= i <= n,
            variants@.len() == i,
            forall|k: int|
                0 <= k < i ==> (#[trigger] variants@[k])@ == (VariantView {
                    name: pairs@[k].1@,
                    tag: pairs@[k].0,
                }),
        decreases n - i,
    {
        variants.push(Variant { name: pairs[i].1.clone(), tag: pairs[i].0 });
        i += 1;
    }
    let symbol = TypeSymbol { name, definition: TypeExpr::Enum(variants) };
    assert(variant_views(variants@) =~= variants_of(pair_views(pairs@)));
    symbol
}

/// The catalogue names its type at place `index` as the roster does.
pub open spec fn std_agrees(index: u8) -> bool {
    std_name_at(index) == Some(std_roster(index))
}

/// `index` is the first place at which the catalogue and the roster differ.
pub open spec fn is_first_stranger(index: u8) -> bool {
    &&& index < STD_TYPES
    &&& !std_agrees(index)
    &&& forall|j: u8| j < index ==> #[trigger] std_agrees(j)
}

/// The symbol of the type at place `index`: the name of the roster and the
/// variants of the catalogue.
pub open spec fn std_symbol(index: u8) -> TypeSymbolView {
    enum_symbol(std_roster(index), std_variants_at(index))
}

/// The symbols of the first `n` types.
pub open spec fn std_symbols(n: nat) -> Seq<TypeSymbolView> {
    Seq::new(n, |i: int| std_symbol(i as u8))
}

/// The builder of the standard library after it took the first `n` types.
pub open spec fn std_builder(n: nat) -> BuilderView {
    spec_transpile_all(spec_new("Std"@), std_symbols(n))
}

/// What building the standard library yields: where the catalogue names a
/// type otherwise than the roster, the first such type is reported as
/// malformed; else the library of the 31 symbols, with its references
/// resolved.
pub open spec fn std_sym_model() -> Result<LibView, TranspileErrorView> {
    if exists|i: u8| is_first_stranger(i) {
        Err(TranspileErrorView::Malformed(std_roster(choose|i: u8| is_first_stranger(i))))
    } else {
        spec_compile_symbols(std_builder(STD_TYPES as nat))
    }
}

/// The catalogue can be built into a library: it names its types as the
/// roster does, and each has variants that a library takes.
pub open spec fn std_catalog_sound() -> bool {
    std_sym_model() is Ok
}

/// `name` is one of the names of the roster.
pub open spec fn in_roster(name: Seq<char>) -> bool {
    exists|i: u8| i < STD_TYPES && name == #[trigger] std_roster(i)
}

/// The library holds a symbol under every name of the roster, and under no
/// other name.
pub open spec fn holds_the_roster(lib: LibView) -> bool {
    forall|n: Seq<char>| #[trigger] lib.symbol_names().contains(n) <==> in_roster(n)
}

/// A library built from the catalogue holds the types of the roster.
pub proof fn lemma_std_sym_holds_the_roster()
    requires
        std_sym_model() is Ok,
    ensures
        holds_the_roster(std_sym_model()->Ok_0),
{
    let n = STD_TYPES as nat;
    let start = spec_new("Std"@);
    let b = std_builder(n);
    let lib = std_sym_model()->Ok_0;
    assert(start.lib.dep_names() =~= Seq::empty());
    assert(start.lib.symbol_names() =~= Seq::empty());
    lemma_transpile_all_adds(start, std_symbols(n));
    lemma_resolved_lib_is_fixed(b.lib);
    assert forall|x: Seq<char>| #[trigger] lib.symbol_names().contains(x) <==> in_roster(x) by {
        if lib.symbol_names().contains(x) {
            let k = choose|k: int| 0 <= k < lib.symbol_names().len() && lib.symbol_names()[k] == x;
            assert(b.lib.symbol_names()[k] == x);
            assert(b.lib.symbols.contains(b.lib.symbols[k]));
            assert(std_symbols(n).contains(b.lib.symbols[k]));
            let i = choose|i: int| 0 <= i < n && std_symbols(n)[i] == b.lib.symbols[k];
            assert(x == std_roster(i as u8));
        }
        if in_roster(x) {
            let i = choose|i: u8| i < STD_TYPES && x == #[trigger] std_roster(i);
            assert(std_symbols(n)[i as int] == std_symbol(i));
            assert(std_symbols(n).contains(std_symbol(i)));
            assert(b.lib.symbols.contains(std_symbol(i)));
            let k = choose|k: int| 0 <= k < b.lib.symbols.len() && b.lib.symbols[k] == std_symbol(i);
            assert(b.lib.symbol_names()[k] == x);
            assert(lib.symbol_names()[k] == x);
        }
    }
}

/// Builds the standard library in symbolic form: takes the types of the
/// roster one after another, each with the variants that the catalogue
/// declares for it.
pub fn _std_sym() -> (out: Result<SymbolicLib, TranspileError>)
    ensures
        lib_result_is(out, std_sym_model()),
        out matches Ok(lib) ==> is_resolved(lib@) && holds_the_roster(lib@),
{
    let mut b = LibBuilder::with("Std", Vec::new());
    assert(dep_views(Seq::<Dependency>::empty()) =~= Seq::empty());
    assert(std_symbols(0) =~= Seq::empty());
    let mut i: u8 = 0;
    while i < STD_TYPES
        invariant
            0 <= i <= STD_TYPES,
            b.wf(),
            b@ == std_builder(i as nat),
            forall|j: u8| j < i ==> #[trigger] std_agrees(j),
        decreases STD_TYPES - i,
    {
        let expected = roster_name(i).to_owned();
        let (name, variants) = catalog_entry(i);
        let agrees = match &name {
            Some(n) => *n == expected,
            None => false,
        };
        if !agrees {
            proof {
                assert(is_first_stranger(i));
                let c = choose|c: u8| is_first_stranger(c);
                if c < i {
                    assert(std_agrees(c));
                } else if i < c {
                    assert(std_agrees(i));
                }
            }
            return Err(TranspileError::Malformed(expected));
        }
        let symbol = enum_symbol_from(expected, variants);
        proof {
            let head = std_symbols((i + 1) as nat);
            assert(head.drop_last() =~= std_symbols(i as nat));
            assert(head.last() == symbol@);
        }
        b = b.transpile(symbol);
        i += 1;
    }
    proof {
        if exists|c: u8| is_first_stranger(c) {
            let c = choose|c: u8| is_first_stranger(c);
            assert(std_agrees(c));
        }
        if std_sym_model() is Ok {
            lemma_std_sym_holds_the_roster();
        }
    }
    b.compile_symbols()
}

/// The standard library in symbolic form.
pub fn std_sym() -> (lib: SymbolicLib)
    requires
        std_catalog_sound(),
    ensures
        lib.wf(),
        is_resolved(lib@),
        holds_the_roster(lib@),
        std_sym_model() == Ok::<LibView, TranspileErrorView>(lib@),
{
    _std_sym().unwrap()
}

/// The standard library, compiled.
pub fn std_stl() -> (lib: TypeLib)
    requires
        std_catalog_sound(),
    ensures
        lib.wf(),
        spec_compile(std_sym_model()->Ok_0) == Ok::<TypeLibView, TranspileErrorView>(lib@),
{
    std_sym().compile().unwrap()
}

/// The standard library, compiled, where the catalogue can be built into a
/// library; `None` where it cannot.
pub fn try_std_stl() -> (out: Option<TypeLib>)
    ensures
        out is Some == std_catalog_sound(),
        out matches Some(lib) ==> lib.wf() && spec_compile(std_sym_model()->Ok_0) == Ok::<
            TypeLibView,
            TranspileErrorView,
        >(lib@),
{
    match _std_sym() {
        Ok(_) => Some(std_stl()),
        Err(_) => None,
    }
}

/// Determinism of the standard library: any two libraries that `std_stl` or
/// `try_std_stl` return are the same library, with the same identity and the
/// same identifier text.
pub proof fn lemma_std_stl_is_fixed(one: TypeLib, other: TypeLib)
    requires
        spec_compile(std_sym_model()->Ok_0) == Ok::<TypeLibView, TranspileErrorView>(one@),
        spec_compile(std_sym_model()->Ok_0) == Ok::<TypeLibView, TranspileErrorView>(other@),
    ensures
        one@ == other@,
        stl_text(one@.id) == stl_text(other@.id),
{
}

} // verus!
