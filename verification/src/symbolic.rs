//! Libraries in symbolic form: named definitions that refer to one another by
//! name, the dependencies they may refer into, and the builder that gathers
//! them.
//!
//! A library keeps its dependencies and its symbols sorted by name, so what
//! it holds does not depend on the order in which it was filled.

use crate::ast::{TypeExpr, TypeSymbol, TypeSymbolView};
use crate::canon::{
    dep_ids_frame, digests_sized, lib_id, lib_preimage, push_bytes, push_name, push_tag_prefix,
    sem_id, sem_id_of, sem_ids_frame, LIB_ID_TAG,
};
use crate::digest::sha256_of;
use crate::id::TypeLibId;
use crate::ident::{is_type_name, lemma_ident_is_ascii, lemma_name_lt_asymmetric, type_name_ok};
use crate::order::{
    insertion_point, is_insertion_point, lemma_insert_keeps_sorted, names_sorted, texts,
};
use crate::resolve::{
    lemma_resolved_symbols_are_fixed, names_of, resolve_symbols, spec_resolve_symbols,
};
use vstd::bytes::u16_to_le_bytes;
use vstd::prelude::*;

verus! {

/// Most dependencies a library can declare.
pub const MAX_DEPENDENCIES: usize = 255;

/// Most types a library can hold.
pub const MAX_TYPES: usize = 65535;

/// What a library knows of one it depends on: its name, its identity and the
/// names of the types it offers.
#[derive(Clone, Debug, PartialEq, Eq)]
pub struct Dependency {
    pub name: String,
    pub id: TypeLibId,
    pub types: Vec<String>,
}

/// The model of a [`Dependency`].
pub struct DependencyView {
    pub name: Seq<char>,
    pub id: Seq<u8>,
    pub types: Seq<Seq<char>>,
}

impl View for Dependency {
    type V = DependencyView;

    open spec fn view(&self) -> DependencyView {
        DependencyView { name: self.name@, id: self.id@, types: texts(self.types@) }
    }
}

impl DependencyView {
    /// The names are those of a library and of types, and the identity is
    /// 32 bytes long.
    pub open spec fn wf(self) -> bool {
        &&& is_type_name(self.name)
        &&& self.id.len() == 32
        &&& forall|i: int| 0 <= i < self.types.len() ==> is_type_name(#[trigger] self.types[i])
    }
}

impl Dependency {
    /// Tells whether the names in the dependency are identifiers.
    pub fn is_valid(&self) -> (ok: bool)
        ensures
            ok == self@.wf(),
    {
        proof {
            self.id.lemma_len();
        }
        if !type_name_ok(self.name.as_str()) {
            return false;
        }
        let ghost views = texts(self.types@);
        let n: usize = self.types.len();
        let mut i: usize = 0;
        while i < n
            invariant
                n == self.types.len(),
                views == texts(self.types@),
                0 <= i <= n,
                forall|k: int| 0 <= k < i ==> is_type_name(#[trigger] views[k]),
            decreases n - i,
        {
            assert(views[i as int] == self.types@[i as int]@);
            if !type_name_ok(self.types[i].as_str()) {
                assert(!is_type_name(self@.types[i as int]));
                return false;
            }
            i += 1;
        }
        true
    }

    /// Tells whether the dependency offers a type called `name`.
    pub fn offers(&self, name: &String) -> (found: bool)
        ensures
            found == self@.types.contains(name@),
    {
        let ghost views = texts(self.types@);
        let n: usize = self.types.len();
        let mut i: usize = 0;
        while i < n
            invariant
                n == self.types.len(),
                views == texts(self.types@),
                0 <= i <= n,
                forall|k: int| 0 <= k < i ==> #[trigger] views[k] != name@,
            decreases n - i,
        {
            assert(views[i as int] == self.types@[i as int]@);
            if self.types[i] == *name {
                return true;
            }
            i += 1;
        }
        false
    }
}

/// Why a library could not be built or compiled.
#[derive(Clone, Debug, PartialEq, Eq)]
pub enum TranspileError {
    /// The named library, dependency or symbol is not well formed.
    Malformed(String),
    /// Two dependencies were declared under this name.
    DuplicateDependency(String),
    /// Two different definitions were given under this name.
    NameCollision(String),
    /// More dependencies or types than a library can hold.
    TooLarge,
    /// `referrer` refers to `symbol`, which neither the library nor the
    /// dependency it names holds.
    UnresolvedReference { symbol: String, referrer: String },
    /// `referrer` refers into `lib` under another identity than the one
    /// declared.
    DependencyMismatch { lib: String, referrer: String },
}

/// The model of a [`TranspileError`].
pub enum TranspileErrorView {
    Malformed(Seq<char>),
    DuplicateDependency(Seq<char>),
    NameCollision(Seq<char>),
    TooLarge,
    UnresolvedReference { symbol: Seq<char>, referrer: Seq<char> },
    DependencyMismatch { lib: Seq<char>, referrer: Seq<char> },
}

impl View for TranspileError {
    type V = TranspileErrorView;

    open spec fn view(&self) -> TranspileErrorView {
        match self {
            TranspileError::Malformed(n) => TranspileErrorView::Malformed(n@),
            TranspileError::DuplicateDependency(n) => TranspileErrorView::DuplicateDependency(n@),
            TranspileError::NameCollision(n) => TranspileErrorView::NameCollision(n@),
            TranspileError::TooLarge => TranspileErrorView::TooLarge,
            TranspileError::UnresolvedReference { symbol, referrer } => {
                TranspileErrorView::UnresolvedReference { symbol: symbol@, referrer: referrer@ }
            },
            TranspileError::DependencyMismatch { lib, referrer } => {
                TranspileErrorView::DependencyMismatch { lib: lib@, referrer: referrer@ }
            },
        }
    }
}

/// The model of a failure that may have happened.
pub open spec fn failure_view(failure: Option<TranspileError>) -> Option<TranspileErrorView> {
    match failure {
        Some(e) => Some(e@),
        None => None,
    }
}

/// The content of a library: its name, its dependencies and its symbols, both
/// in ascending order of their names.
pub struct LibView {
    pub name: Seq<char>,
    pub deps: Seq<DependencyView>,
    pub symbols: Seq<TypeSymbolView>,
}

impl LibView {
    /// The names of the dependencies, in their order.
    pub open spec fn dep_names(self) -> Seq<Seq<char>> {
        Seq::new(self.deps.len(), |i: int| self.deps[i].name)
    }

    /// The names of the symbols, in their order.
    pub open spec fn symbol_names(self) -> Seq<Seq<char>> {
        Seq::new(self.symbols.len(), |i: int| self.symbols[i].name)
    }

    /// A library is well formed when its name names a library, its
    /// dependencies and symbols are well formed and not too many, and both are
    /// sorted by name.
    pub open spec fn wf(self) -> bool {
        &&& is_type_name(self.name)
        &&& self.deps.len() <= MAX_DEPENDENCIES
        &&& self.symbols.len() <= MAX_TYPES
        &&& forall|i: int| 0 <= i < self.deps.len() ==> (#[trigger] self.deps[i]).wf()
        &&& forall|i: int| 0 <= i < self.symbols.len() ==> (#[trigger] self.symbols[i]).wf()
        &&& names_sorted(self.dep_names())
        &&& names_sorted(self.symbol_names())
    }
}

/// The place at which `name` stands or belongs in the sorted list `keys`.
pub open spec fn rank(keys: Seq<Seq<char>>, name: Seq<char>) -> int {
    choose|p: int| is_insertion_point(keys, name, p)
}

/// A sorted list has one insertion point for a name.
pub proof fn lemma_rank(keys: Seq<Seq<char>>, name: Seq<char>, p: int)
    requires
        is_insertion_point(keys, name, p),
    ensures
        rank(keys, name) == p,
{
    let q = rank(keys, name);
    if q < p {
        lemma_name_lt_asymmetric(keys[q], name);
    } else if p < q {
        lemma_name_lt_asymmetric(keys[p], name);
    }
}

/// The models of a list of dependencies.
pub open spec fn dep_views(deps: Seq<Dependency>) -> Seq<DependencyView> {
    Seq::new(deps.len(), |i: int| deps[i]@)
}

/// The models of the symbols with the given names and definitions.
pub open spec fn symbol_views(names: Seq<String>, defs: Seq<TypeExpr>) -> Seq<TypeSymbolView> {
    Seq::new(names.len(), |i: int| TypeSymbolView { name: names[i]@, definition: defs[i]@ })
}

/// A library in symbolic form. Its references may still be unresolved.
#[derive(Clone, Debug, PartialEq, Eq)]
pub struct SymbolicLib {
    name: String,
    dep_names: Vec<String>,
    deps: Vec<Dependency>,
    names: Vec<String>,
    defs: Vec<TypeExpr>,
}

impl View for SymbolicLib {
    type V = LibView;

    closed spec fn view(&self) -> LibView {
        LibView {
            name: self.name@,
            deps: dep_views(self.deps@),
            symbols: symbol_views(self.names@, self.defs@),
        }
    }
}

impl SymbolicLib {
    /// The invariant of a library: its content is well formed.
    pub closed spec fn wf(&self) -> bool {
        &&& self.names.len() == self.defs.len()
        &&& self.dep_names.len() == self.deps.len()
        &&& forall|i: int|
            0 <= i < self.deps.len() ==> (#[trigger] self.dep_names@[i])@ == self.deps@[i].name@
        &&& self@.wf()
    }

    /// The content of a sound library is well formed.
    pub proof fn lemma_wf(&self)
        requires
            self.wf(),
        ensures
            self@.wf(),
    {
    }

    /// The name of the library.
    pub fn name(&self) -> (name: &String)
        ensures
            name@ == self@.name,
    {
        &self.name
    }

    /// The dependencies that the library declares, in ascending order of
    /// their names.
    pub fn dependencies(&self) -> (deps: &Vec<Dependency>)
        ensures
            dep_views(deps@) == self@.deps,
    {
        &self.deps
    }

    /// The number of symbols in the library.
    pub fn len(&self) -> (n: usize)
        requires
            self.wf(),
        ensures
            n == self@.symbols.len(),
    {
        self.names.len()
    }

    /// The definition held under `name`, if there is one.
    pub fn get(&self, name: &str) -> (def: Option<&TypeExpr>)
        requires
            self.wf(),
        ensures
            match def {
                Some(d) => exists|i: int|
                    0 <= i < self@.symbols.len() && #[trigger] self@.symbols[i].name == name@
                        && self@.symbols[i].definition == d@,
                None => !self@.symbol_names().contains(name@),
            },
    {
        let ghost keys = self@.symbol_names();
        let n: usize = self.names.len();
        let owned = name.to_owned();
        let mut i: usize = 0;
        while i < n
            invariant
                n == self.names.len(),
                self.wf(),
                keys == self@.symbol_names(),
                owned@ == name@,
                0 <= i <= n,
                forall|k: int| 0 <= k < i ==> #[trigger] keys[k] != name@,
            decreases n - i,
        {
            assert(keys[i as int] == self.names@[i as int]@);
            if self.names[i] == owned {
                assert(self@.symbols[i as int].name == name@);
                return Some(&self.defs[i]);
            }
            i += 1;
        }
        None
    }
}

/// What a builder holds: the library as far as it is filled, and the first
/// thing that went wrong, after which the builder takes nothing more.
pub struct BuilderView {
    pub lib: LibView,
    pub failure: Option<TranspileErrorView>,
}

/// A builder that has not failed holds a well-formed library.
pub open spec fn builder_sound(b: BuilderView) -> bool {
    b.failure is None ==> b.lib.wf()
}

/// A builder for the library `name`, with nothing in it.
pub open spec fn spec_new(name: Seq<char>) -> BuilderView {
    BuilderView {
        lib: LibView { name, deps: Seq::empty(), symbols: Seq::empty() },
        failure: if is_type_name(name) {
            None
        } else {
            Some(TranspileErrorView::Malformed(name))
        },
    }
}

/// Declaring one dependency.
pub open spec fn spec_depend(b: BuilderView, d: DependencyView) -> BuilderView {
    if b.failure is Some {
        b
    } else if !d.wf() {
        BuilderView { lib: b.lib, failure: Some(TranspileErrorView::Malformed(d.name)) }
    } else if b.lib.dep_names().contains(d.name) {
        BuilderView { lib: b.lib, failure: Some(TranspileErrorView::DuplicateDependency(d.name)) }
    } else if b.lib.deps.len() >= MAX_DEPENDENCIES {
        BuilderView { lib: b.lib, failure: Some(TranspileErrorView::TooLarge) }
    } else {
        BuilderView {
            lib: LibView {
                name: b.lib.name,
                deps: b.lib.deps.insert(rank(b.lib.dep_names(), d.name), d),
                symbols: b.lib.symbols,
            },
            failure: None,
        }
    }
}

/// A builder for the library `name` with the dependencies `deps` declared
/// one after another.
pub open spec fn spec_with(name: Seq<char>, deps: Seq<DependencyView>) -> BuilderView
    decreases deps.len(),
{
    if deps.len() == 0 {
        spec_new(name)
    } else {
        spec_depend(spec_with(name, deps.drop_last()), deps.last())
    }
}

/// Taking one symbol. A symbol that the builder holds already is taken again
/// without a change. A symbol that is not well formed, or whose name is taken
/// by another definition, is refused and the refusal is kept.
pub open spec fn spec_transpile(b: BuilderView, s: TypeSymbolView) -> BuilderView {
    if b.failure is Some {
        b
    } else if !s.wf() {
        BuilderView { lib: b.lib, failure: Some(TranspileErrorView::Malformed(s.name)) }
    } else if b.lib.symbol_names().contains(s.name) {
        if b.lib.symbols.contains(s) {
            b
        } else {
            BuilderView { lib: b.lib, failure: Some(TranspileErrorView::NameCollision(s.name)) }
        }
    } else if b.lib.symbols.len() >= MAX_TYPES {
        BuilderView { lib: b.lib, failure: Some(TranspileErrorView::TooLarge) }
    } else {
        BuilderView {
            lib: LibView {
                name: b.lib.name,
                deps: b.lib.deps,
                symbols: b.lib.symbols.insert(rank(b.lib.symbol_names(), s.name), s),
            },
            failure: None,
        }
    }
}

/// Gathers the symbols of a library.
#[derive(Clone, Debug, PartialEq, Eq)]
pub struct LibBuilder {
    lib: SymbolicLib,
    failure: Option<TranspileError>,
}

impl View for LibBuilder {
    type V = BuilderView;

    closed spec fn view(&self) -> BuilderView {
        BuilderView { lib: self.lib@, failure: failure_view(self.failure) }
    }
}

impl LibBuilder {
    /// The invariant of a builder: while nothing went wrong, what it holds is
    /// a well-formed library.
    pub closed spec fn wf(&self) -> bool {
        &&& self.lib.names.len() == self.lib.defs.len()
        &&& self.lib.dep_names.len() == self.lib.deps.len()
        &&& self.failure is None ==> self.lib.wf()
    }

    /// What the invariant of a builder says of what it holds.
    pub proof fn lemma_wf(&self)
        requires
            self.wf(),
        ensures
            builder_sound(self@),
    {
    }

    fn new(name: &str) -> (b: LibBuilder)
        ensures
            b.wf(),
            b@ == spec_new(name@),
    {
        let failure = if type_name_ok(name) {
            None
        } else {
            Some(TranspileError::Malformed(name.to_owned()))
        };
        let b = LibBuilder {
            lib: SymbolicLib {
                name: name.to_owned(),
                dep_names: Vec::new(),
                deps: Vec::new(),
                names: Vec::new(),
                defs: Vec::new(),
            },
            failure,
        };
        assert(b@.lib.deps =~= Seq::empty());
        assert(b@.lib.symbols =~= Seq::empty());
        b
    }

    fn depend(self, d: Dependency) -> (b: LibBuilder)
        requires
            self.wf(),
        ensures
            b.wf(),
            b@ == spec_depend(self@, d@),
    {
        let mut b = self;
        if b.failure.is_some() {
            return b;
        }
        if !d.is_valid() {
            b.failure = Some(TranspileError::Malformed(d.name));
            return b;
        }
        let ghost keys = b.lib@.dep_names();
        proof {
            assert(texts(b.lib.dep_names@) =~= keys);
            assert forall|i: int| 0 <= i < keys.len() implies vstd::utf8::is_ascii_chars(
                #[trigger] keys[i],
            ) by {
                assert(b.lib@.deps[i].wf());
                lemma_ident_is_ascii(keys[i]);
            }
            lemma_ident_is_ascii(d.name@);
        }
        let (p, found) = insertion_point(&b.lib.dep_names, &d.name);
        if found {
            b.failure = Some(TranspileError::DuplicateDependency(d.name));
            return b;
        }
        if b.lib.deps.len() >= MAX_DEPENDENCIES {
            b.failure = Some(TranspileError::TooLarge);
            return b;
        }
        let ghost old_deps = b.lib@.deps;
        b.lib.dep_names.insert(p, d.name.clone());
        b.lib.deps.insert(p, d);
        proof {
            lemma_rank(keys, d@.name, p as int);
            lemma_insert_keeps_sorted(keys, d@.name, p as int);
            assert(b.lib@.deps =~= old_deps.insert(p as int, d@));
            assert(b.lib@.dep_names() =~= keys.insert(p as int, d@.name));
            assert(b.lib@.symbols =~= self.lib@.symbols);
            assert forall|i: int| 0 <= i < b.lib@.deps.len() implies (#[trigger] b.lib@.deps[i]).wf() by {
                if i < p {
                    assert(b.lib@.deps[i] == old_deps[i]);
                } else if i > p {
                    assert(b.lib@.deps[i] == old_deps[i - 1]);
                }
            }
            assert forall|i: int| 0 <= i < b.lib.deps.len() implies (#[trigger] b.lib.dep_names@[i])@
                == b.lib.deps@[i].name@ by {
                if i < p {
                    assert(b.lib.dep_names@[i] == self.lib.dep_names@[i]);
                } else if i > p {
                    assert(b.lib.dep_names@[i] == self.lib.dep_names@[i - 1]);
                }
            }
        }
        b
    }

    /// Starts the library `name` and declares each of `dependencies`.
    pub fn with(name: &str, dependencies: Vec<Dependency>) -> (b: LibBuilder)
        ensures
            b.wf(),
            b@ == spec_with(name@, dep_views(dependencies@)),
    {
        let ghost all = dep_views(dependencies@);
        let mut rest = dependencies;
        let mut b = LibBuilder::new(name);
        let ghost mut done: int = 0;
        assert(all.subrange(0, 0) =~= Seq::empty());
        while rest.len() > 0
            invariant
                b.wf(),
                0 <= done <= all.len(),
                rest@.len() == all.len() - done,
                forall|i: int| 0 <= i < rest@.len() ==> (#[trigger] rest@[i])@ == all[done + i],
                b@ == spec_with(name@, all.subrange(0, done)),
            decreases rest.len(),
        {
            let ghost before = rest@;
            let d = rest.remove(0);
            proof {
                let head = all.subrange(0, done + 1);
                assert(d == before[0]);
                assert(head.drop_last() =~= all.subrange(0, done));
                assert(head.last() == d@);
                assert forall|i: int| 0 <= i < rest@.len() implies (#[trigger] rest@[i])@ == all[done + 1 + i] by {
                    assert(rest@[i] == before[i + 1]);
                }
            }
            b = b.depend(d);
            proof {
                done = done + 1;
            }
        }
        assert(all.subrange(0, all.len() as int) =~= all);
        b
    }

    /// Takes one more symbol into the library.
    pub fn transpile(self, symbol: TypeSymbol) -> (b: LibBuilder)
        requires
            self.wf(),
        ensures
            b.wf(),
            b@ == spec_transpile(self@, symbol@),
    {
        let mut b = self;
        if b.failure.is_some() {
            return b;
        }
        if !symbol.is_valid() {
            b.failure = Some(TranspileError::Malformed(symbol.name));
            return b;
        }
        let ghost keys = b.lib@.symbol_names();
        proof {
            assert(texts(b.lib.names@) =~= keys);
            assert forall|i: int| 0 <= i < keys.len() implies vstd::utf8::is_ascii_chars(
                #[trigger] keys[i],
            ) by {
                assert(b.lib@.symbols[i].wf());
                lemma_ident_is_ascii(keys[i]);
            }
            lemma_ident_is_ascii(symbol.name@);
        }
        let (p, found) = insertion_point(&b.lib.names, &symbol.name);
        if found {
            let same = b.lib.defs[p].same(&symbol.definition);
            proof {
                let held = b.lib@.symbols;
                assert(held[p as int].name == symbol@.name);
                assert(held[p as int].definition == b.lib.defs@[p as int]@);
                if held.contains(symbol@) {
                    let j = choose|j: int| 0 <= j < held.len() && held[j] == symbol@;
                    assert(keys[j] == keys[p as int]);
                    if j < p {
                        lemma_name_lt_asymmetric(keys[j], keys[p as int]);
                    } else if p < j {
                        lemma_name_lt_asymmetric(keys[p as int], keys[j]);
                    }
                }
                if same {
                    assert(held[p as int] == symbol@);
                }
            }
            if !same {
                b.failure = Some(TranspileError::NameCollision(symbol.name));
            }
            return b;
        }
        if b.lib.names.len() >= MAX_TYPES {
            b.failure = Some(TranspileError::TooLarge);
            return b;
        }
        let ghost old_symbols = b.lib@.symbols;
        let TypeSymbol { name, definition } = symbol;
        b.lib.names.insert(p, name);
        b.lib.defs.insert(p, definition);
        proof {
            lemma_rank(keys, symbol@.name, p as int);
            lemma_insert_keeps_sorted(keys, symbol@.name, p as int);
            assert(b.lib@.symbols =~= old_symbols.insert(p as int, symbol@));
            assert(b.lib@.symbol_names() =~= keys.insert(p as int, symbol@.name));
            assert(b.lib@.deps =~= self.lib@.deps);
            assert(b.lib@.dep_names() =~= self.lib@.dep_names());
            assert forall|i: int| 0 <= i < b.lib@.symbols.len() implies (
            #[trigger] b.lib@.symbols[i]).wf() by {
                if i < p {
                    assert(b.lib@.symbols[i] == old_symbols[i]);
                } else if i > p {
                    assert(b.lib@.symbols[i] == old_symbols[i - 1]);
                }
            }
        }
        b
    }

    /// What the builder holds. After a failure this is the library as it was
    /// before the step that failed.
    pub fn as_symbolic(&self) -> (lib: &SymbolicLib)
        requires
            self.wf(),
        ensures
            lib@ == self@.lib,
            self@.failure is None ==> lib.wf(),
    {
        &self.lib
    }

    /// The name of the library that is being built.
    pub fn name(&self) -> (name: &String)
        ensures
            name@ == self@.lib.name,
    {
        &self.lib.name
    }

    /// What went wrong, if anything did.
    pub fn failure(&self) -> (failure: Option<&TranspileError>)
        ensures
            match failure {
                Some(e) => self@.failure == Some(e@),
                None => self@.failure is None,
            },
    {
        self.failure.as_ref()
    }

    /// Hands the library out as it stands, with its references unresolved.
    pub fn into_symbolic(self) -> (r: Result<SymbolicLib, TranspileError>)
        requires
            self.wf(),
        ensures
            match r {
                Ok(lib) => lib.wf() && self@.failure is None && lib@ == self@.lib,
                Err(e) => self@.failure == Some(e@),
            },
    {
        match self.failure {
            Some(e) => Err(e),
            None => Ok(self.lib),
        }
    }
}

/// The library with every reference resolved, or the error of the first
/// reference that does not resolve.
pub open spec fn spec_resolve_lib(lib: LibView) -> Result<LibView, TranspileErrorView> {
    match spec_resolve_symbols(lib.symbol_names(), lib.deps, lib.symbols) {
        Ok(symbols) => Ok(LibView { name: lib.name, deps: lib.deps, symbols }),
        Err(e) => Err(e),
    }
}

/// What a builder yields when its symbols are compiled: the failure it kept,
/// or else its library with every reference resolved.
pub open spec fn spec_compile_symbols(b: BuilderView) -> Result<LibView, TranspileErrorView> {
    match b.failure {
        Some(e) => Err(e),
        None => spec_resolve_lib(b.lib),
    }
}

/// Every reference of the library is resolved: resolving it changes nothing.
pub open spec fn is_resolved(lib: LibView) -> bool {
    spec_resolve_lib(lib) == Ok::<LibView, TranspileErrorView>(lib)
}

/// The outcome `out` is the one that `model` describes, and a library in
/// it is sound.
pub open spec fn lib_result_is(
    out: Result<SymbolicLib, TranspileError>,
    model: Result<LibView, TranspileErrorView>,
) -> bool {
    match out {
        Ok(lib) => lib.wf() && model == Ok::<LibView, TranspileErrorView>(lib@),
        Err(e) => model == Err::<LibView, TranspileErrorView>(e@),
    }
}

impl SymbolicLib {
    /// The names of the library's types, in ascending order.
    pub fn type_names(&self) -> (names: Vec<String>)
        requires
            self.wf(),
        ensures
            texts(names@) == self@.symbol_names(),
    {
        let n: usize = self.names.len();
        let mut names: Vec<String> = Vec::new();
        let mut i: usize = 0;
        while i < n
            invariant
                n == self.names.len(),
                0 <= i <= n,
                names@.len() == i,
                forall|k: int| 0 <= k < i ==> (#[trigger] names@[k])@ == self.names@[k]@,
            decreases n - i,
        {
            names.push(self.names[i].clone());
            i += 1;
        }
        assert(texts(names@) =~= self@.symbol_names());
        names
    }

    /// Resolves every reference of the library against its own symbols and
    /// its dependencies.
    pub fn resolve(self) -> (out: Result<SymbolicLib, TranspileError>)
        requires
            self.wf(),
        ensures
            lib_result_is(out, spec_resolve_lib(self@)),
            out matches Ok(lib) ==> is_resolved(lib@),
    {
        proof {
            if spec_resolve_lib(self@) is Ok {
                lemma_resolved_lib_is_fixed(self@);
            }
            assert(texts(self.names@) =~= self@.symbol_names());
            assert(texts(self.dep_names@) =~= self@.dep_names());
            assert forall|i: int| 0 <= i < self.names.len() implies vstd::utf8::is_ascii_chars(
                #[trigger] texts(self.names@)[i],
            ) by {
                assert(self@.symbols[i].wf());
                lemma_ident_is_ascii(self@.symbols[i].name);
            }
            assert forall|i: int| 0 <= i < self.defs.len() implies (#[trigger] self.defs@[i])@.wf() by {
                assert(self@.symbols[i].wf());
            }
            assert forall|i: int| 0 <= i < self.deps.len() implies (#[trigger] self.deps@[i])@.wf() by {
                assert(self@.deps[i].wf());
            }
        }
        match resolve_symbols(&self.names, &self.defs, &self.dep_names, &self.deps) {
            Err(e) => Err(e),
            Ok(defs) => {
                let lib = SymbolicLib {
                    name: self.name,
                    dep_names: self.dep_names,
                    deps: self.deps,
                    names: self.names,
                    defs,
                };
                proof {
                    assert(lib@.symbol_names() =~= self@.symbol_names());
                    assert(lib@.dep_names() =~= self@.dep_names());
                    assert forall|i: int| 0 <= i < lib@.symbols.len() implies (
                    #[trigger] lib@.symbols[i]).wf() by {
                        assert(self@.symbols[i].wf());
                        assert(lib.defs@[i]@.wf());
                    }
                }
                Ok(lib)
            },
        }
    }

    /// Computes the identity of the library as it stands.
    pub fn identity(&self) -> (id: TypeLibId)
        requires
            self.wf(),
        ensures
            id@ == lib_id(self@),
            digests_sized(self@),
    {
        let ghost deps = self@.deps;
        let ghost symbols = self@.symbols;
        let mut out: Vec<u8> = Vec::new();
        push_tag_prefix(&mut out, &LIB_ID_TAG);
        push_name(&mut out, &self.name);
        let n: usize = self.deps.len();
        out.push(n as u8);
        let ghost head = out@;
        let mut i: usize = 0;
        while i < n
            invariant
                n == self.deps.len(),
                deps == self@.deps,
                0 <= i <= n,
                out@ == head + dep_ids_frame(deps.subrange(0, i as int)),
            decreases n - i,
        {
            let bytes = self.deps[i].id.to_byte_array();
            push_bytes(&mut out, bytes.as_slice());
            proof {
                let part = deps.subrange(0, i + 1);
                assert(part.drop_last() =~= deps.subrange(0, i as int));
                assert(part.last().id == self.deps@[i as int].id@);
                assert(out@ =~= head + dep_ids_frame(part));
            }
            i += 1;
        }
        assert(deps.subrange(0, n as int) =~= deps);
        let m: usize = self.names.len();
        let count = u16_to_le_bytes(m as u16);
        push_bytes(&mut out, count.as_slice());
        let ghost middle = out@;
        let mut j: usize = 0;
        while j < m
            invariant
                m == self.names.len(),
                self.wf(),
                symbols == self@.symbols,
                0 <= j <= m,
                forall|k: int| 0 <= k < j ==> sem_id(#[trigger] symbols[k]).len() == 32,
                out@ == middle + sem_ids_frame(symbols.subrange(0, j as int)),
            decreases m - j,
        {
            assert(symbols[j as int].wf());
            let digest = sem_id_of(&self.names[j], &self.defs[j]);
            push_bytes(&mut out, digest.as_slice());
            proof {
                let part = symbols.subrange(0, j + 1);
                assert(part.drop_last() =~= symbols.subrange(0, j as int));
                assert(part.last() == symbols[j as int]);
                assert(out@ =~= middle + sem_ids_frame(part));
            }
            j += 1;
        }
        assert(symbols.subrange(0, m as int) =~= symbols);
        assert(out@ =~= lib_preimage(self@));
        TypeLibId::from_byte_array(sha256_of(out.as_slice()))
    }
}

impl LibBuilder {
    /// Ends the building: resolves every reference of the gathered symbols.
    pub fn compile_symbols(self) -> (out: Result<SymbolicLib, TranspileError>)
        requires
            self.wf(),
        ensures
            lib_result_is(out, spec_compile_symbols(self@)),
            out matches Ok(lib) ==> is_resolved(lib@),
    {
        match self.failure {
            Some(e) => Err(e),
            None => self.lib.resolve(),
        }
    }
}

/// Resolving a library whose references are resolved changes nothing, and
/// resolving keeps the names of the symbols.
pub proof fn lemma_resolved_lib_is_fixed(lib: LibView)
    requires
        lib.wf(),
        spec_resolve_lib(lib) is Ok,
    ensures
        spec_resolve_lib(spec_resolve_lib(lib)->Ok_0) == spec_resolve_lib(lib),
        spec_resolve_lib(lib)->Ok_0.symbol_names() == lib.symbol_names(),
        spec_resolve_lib(lib)->Ok_0.symbols.len() == lib.symbols.len(),
{
    let out = spec_resolve_lib(lib)->Ok_0;
    assert(names_of(lib.deps) =~= lib.dep_names());
    lemma_resolved_symbols_are_fixed(lib.symbol_names(), lib.deps, lib.symbols);
    assert(out.symbol_names() =~= lib.symbol_names());
}

} // verus!
