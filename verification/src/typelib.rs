//! Compiled libraries.
//!
//! Compiling resolves every reference of a symbolic library and takes the
//! digest of its canonical serialisation, which becomes its identity.

use crate::canon::{digests_sized, lib_id};
use crate::id::TypeLibId;
use crate::ident::is_type_name;
use crate::symbolic::{
    is_resolved, spec_compile_symbols, spec_resolve_lib, BuilderView, Dependency,
    DependencyView, LibBuilder, LibView, SymbolicLib, TranspileError, TranspileErrorView,
};
use vstd::prelude::*;

verus! {

/// A compiled library: its content, with every reference resolved, and the
/// identity derived from it.
pub struct TypeLibView {
    pub id: Seq<u8>,
    pub lib: LibView,
}

/// What compiling a library yields.
pub open spec fn spec_compile(lib: LibView) -> Result<TypeLibView, TranspileErrorView> {
    match spec_resolve_lib(lib) {
        Ok(resolved) => Ok(TypeLibView { id: lib_id(resolved), lib: resolved }),
        Err(e) => Err(e),
    }
}

/// What compiling the content of a builder yields.
pub open spec fn spec_compile_builder(b: BuilderView) -> Result<TypeLibView, TranspileErrorView> {
    match spec_compile_symbols(b) {
        Ok(lib) => spec_compile(lib),
        Err(e) => Err(e),
    }
}

/// The outcome `out` is the one that `model` describes, and a library in
/// it is sound.
pub open spec fn compiled_is(
    out: Result<TypeLib, TranspileError>,
    model: Result<TypeLibView, TranspileErrorView>,
) -> bool {
    match out {
        Ok(lib) => lib.wf() && model == Ok::<TypeLibView, TranspileErrorView>(lib@),
        Err(e) => model == Err::<TypeLibView, TranspileErrorView>(e@),
    }
}

/// A compiled library. It cannot be changed.
#[derive(Clone, Debug, PartialEq, Eq)]
pub struct TypeLib {
    id: TypeLibId,
    lib: SymbolicLib,
}

impl View for TypeLib {
    type V = TypeLibView;

    closed spec fn view(&self) -> TypeLibView {
        TypeLibView { id: self.id@, lib: self.lib@ }
    }
}

impl TypeLib {
    /// The invariant of a compiled library: its content is well formed, its
    /// references are resolved, and its identity is the digest of its
    /// content.
    pub closed spec fn wf(&self) -> bool {
        &&& self.lib.wf()
        &&& is_resolved(self.lib@)
        &&& digests_sized(self.lib@)
        &&& self.id@ == lib_id(self.lib@)
    }

    /// What the invariant of a compiled library says of its content.
    pub proof fn lemma_wf(&self)
        requires
            self.wf(),
        ensures
            self@.lib.wf(),
            is_resolved(self@.lib),
            digests_sized(self@.lib),
            self@.id == lib_id(self@.lib),
    {
        self.lib.lemma_wf();
    }

    /// The identity of the library.
    pub fn id(&self) -> (id: TypeLibId)
        ensures
            id@ == self@.id,
    {
        self.id
    }

    /// The name of the library.
    pub fn name(&self) -> (name: &String)
        ensures
            name@ == self@.lib.name,
    {
        self.lib.name()
    }

    /// The content of the library.
    pub fn as_symbolic(&self) -> (lib: &SymbolicLib)
        requires
            self.wf(),
        ensures
            lib.wf(),
            lib@ == self@.lib,
    {
        &self.lib
    }

    /// What another library has to declare in order to depend on this one.
    pub fn to_dependency_types(&self) -> (d: Dependency)
        requires
            self.wf(),
        ensures
            d@ == (DependencyView {
                name: self@.lib.name,
                id: self@.id,
                types: self@.lib.symbol_names(),
            }),
            d@.wf(),
    {
        let types = self.lib.type_names();
        let d = Dependency { name: self.lib.name().clone(), id: self.id, types };
        proof {
            self.lib.lemma_wf();
            self.id.lemma_len();
            assert forall|i: int| 0 <= i < d@.types.len() implies is_type_name(
                #[trigger] d@.types[i],
            ) by {
                assert(self.lib@.symbols[i].wf());
            }
        }
        d
    }
}

impl SymbolicLib {
    /// Compiles the library: resolves its references and derives its
    /// identity.
    pub fn compile(self) -> (out: Result<TypeLib, TranspileError>)
        requires
            self.wf(),
        ensures
            compiled_is(out, spec_compile(self@)),
    {
        match self.resolve() {
            Err(e) => Err(e),
            Ok(lib) => {
                let id = lib.identity();
                Ok(TypeLib { id, lib })
            },
        }
    }
}

impl LibBuilder {
    /// Ends the building and compiles what was gathered.
    pub fn compile(self) -> (out: Result<TypeLib, TranspileError>)
        requires
            self.wf(),
        ensures
            compiled_is(out, spec_compile_builder(self@)),
    {
        match self.compile_symbols() {
            Err(e) => Err(e),
            Ok(lib) => lib.compile(),
        }
    }
}

} // verus!
