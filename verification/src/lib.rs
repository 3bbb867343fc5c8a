//! Schema libraries for a deterministic binary encoding.
//!
//! Type definitions are gathered by a [`LibBuilder`], resolved against the
//! libraries they depend on, put into a canonical order and addressed by the
//! digest of their canonical serialisation. A type's structural shape can be
//! flattened into a [`MemoryLayout`], the ordered list of slots that a decoder
//! walks in step with the data.

pub mod ident;
pub mod digest;
pub mod order;
pub mod id;
pub mod ast;
pub mod canon;
pub mod symbolic;
pub mod resolve;
pub mod typelib;
pub mod determinism;
pub mod distinct;
pub mod stl;
pub mod typesys;
pub mod layout;

pub use ast::{Field, Sizing, SymbolRef, TypeExpr, TypeSymbol, Variant};
pub use id::TypeLibId;
pub use layout::MemoryLayout;
pub use symbolic::{Dependency, LibBuilder, SymbolicLib, TranspileError};
pub use typelib::TypeLib;
pub use typesys::{Branch, PrimitiveClass, SizeHint, TypeInfo, TypeTree};
