//! Call-frame scopes with argument binding, and the bootstrap of the builtin type classes of a
//! tree-walking interpreter.

pub mod binder;
pub mod scope;
pub mod type_registry;
pub mod type_tag;
pub mod value;
