//! The script sandbox side: module resolution and registry, the bindings of
//! the DOM tree, and the registry that builds virtual trees from what render
//! functions create.
pub mod module;
pub mod dom_bindings;
pub mod vue;
pub mod es_modules;
