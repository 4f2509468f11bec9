//! The development engine: hot module replacement, the module graph,
//! dependency tracking and project scanning.
pub mod hmr;
pub mod dependency_tree;
pub mod module_graph;
pub mod sfc_compiler;
pub mod dependency_scanner;
pub mod project_scanner;
pub mod engine;
pub mod vue_compiler;
pub mod npm_downloader;
pub mod wasm_api;
pub mod graph_build;
pub mod manifest;
pub mod npm_resolve;
