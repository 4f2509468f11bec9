//! The JavaScript side: web APIs, module loaders, the WebAssembly bridge
//! and the package manager.
pub mod web_apis_enhanced;
pub mod wasm_bridge;
pub mod module;
pub mod esm;
pub mod runtime;
pub mod bridge;
pub mod cpm;
pub mod web_apis;

use vstd::prelude::*;

verus! {

/// Initializes the runtime integration; nothing needs preparing.
pub fn init() {
}

} // verus!
