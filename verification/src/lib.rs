//! Layout, virtual DOM, module loading and tooling logic of a small browser engine.
pub mod text;
pub mod clock;
pub mod strmap;
pub mod layout;
pub mod jetcrab;
pub mod engine;
pub mod runtime;
pub mod js;
pub mod sfc_wasm;
