# iris

The logic of a small browser engine and its Vue tooling, written in Verus:
every function under `src/` carries a contract that Verus proves.

- `src/layout/`: DOM and virtual DOM trees, diffing and patching, CSS
  selectors and styles, HTML parsing (through html5ever), the layout cache and
  the keyword parsing of the grid, flex and table layouts.
- `src/jetcrab/`: module loading (CommonJS and ES modules with cycle
  detection), the WebAssembly loader, web APIs and the package manager's
  dependency logic.
- `src/engine/`: the Vue project compiler (module kinds, caching, import
  extraction), the single-file component compiler, the module graph and its
  step-by-step builder, `package.json` reading (`manifest.rs`), the
  step-by-step resolution of packages under `node_modules`
  (`npm_resolve.rs`), the dependency tree, and the npm downloader's
  registry and path logic.
- `src/js/`: ES module transforms, the render-function node map and DOM
  bindings.
- `src/strmap.rs`, `src/text.rs`: the string-keyed map and the text
  operations the rest is stated over.

`app/` holds what Verus does not see: file and network I/O, the SCSS
compiler call (which can panic, so it runs under `catch_unwind`), JSON
conversion with serde for saved data, event-listener closures and WebSocket
handlers.
The box, flex, grid, table and float layouts, computed in `f32`, are in
`app/` (`layout.rs`, `grid_layout.rs`, `table_layout.rs`,
`float_layout.rs`); the library reads their keywords and placements.

No JavaScript engine is part of this crate: scripts are handled as text
(module transforms, export and import lists), and the functions that
scripts call by name are kept by the library's `JsFFIBridge`, over any
function type.

`tests/` runs the library against concrete inputs with the real outside
crates linked.
