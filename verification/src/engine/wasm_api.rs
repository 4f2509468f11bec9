//! The engine offered to the browser: a cache of compiled components,
//! resolution of imports, and hot replacement patches.
use vstd::prelude::*;
use vstd::string::StringExecFns;
use crate::strmap::StrMap;
use crate::text::owned;
use crate::engine::hmr::{HMRManager, HMRPatch, PatchType, patch_is};
use crate::engine::sfc_compiler::{CompiledModule, module_copied, resolve_module, resolve_spec};
use crate::jetcrab::module::str_views;

verus! {

/// The engine behind the browser bindings.
#[derive(Debug)]
pub struct IrisEngine {
    compiled_modules: StrMap<CompiledModule>,
    hmr_manager: HMRManager,
    debug: bool,
}

impl IrisEngine {
    /// The compiled components by file name.
    pub closed spec fn compiled(&self) -> Map<Seq<char>, CompiledModule> {
        self.compiled_modules@
    }

    /// Whether debugging output is on.
    pub closed spec fn debugging(&self) -> bool {
        self.debug
    }

    /// An engine with nothing compiled and debugging off.
    pub fn new() -> (e: Self)
        ensures
            e.compiled() == Map::<Seq<char>, CompiledModule>::empty(),
            !e.debugging(),
    {
        IrisEngine { compiled_modules: StrMap::new(), hmr_manager: HMRManager::new(), debug: false }
    }

    /// Turns debugging output on or off.
    pub fn set_debug(&mut self, enabled: bool)
        ensures
            final(self).debugging() == enabled,
            final(self).compiled() == old(self).compiled(),
    {
        self.debug = enabled;
    }

    /// Caches a component just compiled from `filename`; returns a copy.
    pub fn compile_sfc(&mut self, filename: &str, compiled: CompiledModule) -> (r: CompiledModule)
        ensures
            module_copied(compiled, r),
            final(self).compiled() == old(self).compiled().insert(filename@, compiled),
            final(self).debugging() == old(self).debugging(),
    {
        let c = compiled.copy();
        self.compiled_modules.insert(filename, compiled);
        c
    }

    /// Where an import of `importer` resolves, given the candidate paths
    /// that are files and directories.
    pub fn resolve_import(&self, import_path: &str, importer: &str, files: &[String], dirs: &[String]) -> (r: Result<String, String>)
        ensures
            r matches Ok(s) && s@ == resolve_spec(import_path@, importer@, str_views(files@), str_views(dirs@)),
    {
        resolve_module(import_path, importer, files, dirs)
    }

    /// A patch reloading the component in `filename` with its new source.
    pub fn generate_hmr_patch(&mut self, old_source: &str, new_source: &str, filename: &str) -> (r: HMRPatch)
        ensures
            patch_is(r, PatchType::VueReload, filename@, new_source@),
            final(self).compiled() == old(self).compiled(),
    {
        self.hmr_manager.generate_vue_reload_patch(filename, new_source)
    }

    /// A copy of the component compiled from `filename`.
    pub fn get_compiled_module(&self, filename: &str) -> (r: Result<CompiledModule, String>)
        ensures
            self.compiled().dom().contains(filename@) ==> (r matches Ok(m) && module_copied(self.compiled()[filename@], m)),
            !self.compiled().dom().contains(filename@) ==> (r matches Err(e) && e@ == "Module not found: "@ + filename@),
    {
        match self.compiled_modules.get(filename) {
            Some(m) => Ok(m.copy()),
            None => Err(owned("Module not found: ").concat(filename)),
        }
    }

    /// Forgets every compiled component.
    pub fn clear_cache(&mut self)
        ensures
            final(self).compiled() == Map::<Seq<char>, CompiledModule>::empty(),
            final(self).debugging() == old(self).debugging(),
    {
        self.compiled_modules.clear();
    }

    /// The number of compiled components.
    pub fn get_cache_size(&self) -> (n: usize)
        ensures
            n == self.compiled().dom().len(),
    {
        self.compiled_modules.len()
    }
}

impl Default for IrisEngine {
    fn default() -> (e: Self)
        ensures
            e.compiled() == Map::<Seq<char>, CompiledModule>::empty(),
    {
        Self::new()
    }
}

} // verus!
