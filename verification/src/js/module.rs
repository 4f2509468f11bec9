//! ES modules: their status, a registry of their code, and the resolution of
//! module specifiers.
use vstd::prelude::*;
use vstd::string::StringExecFns;
use crate::strmap::StrMap;
use crate::text::{chars_of, ends_with_exec, owned, starts_with, starts_with_exec};

verus! {

/// Where a module is in loading.
#[derive(Debug, Clone, PartialEq)]
pub enum ModuleStatus {
    /// Not loaded yet.
    Unloaded,
    /// Being loaded.
    Loading,
    /// Loaded.
    Loaded,
    /// Loading failed, with the reason.
    Error(String),
}

/// A module and its code.
#[derive(Debug)]
pub struct EsModule {
    /// Specifier (path or address).
    pub specifier: String,
    /// Code.
    pub code: String,
    /// Where it is in loading.
    pub status: ModuleStatus,
    /// Modules it depends on.
    pub dependencies: Vec<String>,
}

impl EsModule {
    /// A module not loaded yet, with no dependencies known.
    pub fn new(specifier: &str, code: &str) -> (m: Self)
        ensures
            m.specifier@ == specifier@,
            m.code@ == code@,
            m.status is Unloaded,
            m.dependencies@.len() == 0,
    {
        EsModule {
            specifier: owned(specifier),
            code: owned(code),
            status: ModuleStatus::Unloaded,
            dependencies: Vec::new(),
        }
    }
}

/// A relative specifier (`./` or `../`).
pub open spec fn is_relative(specifier: Seq<char>) -> bool {
    starts_with(specifier, "./"@) || starts_with(specifier, "../"@)
}

/// Where a specifier leads from `base`: a relative one is put after `base`
/// (with a `/` between unless `base` ends with one); any other stays.
pub open spec fn resolve_spec(specifier: Seq<char>, base: Seq<char>) -> Seq<char> {
    if is_relative(specifier) {
        if base.len() > 0 && base.last() == '/' {
            base + specifier
        } else {
            base + "/"@ + specifier
        }
    } else {
        specifier
    }
}

/// Resolves module specifiers.
#[derive(Debug)]
pub struct ModuleResolver {
    base_path: String,
}

impl ModuleResolver {
    /// The base path.
    pub closed spec fn base(&self) -> Seq<char> {
        self.base_path@
    }

    /// A resolver based at `/`.
    pub fn new() -> (r: Self)
        ensures
            r.base() == "/"@,
    {
        ModuleResolver { base_path: owned("/") }
    }

    /// Sets the base path.
    pub fn set_base_path(&mut self, path: &str)
        ensures
            final(self).base() == path@,
    {
        self.base_path = owned(path);
    }

    /// Where `specifier` leads from `base`.
    pub fn resolve(&self, specifier: &str, base: &str) -> (r: String)
        ensures
            r@ == resolve_spec(specifier@, base@),
    {
        let s = chars_of(specifier);
        let dot = chars_of("./");
        let dotdot = chars_of("../");
        if starts_with_exec(&s, &dot) || starts_with_exec(&s, &dotdot) {
            self.resolve_relative_path(specifier, base)
        } else {
            owned(specifier)
        }
    }

    /// `specifier` put after `base`.
    fn resolve_relative_path(&self, specifier: &str, base: &str) -> (r: String)
        ensures
            r@ == (if base@.len() > 0 && base@.last() == '/' {
                base@ + specifier@
            } else {
                base@ + "/"@ + specifier@
            }),
    {
        let b = chars_of(base);
        let slash: Vec<char> = vec!['/'];
        proof {
            reveal_strlit("/");
            assert(slash@ =~= "/"@);
        }
        if ends_with_exec(&b, &slash) {
            proof {
                assert(b@.subrange(b@.len() - 1, b@.len() as int)[0] == b@.last());
            }
            owned(base).concat(specifier)
        } else {
            proof {
                if b@.len() > 0 && b@.last() == '/' {
                    assert(b@.subrange(b@.len() - 1, b@.len() as int) =~= slash@);
                }
            }
            owned(base).concat("/").concat(specifier)
        }
    }
}

impl Default for ModuleResolver {
    fn default() -> (r: Self)
        ensures
            r.base() == "/"@,
    {
        Self::new()
    }
}

/// The modules registered, by specifier.
#[derive(Debug)]
pub struct ModuleRegistry {
    modules: StrMap<EsModule>,
    resolver: ModuleResolver,
}

impl ModuleRegistry {
    /// The modules by specifier.
    pub closed spec fn modules(&self) -> Map<Seq<char>, EsModule> {
        self.modules@
    }

    /// An empty registry.
    pub fn new() -> (r: Self)
        ensures
            r.modules() == Map::<Seq<char>, EsModule>::empty(),
    {
        ModuleRegistry { modules: StrMap::new(), resolver: ModuleResolver::new() }
    }

    /// Registers the code of a module, replacing any earlier one.
    pub fn register(&mut self, specifier: &str, code: &str)
        ensures
            final(self).modules().dom() == old(self).modules().dom().insert(specifier@),
            forall|k: Seq<char>| k != specifier@ && old(self).modules().dom().contains(k) ==> final(self).modules()[k]
                == old(self).modules()[k],
            final(self).modules()[specifier@].specifier@ == specifier@,
            final(self).modules()[specifier@].code@ == code@,
            final(self).modules()[specifier@].status is Unloaded,
    {
        let m = EsModule::new(specifier, code);
        self.modules.insert(specifier, m);
    }

    /// The module registered under a specifier.
    pub fn get_module(&self, specifier: &str) -> (r: Option<&EsModule>)
        ensures
            match r {
                Some(m) => self.modules().dom().contains(specifier@) && *m == self.modules()[specifier@],
                None => !self.modules().dom().contains(specifier@),
            },
    {
        self.modules.get(specifier)
    }

    /// Where `specifier` leads from `base`.
    pub fn resolve(&self, specifier: &str, base: &str) -> (r: String)
        ensures
            r@ == resolve_spec(specifier@, base@),
    {
        self.resolver.resolve(specifier, base)
    }

    /// Forgets every module.
    pub fn clear(&mut self)
        ensures
            final(self).modules() == Map::<Seq<char>, EsModule>::empty(),
    {
        self.modules.clear();
    }

    /// The number of modules.
    pub fn module_count(&self) -> (n: usize)
        ensures
            n == self.modules().dom().len(),
    {
        self.modules.len()
    }
}

impl Default for ModuleRegistry {
    fn default() -> (r: Self)
        ensures
            r.modules() == Map::<Seq<char>, EsModule>::empty(),
    {
        Self::new()
    }
}

} // verus!
