//! WebAssembly modules: loaded module information, instances and the
//! functions their exports stand for.
use vstd::prelude::*;
use vstd::string::StringExecFns;
use crate::strmap::StrMap;
use crate::text::{owned, str_eq};
use crate::jetcrab::module::str_views;

verus! {

/// An exported function of a module.
#[derive(Debug, Clone)]
pub struct WasmExport {
    /// Function name.
    pub name: String,
    /// Number of parameters.
    pub params: u32,
    /// Number of results.
    pub results: u32,
}

impl WasmExport {
    /// A copy.
    pub fn copy(&self) -> (e: Self)
        ensures
            e.name@ == self.name@,
            e.params == self.params,
            e.results == self.results,
    {
        WasmExport { name: self.name.clone(), params: self.params, results: self.results }
    }
}

/// Information on a loaded module.
#[derive(Debug, Clone)]
pub struct WasmModuleInfo {
    /// Module name.
    pub name: String,
    /// Path it was read from.
    pub path: String,
    /// Exported functions.
    pub exports: Vec<WasmExport>,
    /// Whether it has been instantiated.
    pub instantiated: bool,
}

/// `b` lists the exports of `a`: same names, parameters and results.
pub open spec fn exports_copied(a: Seq<WasmExport>, b: Seq<WasmExport>) -> bool {
    a.len() == b.len() && forall|i: int| 0 <= i < a.len() ==> #[trigger] export_same(a[i], b[i])
}

/// Two exports with the same name, parameters and results.
pub open spec fn export_same(x: WasmExport, y: WasmExport) -> bool {
    x.name@ == y.name@ && x.params == y.params && x.results == y.results
}

/// `b` holds the information of `a`.
pub open spec fn info_copied(a: WasmModuleInfo, b: WasmModuleInfo) -> bool {
    &&& a.name@ == b.name@
    &&& a.path@ == b.path@
    &&& exports_copied(a.exports@, b.exports@)
    &&& a.instantiated == b.instantiated
}

/// Copying twice is copying.
pub proof fn lemma_info_copied_trans(a: WasmModuleInfo, b: WasmModuleInfo, c: WasmModuleInfo)
    requires
        info_copied(a, b),
        info_copied(b, c),
    ensures
        info_copied(a, c),
{
    assert forall|i: int| 0 <= i < a.exports@.len() implies #[trigger] export_same(a.exports@[i], c.exports@[i]) by {
        assert(export_same(a.exports@[i], b.exports@[i]));
        assert(export_same(b.exports@[i], c.exports@[i]));
    }
}

impl WasmModuleInfo {
    /// A copy.
    pub fn copy(&self) -> (m: Self)
        ensures
            info_copied(*self, m),
    {
        let mut exports: Vec<WasmExport> = Vec::new();
        let mut i: usize = 0;
        while i < self.exports.len()
            invariant
                i <= self.exports@.len(),
                exports@.len() == i,
                forall|j: int| 0 <= j < i ==> #[trigger] export_same(self.exports@[j], exports@[j]),
            decreases self.exports@.len() - i,
        {
            exports.push(self.exports[i].copy());
            i = i + 1;
        }
        WasmModuleInfo {
            name: self.name.clone(),
            path: self.path.clone(),
            exports,
            instantiated: self.instantiated,
        }
    }
}

/// The Fibonacci numbers.
pub open spec fn fib(n: nat) -> nat
    decreases n,
{
    if n == 0 {
        0
    } else if n == 1 {
        1
    } else {
        fib((n - 2) as nat) + fib((n - 1) as nat)
    }
}

/// Fibonacci numbers do not decrease.
pub proof fn lemma_fib_monotonic(i: nat, j: nat)
    requires
        i <= j,
    ensures
        fib(i) <= fib(j),
    decreases j - i,
{
    if i < j {
        lemma_fib_monotonic(i, (j - 1) as nat);
        if j >= 2 {
            assert(fib(j) == fib((j - 2) as nat) + fib((j - 1) as nat));
        }
    }
}

/// The `n`-th Fibonacci number.
pub fn fibonacci(n: u32) -> (r: u32)
    requires
        fib(n as nat) <= u32::MAX,
    ensures
        r == fib(n as nat),
{
    if n == 0 {
        return 0;
    }
    let mut a: u32 = 0;
    let mut b: u32 = 1;
    let mut i: u32 = 1;
    while i < n
        invariant
            1 <= i <= n,
            a == fib((i - 1) as nat),
            b == fib(i as nat),
            fib(n as nat) <= u32::MAX,
        decreases n - i,
    {
        proof {
            lemma_fib_monotonic((i + 1) as nat, n as nat);
        }
        let temp = a + b;
        a = b;
        b = temp;
        i = i + 1;
    }
    b
}

/// What calling the export `name` gives: `add` adds two arguments,
/// `fibonacci` takes the Fibonacci number of one argument (0 for other
/// argument counts), anything else gives nothing.
pub open spec fn export_result(name: Seq<char>, args: Seq<u32>) -> Seq<u32> {
    if name == "add"@ {
        if args.len() == 2 {
            seq![(args[0] + args[1]) as u32]
        } else {
            seq![0u32]
        }
    } else if name == "fibonacci"@ {
        if args.len() == 1 {
            seq![fib(args[0] as nat) as u32]
        } else {
            seq![0u32]
        }
    } else {
        Seq::empty()
    }
}

/// The call stays within `u32`: the sum of `add`, the Fibonacci number of
/// `fibonacci`.
pub open spec fn export_call_ok(name: Seq<char>, args: Seq<u32>) -> bool {
    &&& (name == "add"@ && args.len() == 2 ==> args[0] + args[1] <= u32::MAX)
    &&& (name == "fibonacci"@ && args.len() == 1 ==> fib(args[0] as nat) <= u32::MAX)
}

/// An instance of a module.
#[derive(Debug)]
pub struct WasmInstance {
    module_info: WasmModuleInfo,
    memory_ptr: usize,
    exported: Vec<String>,
}

impl WasmInstance {
    /// The module information the instance was made from.
    pub closed spec fn info(&self) -> WasmModuleInfo {
        self.module_info
    }

    /// The start of its memory.
    pub closed spec fn memory(&self) -> usize {
        self.memory_ptr
    }

    /// Names of the exported functions.
    pub closed spec fn export_names(&self) -> Seq<Seq<char>> {
        self.exported@.map_values(|s: String| s@)
    }

    /// Calls an exported function.
    pub fn call_export(&self, name: &str, args: &[u32]) -> (r: Result<Vec<u32>, String>)
        requires
            export_call_ok(name@, args@),
        ensures
            self.export_names().contains(name@) ==> (r matches Ok(v) && v@ == export_result(name@, args@)),
            !self.export_names().contains(name@) ==> (r matches Err(e) && e@ == "Export function not found: "@
                + name@),
    {
        let mut i: usize = 0;
        let mut found = false;
        while i < self.exported.len()
            invariant
                i <= self.exported@.len(),
                found == (exists|j: int| 0 <= j < i && self.exported@[j]@ == name@),
            decreases self.exported@.len() - i,
        {
            if str_eq(self.exported[i].as_str(), name) {
                found = true;
            }
            i = i + 1;
        }
        proof {
            if found {
                let j = choose|j: int| 0 <= j < i && self.exported@[j]@ == name@;
                assert(self.export_names()[j] == name@);
            }
            if self.export_names().contains(name@) {
                let j = choose|j: int| 0 <= j < self.export_names().len() && self.export_names()[j] == name@;
                assert(self.exported@[j]@ == name@);
            }
        }
        if !found {
            return Err(owned("Export function not found: ").concat(name));
        }
        let mut out: Vec<u32> = Vec::new();
        if str_eq(name, "add") {
            if args.len() == 2 {
                out.push(args[0] + args[1]);
            } else {
                out.push(0);
            }
        } else if str_eq(name, "fibonacci") {
            if args.len() == 1 {
                out.push(fibonacci(args[0]));
            } else {
                out.push(0);
            }
        }
        proof {
            assert(out@ =~= export_result(name@, args@));
        }
        Ok(out)
    }

    /// The start of its memory.
    pub fn memory_ptr(&self) -> (p: usize)
        ensures
            p == self.memory(),
    {
        self.memory_ptr
    }

    /// The module information.
    pub fn module_info(&self) -> (m: &WasmModuleInfo)
        ensures
            *m == self.info(),
    {
        &self.module_info
    }

    /// A copy of the instance.
    pub fn copy(&self) -> (c: Self)
        ensures
            info_copied(self.info(), c.info()),
            c.memory() == self.memory(),
            c.export_names() == self.export_names(),
    {
        let mut names: Vec<String> = Vec::new();
        let mut i: usize = 0;
        while i < self.exported.len()
            invariant
                i <= self.exported@.len(),
                names@.len() == i,
                forall|j: int| 0 <= j < i ==> #[trigger] names@[j]@ == self.exported@[j]@,
            decreases self.exported@.len() - i,
        {
            names.push(self.exported[i].clone());
            i = i + 1;
        }
        let c = WasmInstance { module_info: self.module_info.copy(), memory_ptr: self.memory_ptr, exported: names };
        assert(c.export_names() =~= self.export_names());
        c
    }
}

/// The exports a module is read to have: `add` with two parameters and
/// `fibonacci` with one, each with one result.
pub open spec fn mock_exports_ok(e: Seq<WasmExport>) -> bool {
    &&& e.len() == 2
    &&& e[0].name@ == "add"@ && e[0].params == 2 && e[0].results == 1
    &&& e[1].name@ == "fibonacci"@ && e[1].params == 1 && e[1].results == 1
}

/// The exports read from module bytes (a fixed pair for now).
pub fn parse_wasm_exports(_wasm_bytes: &[u8]) -> (r: Result<Vec<WasmExport>, String>)
    ensures
        r matches Ok(e) && mock_exports_ok(e@),
{
    let mut v: Vec<WasmExport> = Vec::new();
    v.push(WasmExport { name: owned("add"), params: 2, results: 1 });
    v.push(WasmExport { name: owned("fibonacci"), params: 1, results: 1 });
    Ok(v)
}

/// The loaded modules and their instances, by name.
#[derive(Debug)]
pub struct WasmLoader {
    modules: StrMap<WasmModuleInfo>,
    instances: StrMap<WasmInstance>,
}

/// The export names every module is read to have.
pub open spec fn mock_export_names() -> Seq<Seq<char>> {
    seq!["add"@, "fibonacci"@]
}

/// An instance made from a read module exports exactly `add` and
/// `fibonacci`.
pub proof fn lemma_mock_export_names(n: Seq<char>)
    ensures
        mock_export_names().contains(n) <==> (n == "add"@ || n == "fibonacci"@),
{
    let s = mock_export_names();
    if n == "add"@ {
        assert(s[0] == n);
    } else if n == "fibonacci"@ {
        assert(s[1] == n);
    }
}

impl WasmLoader {
    /// Every module has the exports that reading gives, and every instance
    /// exports their names, with its memory at `0x1000`.
    #[verifier::type_invariant]
    spec fn loaded_ok(&self) -> bool {
        &&& forall|k: Seq<char>| #[trigger] self.modules@.contains_key(k) ==> mock_exports_ok(self.modules@[k].exports@)
        &&& forall|k: Seq<char>| #[trigger] self.instances@.contains_key(k) ==> self.instances@[k].memory() == 0x1000
            && self.instances@[k].export_names() == mock_export_names()
    }

    /// The loaded modules.
    pub closed spec fn modules(&self) -> Map<Seq<char>, WasmModuleInfo> {
        self.modules@
    }

    /// The instances.
    pub closed spec fn instances(&self) -> Map<Seq<char>, WasmInstance> {
        self.instances@
    }

    /// Module names in load order.
    pub closed spec fn module_order(&self) -> Seq<Seq<char>> {
        self.modules.key_seq()
    }

    /// No modules.
    pub fn new() -> (l: Self)
        ensures
            l.modules() == Map::<Seq<char>, WasmModuleInfo>::empty(),
            l.instances() == Map::<Seq<char>, WasmInstance>::empty(),
    {
        WasmLoader { modules: StrMap::new(), instances: StrMap::new() }
    }

    /// Records a module read from `path` with the given bytes; a module of
    /// that name already loaded is returned as it is.
    pub fn add_module(&mut self, name: &str, path: &str, wasm_bytes: &[u8]) -> (r: Result<WasmModuleInfo, String>)
        ensures
            old(self).modules().contains_key(name@) ==> (r matches Ok(m) && info_copied(old(self).modules()[name@], m)
                && final(self).modules() == old(self).modules()),
            !old(self).modules().contains_key(name@) ==> (r matches Ok(m) && final(self).modules().contains_key(name@)
                && info_copied(final(self).modules()[name@], m) && m.name@ == name@ && m.path@ == path@
                && mock_exports_ok(m.exports@) && !m.instantiated && final(self).modules()
                == old(self).modules().insert(name@, final(self).modules()[name@])),
            final(self).instances() == old(self).instances(),
            r matches Ok(m) ==> mock_exports_ok(m.exports@),
    {
        proof {
            use_type_invariant(&*self);
        }
        match self.modules.get(name) {
            Some(m) => {
                let c = m.copy();
                proof {
                    assert(self.modules@.contains_key(name@));
                    assert(export_same(m.exports@[0], c.exports@[0]));
                    assert(export_same(m.exports@[1], c.exports@[1]));
                }
                return Ok(c);
            },
            None => {},
        }
        let exports = match parse_wasm_exports(wasm_bytes) {
            Ok(e) => e,
            Err(e) => return Err(e),
        };
        let info = WasmModuleInfo { name: owned(name), path: owned(path), exports, instantiated: false };
        let c = info.copy();
        proof {
            assert(export_same(info.exports@[0], c.exports@[0]));
            assert(export_same(info.exports@[1], c.exports@[1]));
        }
        let mut parts = WasmLoader::new();
        std::mem::swap(self, &mut parts);
        let WasmLoader { mut modules, instances } = parts;
        modules.insert(name, info);
        *self = WasmLoader { modules, instances };
        Ok(c)
    }

    /// Instantiates the module `name` (once; later calls give the same
    /// instance), marking it instantiated.
    pub fn instantiate(&mut self, name: &str) -> (r: Result<WasmInstance, String>)
        ensures
            old(self).instances().contains_key(name@) ==> (r matches Ok(i) && info_copied(
                old(self).instances()[name@].info(),
                i.info(),
            ) && i.memory() == old(self).instances()[name@].memory() && i.export_names()
                == old(self).instances()[name@].export_names() && final(self).modules() == old(self).modules()
                && final(self).instances() == old(self).instances()),
            !old(self).instances().contains_key(name@) && !old(self).modules().contains_key(name@) ==> (r matches Err(
                e,
            ) && e@ == "WASM module not found: "@ + name@ && final(self).modules() == old(self).modules()
                && final(self).instances() == old(self).instances()),
            !old(self).instances().contains_key(name@) && old(self).modules().contains_key(name@) ==> (r matches Ok(
                i,
            ) && info_copied(old(self).modules()[name@], i.info()) && i.memory() == 0x1000 && i.export_names()
                == old(self).modules()[name@].exports@.map_values(|e: WasmExport| e.name@)
                && final(self).instances().contains_key(name@) && final(self).instances()[name@].export_names()
                == i.export_names() && final(self).modules().contains_key(name@)
                && final(self).modules()[name@].instantiated && final(self).modules()[name@].name
                == old(self).modules()[name@].name && final(self).modules()[name@].path
                == old(self).modules()[name@].path && final(self).modules()[name@].exports
                == old(self).modules()[name@].exports && final(self).modules().remove(name@)
                == old(self).modules().remove(name@)),
            r matches Ok(i) ==> i.memory() == 0x1000 && i.export_names() == mock_export_names(),
            r is Ok ==> final(self).instances().contains_key(name@) && final(self).modules().dom() == old(
                self,
            ).modules().dom(),
            r is Err <==> !old(self).instances().contains_key(name@) && !old(self).modules().contains_key(name@),
    {
        proof {
            use_type_invariant(&*self);
        }
        match self.instances.get(name) {
            Some(inst) => return Ok(inst.copy()),
            None => {},
        }
        let info = match self.modules.get(name) {
            Some(m) => m.copy(),
            None => return Err(owned("WASM module not found: ").concat(name)),
        };
        let mut names: Vec<String> = Vec::new();
        let mut i: usize = 0;
        while i < info.exports.len()
            invariant
                i <= info.exports@.len(),
                names@.len() == i,
                forall|j: int| 0 <= j < i ==> #[trigger] names@[j]@ == info.exports@[j].name@,
            decreases info.exports@.len() - i,
        {
            names.push(info.exports[i].name.clone());
            i = i + 1;
        }
        let ghost orig = old(self).modules()[name@];
        proof {
            assert(old(self).modules@.contains_key(name@));
            assert(mock_exports_ok(orig.exports@));
            assert(export_same(orig.exports@[0], info.exports@[0]));
            assert(export_same(orig.exports@[1], info.exports@[1]));
            assert(names@.len() == 2);
            assert(names@[0]@ == "add"@);
            assert(names@[1]@ == "fibonacci"@);
        }
        let instance = WasmInstance { module_info: info, memory_ptr: 0x1000, exported: names };
        proof {
            assert(instance.export_names() =~= mock_export_names());
        }
        let result = instance.copy();
        proof {
            lemma_info_copied_trans(orig, instance.info(), result.info());
        }
        let mut parts = WasmLoader::new();
        std::mem::swap(self, &mut parts);
        let WasmLoader { mut modules, mut instances } = parts;
        instances.insert(name, instance);
        match modules.remove(name) {
            Some(m) => {
                let mut m = m;
                m.instantiated = true;
                modules.insert(name, m);
            },
            None => {},
        }
        proof {
            assert forall|k: Seq<char>| #[trigger] modules@.contains_key(k) implies mock_exports_ok(
                modules@[k].exports@,
            ) by {
                assert(old(self).modules@.contains_key(k));
            }
            assert forall|k: Seq<char>| #[trigger] instances@.contains_key(k) implies instances@[k].memory() == 0x1000
                && instances@[k].export_names() == mock_export_names() by {
                if k != name@ {
                    assert(old(self).instances@.contains_key(k));
                }
            }
        }
        *self = WasmLoader { modules, instances };
        proof {
            assert forall|j: int| 0 <= j < result.export_names().len() implies result.export_names()[j] == orig.exports@[j].name@ by {
                assert(export_same(orig.exports@[j], instance.info().exports@[j]));
            }
            assert(result.export_names() =~= old(self).modules()[name@].exports@.map_values(|e: WasmExport| e.name@));
            assert(self.modules().remove(name@) =~= old(self).modules().remove(name@));
            assert(info_copied(old(self).modules()[name@], result.info()));
            assert(self.modules()[name@].instantiated);
            assert(self.modules()[name@].exports == orig.exports);
            assert(result.export_names() =~= mock_export_names());
        }
        Ok(result)
    }

    /// A copy of the module `name`.
    pub fn get_module(&self, name: &str) -> (r: Option<WasmModuleInfo>)
        ensures
            match r {
                Some(m) => self.modules().contains_key(name@) && info_copied(self.modules()[name@], m),
                None => !self.modules().contains_key(name@),
            },
    {
        match self.modules.get(name) {
            Some(m) => Some(m.copy()),
            None => None,
        }
    }

    /// A copy of the instance of `name`.
    pub fn get_instance(&self, name: &str) -> (r: Option<WasmInstance>)
        ensures
            match r {
                Some(i) => self.instances().contains_key(name@) && info_copied(self.instances()[name@].info(), i.info())
                    && i.memory() == self.instances()[name@].memory() && i.export_names()
                    == self.instances()[name@].export_names() && i.memory() == 0x1000 && i.export_names()
                    == mock_export_names(),
                None => !self.instances().contains_key(name@),
            },
    {
        proof {
            use_type_invariant(self);
        }
        match self.instances.get(name) {
            Some(i) => Some(i.copy()),
            None => None,
        }
    }

    /// Copies of all modules, in load order.
    pub fn list_modules(&self) -> (r: Vec<WasmModuleInfo>)
        ensures
            r@.len() == self.module_order().len(),
            forall|i: int| 0 <= i < r@.len() ==> info_copied(self.modules()[self.module_order()[i]], #[trigger] r@[i]),
    {
        proof {
            use_type_invariant(&self.modules);
            self.modules.lemma_keys();
        }
        let n = self.modules.len();
        let mut out: Vec<WasmModuleInfo> = Vec::new();
        let mut i: usize = 0;
        while i < n
            invariant
                i <= n,
                n == self.modules.key_seq().len(),
                n == self.modules.entry_seq().len(),
                out@.len() == i,
                forall|j: int| 0 <= j < i ==> info_copied(self.modules()[self.module_order()[j]], #[trigger] out@[j]),
            decreases n - i,
        {
            out.push(self.modules.value_at(i).copy());
            i = i + 1;
        }
        out
    }

    /// Forgets the module `name` and its instance.
    pub fn unload_module(&mut self, name: &str) -> (r: Result<(), String>)
        ensures
            old(self).modules().contains_key(name@) ==> r is Ok && final(self).modules() == old(self).modules().remove(
                name@,
            ) && final(self).instances() == old(self).instances().remove(name@),
            !old(self).modules().contains_key(name@) ==> (r matches Err(e) && e@ == "Module not found: "@ + name@
                && final(self).modules() == old(self).modules() && final(self).instances() == old(self).instances()),
    {
        proof {
            use_type_invariant(&*self);
        }
        if !self.modules.contains_key(name) {
            return Err(owned("Module not found: ").concat(name));
        }
        let mut parts = WasmLoader::new();
        std::mem::swap(self, &mut parts);
        let WasmLoader { mut modules, mut instances } = parts;
        let _ = modules.remove(name);
        let _ = instances.remove(name);
        *self = WasmLoader { modules, instances };
        Ok(())
    }

    /// Forgets every module and instance.
    pub fn clear_cache(&mut self)
        ensures
            final(self).modules() == Map::<Seq<char>, WasmModuleInfo>::empty(),
            final(self).instances() == Map::<Seq<char>, WasmInstance>::empty(),
    {
        *self = WasmLoader::new();
    }

    /// Number of loaded modules.
    pub fn module_count(&self) -> (n: usize)
        ensures
            n == self.modules().dom().len(),
    {
        self.modules.len()
    }
}

/// Functions that scripts call by name, of the type `F`: each takes string
/// arguments and gives a string.
#[derive(Debug)]
pub struct JsFFIBridge<F> {
    js_functions: StrMap<F>,
}

impl<F> JsFFIBridge<F> {
    /// The registered functions, by name.
    pub closed spec fn functions(&self) -> Map<Seq<char>, F> {
        self.js_functions@
    }

    /// The names, in the order they were first registered.
    pub closed spec fn names(&self) -> Seq<Seq<char>> {
        self.js_functions.key_seq()
    }

    /// No functions.
    pub fn new() -> (b: Self)
        ensures
            b.functions() == Map::<Seq<char>, F>::empty(),
    {
        JsFFIBridge { js_functions: StrMap::new() }
    }

    /// Registers `func` under `name`, replacing any earlier one.
    pub fn register_js_function(&mut self, name: &str, func: F)
        ensures
            final(self).functions() == old(self).functions().insert(name@, func),
    {
        self.js_functions.insert(name, func);
    }

    /// Removes the function `name` and hands it back.
    pub fn unregister_js_function(&mut self, name: &str) -> (r: Option<F>)
        ensures
            final(self).functions() == old(self).functions().remove(name@),
            match r {
                Some(f) => old(self).functions().contains_key(name@) && f == old(self).functions()[name@],
                None => !old(self).functions().contains_key(name@),
            },
    {
        self.js_functions.remove(name)
    }

    /// The names of the registered functions, each once.
    pub fn list_functions(&self) -> (r: Vec<String>)
        ensures
            str_views(r@) == self.names(),
            forall|k: Seq<char>| self.functions().contains_key(k) <==> str_views(r@).contains(k),
    {
        proof {
            use_type_invariant(&self.js_functions);
            self.js_functions.lemma_keys();
        }
        let n = self.js_functions.len();
        let mut out: Vec<String> = Vec::new();
        let mut i: usize = 0;
        while i < n
            invariant
                i <= n,
                n == self.js_functions.entry_seq().len(),
                n == self.js_functions.key_seq().len(),
                str_views(out@) == self.js_functions.key_seq().take(i as int),
            decreases n - i,
        {
            let k = self.js_functions.key_at(i);
            out.push(k.clone());
            proof {
                let ks = self.js_functions.key_seq();
                assert(ks.take(i + 1) =~= ks.take(i as int).push(ks[i as int]));
                assert(str_views(out@) =~= ks.take(i + 1));
            }
            i = i + 1;
        }
        assert(self.js_functions.key_seq().take(n as int) =~= self.js_functions.key_seq());
        out
    }

    /// Removes every function.
    pub fn clear(&mut self)
        ensures
            final(self).functions() == Map::<Seq<char>, F>::empty(),
    {
        self.js_functions.clear();
    }
}

impl<F: Fn(&[String]) -> String> JsFFIBridge<F> {
    /// Calls the function `name` with `args`: its result, or an error where
    /// no function has that name.
    pub fn call_js_function(&self, name: &str, args: &[String]) -> (r: Result<String, String>)
        requires
            self.functions().contains_key(name@) ==> call_requires(self.functions()[name@], (args,)),
        ensures
            match r {
                Ok(v) => self.functions().contains_key(name@) && call_ensures(self.functions()[name@], (args,), v),
                Err(e) => !self.functions().contains_key(name@) && e@ == "JavaScript function not found: "@ + name@,
            },
    {
        match self.js_functions.get(name) {
            Some(f) => Ok(f(args)),
            None => Err(owned("JavaScript function not found: ").concat(name)),
        }
    }
}

} // verus!
