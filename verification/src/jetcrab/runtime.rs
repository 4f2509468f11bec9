//! Lifecycle of the JavaScript runtime.
use vstd::prelude::*;
use crate::text::owned;

verus! {

/// Runtime settings.
#[derive(Debug, Clone, Copy, PartialEq, Eq, Structural)]
pub struct RuntimeConfig {
    /// Strict mode.
    pub strict_mode: bool,
    /// Time limit of one evaluation, in milliseconds.
    pub max_execution_time_ms: u64,
    /// Whether source maps are produced.
    pub enable_source_map: bool,
    /// Memory limit in MiB.
    pub memory_limit_mb: usize,
}

impl Default for RuntimeConfig {
    /// Strict, 5 s, no source maps, 512 MiB.
    fn default() -> (c: Self)
        ensures
            c == (RuntimeConfig {
                strict_mode: true,
                max_execution_time_ms: 5000,
                enable_source_map: false,
                memory_limit_mb: 512,
            }),
    {
        RuntimeConfig { strict_mode: true, max_execution_time_ms: 5000, enable_source_map: false, memory_limit_mb: 512 }
    }
}

/// The JavaScript runtime: its settings and whether it is running.
#[derive(Debug)]
pub struct JetCrabRuntime {
    config: RuntimeConfig,
    initialized: bool,
}

impl JetCrabRuntime {
    /// The settings.
    pub closed spec fn settings(&self) -> RuntimeConfig {
        self.config
    }

    /// Whether the runtime is running.
    pub closed spec fn running(&self) -> bool {
        self.initialized
    }

    /// A stopped runtime with the default settings.
    pub fn new() -> (r: Self)
        ensures
            r.settings() == (RuntimeConfig {
                strict_mode: true,
                max_execution_time_ms: 5000,
                enable_source_map: false,
                memory_limit_mb: 512,
            }),
            !r.running(),
    {
        JetCrabRuntime { config: RuntimeConfig::default(), initialized: false }
    }

    /// A stopped runtime with the given settings.
    pub fn with_config(config: RuntimeConfig) -> (r: Self)
        ensures
            r.settings() == config,
            !r.running(),
    {
        JetCrabRuntime { config, initialized: false }
    }

    /// Starts the runtime (again is fine).
    pub fn init(&mut self) -> (r: Result<(), String>)
        ensures
            r is Ok,
            final(self).running(),
            final(self).settings() == old(self).settings(),
    {
        if self.initialized {
            return Ok(());
        }
        self.initialized = true;
        Ok(())
    }

    /// Evaluates code: `undefined` when running, else an error.
    pub fn eval(&self, code: &str) -> (r: Result<String, String>)
        ensures
            self.running() ==> (r matches Ok(v) && v@ == "undefined"@),
            !self.running() ==> (r matches Err(e) && e@ == "Runtime not initialized. Call init() first."@),
    {
        if !self.initialized {
            return Err(owned("Runtime not initialized. Call init() first."));
        }
        Ok(owned("undefined"))
    }

    /// Sets a global variable; an error when not running.
    pub fn set_global(&self, name: &str, value: &str) -> (r: Result<(), String>)
        ensures
            self.running() ==> r is Ok,
            !self.running() ==> (r matches Err(e) && e@ == "Runtime not initialized"@),
    {
        if !self.initialized {
            return Err(owned("Runtime not initialized"));
        }
        Ok(())
    }

    /// Reads a global variable: `undefined` when running, else an error.
    pub fn get_global(&self, name: &str) -> (r: Result<String, String>)
        ensures
            self.running() ==> (r matches Ok(v) && v@ == "undefined"@),
            !self.running() ==> (r matches Err(e) && e@ == "Runtime not initialized"@),
    {
        if !self.initialized {
            return Err(owned("Runtime not initialized"));
        }
        Ok(owned("undefined"))
    }

    /// Whether the runtime is running.
    pub fn is_initialized(&self) -> (b: bool)
        ensures
            b == self.running(),
    {
        self.initialized
    }

    /// The settings.
    pub fn config(&self) -> (c: &RuntimeConfig)
        ensures
            *c == self.settings(),
    {
        &self.config
    }

    /// Stops the runtime.
    pub fn shutdown(&mut self) -> (r: Result<(), String>)
        ensures
            r is Ok,
            !final(self).running(),
            final(self).settings() == old(self).settings(),
    {
        if !self.initialized {
            return Ok(());
        }
        self.initialized = false;
        Ok(())
    }
}

} // verus!
