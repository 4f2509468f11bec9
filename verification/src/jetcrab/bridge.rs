//! The bridge between the JavaScript runtime and the engine's DOM, CSSOM
//! and events: its lifecycle.
use vstd::prelude::*;
use crate::text::owned;

verus! {

/// The bridge: whether it is running.
#[derive(Debug)]
pub struct JetCrabBridge {
    initialized: bool,
}

/// The answer of a registration: fine when running, else the error.
pub open spec fn registered(running: bool, r: Result<(), String>) -> bool {
    &&& running ==> r is Ok
    &&& !running ==> (r matches Err(e) && e@ == "Bridge not initialized"@)
}

impl JetCrabBridge {
    /// Whether the bridge is running.
    pub closed spec fn running(&self) -> bool {
        self.initialized
    }

    /// A stopped bridge.
    pub fn new() -> (b: Self)
        ensures
            !b.running(),
    {
        JetCrabBridge { initialized: false }
    }

    /// Starts the bridge (again is fine).
    pub fn init(&mut self) -> (r: Result<(), String>)
        ensures
            r is Ok,
            final(self).running(),
    {
        if self.initialized {
            return Ok(());
        }
        self.initialized = true;
        Ok(())
    }

    /// The error of a stopped bridge.
    fn not_running() -> (r: Result<(), String>)
        ensures
            r matches Err(e) && e@ == "Bridge not initialized"@,
    {
        Err(owned("Bridge not initialized"))
    }

    /// Registers the DOM API.
    pub fn register_dom_api(&self) -> (r: Result<(), String>)
        ensures
            registered(self.running(), r),
    {
        if !self.initialized {
            return Self::not_running();
        }
        Ok(())
    }

    /// Registers the CSSOM API.
    pub fn register_cssom_api(&self) -> (r: Result<(), String>)
        ensures
            registered(self.running(), r),
    {
        if !self.initialized {
            return Self::not_running();
        }
        Ok(())
    }

    /// Registers the event system.
    pub fn register_event_system(&self) -> (r: Result<(), String>)
        ensures
            registered(self.running(), r),
    {
        if !self.initialized {
            return Self::not_running();
        }
        Ok(())
    }

    /// Runs compiled component code: `undefined` when running, else an error.
    pub fn execute_sfc_code(&self, code: &str) -> (r: Result<String, String>)
        ensures
            self.running() ==> (r matches Ok(v) && v@ == "undefined"@),
            !self.running() ==> (r matches Err(e) && e@ == "Bridge not initialized"@),
    {
        if !self.initialized {
            return Err(owned("Bridge not initialized"));
        }
        Ok(owned("undefined"))
    }

    /// Whether the bridge is running.
    pub fn is_initialized(&self) -> (b: bool)
        ensures
            b == self.running(),
    {
        self.initialized
    }

    /// Stops the bridge.
    pub fn shutdown(&mut self) -> (r: Result<(), String>)
        ensures
            r is Ok,
            !final(self).running(),
    {
        if !self.initialized {
            return Ok(());
        }
        self.initialized = false;
        Ok(())
    }
}

} // verus!
