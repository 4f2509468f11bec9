//! Small web APIs: fetch responses and timers; the console and process
//! objects, whose operations are input and output.
use vstd::prelude::*;
use vstd::string::StringExecFns;
use crate::strmap::StrMap;
use crate::text::owned;

verus! {

/// A JSON value, as `serde_json` parses it.
#[verifier::external_type_specification]
#[verifier::external_body]
pub struct ExJsonValue(serde_json::Value);

/// The message of the error `serde_json` reports for the text `s`, or none
/// when `s` is valid JSON.
pub uninterp spec fn json_error(s: Seq<char>) -> Option<Seq<char>>;

/// The value `serde_json` parses from the text `s`, where it parses.
pub uninterp spec fn json_value_of(s: Seq<char>) -> serde_json::Value;

/// Calls `serde_json::from_str` for a `serde_json::Value`; the value, or
/// the error turned into its message, depends on the text alone, and there
/// is no error exactly when the text parses.
#[verifier::external_body]
fn parse_json_value(s: &str) -> (r: Result<serde_json::Value, String>)
    ensures
        match r {
            Ok(v) => json_error(s@) is None && v == json_value_of(s@),
            Err(m) => json_error(s@) == Some(m@),
        },
{
    serde_json::from_str::<serde_json::Value>(s).map_err(|e| e.to_string())
}

/// The console object; writing to it is output.
#[derive(Debug, Clone, Copy, PartialEq, Eq, Structural)]
pub struct Console;

/// The process object; its operations read the environment.
#[derive(Debug, Clone, Copy, PartialEq, Eq, Structural)]
pub struct Process;

/// A response of `fetch`.
#[derive(Debug)]
pub struct FetchResponse {
    /// HTTP status.
    pub status: u16,
    /// Body.
    pub body: String,
    /// Headers.
    pub headers: StrMap<String>,
}

impl FetchResponse {
    /// The body parsed as JSON.
    pub fn json(&self) -> (r: Result<serde_json::Value, String>)
        ensures
            match json_error(self.body@) {
                None => r matches Ok(v) && v == json_value_of(self.body@),
                Some(m) => r matches Err(e) && e@ == "Failed to parse JSON: "@ + m,
            },
    {
        match parse_json_value(self.body.as_str()) {
            Ok(v) => Ok(v),
            Err(m) => Err(owned("Failed to parse JSON: ").concat(m.as_str())),
        }
    }

    /// The body as text.
    pub fn text(&self) -> (t: &str)
        ensures
            t@ == self.body@,
    {
        self.body.as_str()
    }
}

/// Cancels a timer; timers are not tracked, so nothing changes.
pub fn clear_timer(_timer_id: u32) {
}

} // verus!
