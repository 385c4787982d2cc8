//! The foreground-application capability, reduced to its decision.
//!
//! Which application owns user input focus only the platform can answer;
//! a host process queries its windowing system and hands the answer in as
//! plain values.  What is decided here — and verified — is how that answer
//! becomes the result the callers see.

use vstd::prelude::*;
use vstd::string::StringExecFns;

verus! {

/// Turns the platform resolver's answer into the label result: a resolved
/// name is returned as is, and a missing answer (the lookup failed, or the
/// platform has no resolver) becomes the error the caller may display.
/// The caller degrades that error to an empty label where a record must
/// still be built.
pub fn get_active_app_name_macos(resolved: Option<String>) -> (r: Result<String, String>)
    ensures
        resolved matches Some(name) ==> (r matches Ok(n) && n@ == name@),
        resolved is None ==> (r matches Err(m) && m@
            == "Could not determine frontmost application."@),
{
    match resolved {
        Option::Some(name) => Ok(name),
        Option::None => Err(String::from_str("Could not determine frontmost application.")),
    }
}

} // verus!
