//! The mapping from the numeric log-level setting to a level name.
//! Wiring a logging backend to it is the caller's concern.

use vstd::prelude::*;
use vstd::string::StringExecFns;

verus! {

/// The level name for a numeric setting: 0 and 5 mean "trace", 1 to 4
/// name the usual levels, anything else falls back to "debug".
pub open spec fn spec_convert_log(log_int: Option<i32>) -> Seq<char> {
    match log_int {
        Some(v) => {
            if v == 0 || v == 5 {
                "trace"@
            } else if v == 1 {
                "error"@
            } else if v == 2 {
                "warn"@
            } else if v == 3 {
                "info"@
            } else if v == 4 {
                "debug"@
            } else {
                "debug"@
            }
        },
        None => "debug"@,
    }
}

/// Converts a numeric log-level setting to its level name.
pub fn convert_log(log_int: Option<i32>) -> (r: String)
    ensures
        r@ == spec_convert_log(log_int),
{
    match log_int {
        Some(0) => String::from_str("trace"),
        Some(1) => String::from_str("error"),
        Some(2) => String::from_str("warn"),
        Some(3) => String::from_str("info"),
        Some(4) => String::from_str("debug"),
        Some(5) => String::from_str("trace"),
        _ => String::from_str("debug"),
    }
}

} // verus!
