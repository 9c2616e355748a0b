//! Stand-in for the graphical client.
use vstd::prelude::*;

verus! {

/// Identifies this placeholder.
pub fn placeholder() -> (text: &'static str)
    ensures
        text@ == "meshly-core-client-gui: placeholder; GUI not implemented in v1"@,
{
    "meshly-core-client-gui: placeholder; GUI not implemented in v1"
}

} // verus!
