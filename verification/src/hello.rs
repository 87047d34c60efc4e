//! The greeting exported to the browser.
use vstd::prelude::*;
use vstd::string::*;

verus! {

broadcast use vstd::string::group_string_axioms;

/// The greeting: `"Hello"`.
pub fn hello_from_rust() -> (s: String)
    ensures
        s@ == "Hello"@,
{
    "Hello".to_string()
}

} // verus!
