pub mod cache;
pub mod content;
pub mod extract;
pub mod laws;
pub mod signature;
pub mod text;
pub mod tree;
pub mod walker;

use vstd::prelude::*;

verus! {

/// Greeting used by the host application's smoke check.
pub fn hello_world() -> (r: String)
    ensures
        r@ == "Hello, world!"@,
{
    "Hello, world!".to_string()
}

} // verus!
