//! The guest component's greeting, built around the random word it asked the host for.
use vstd::prelude::*;
use crate::text::{dec, push_decimal};

verus! {

/// The guest component.
pub struct Component;

impl Component {
    /// `Hello, World! ` followed by `n` in decimal; `n` is the word that the
    /// guest got from `wasi:random`.
    pub fn hello_world(n: u64) -> (r: String)
        ensures
            r@ == "Hello, World! "@ + dec(n as nat),
    {
        let mut s = String::from_str("Hello, World! ");
        push_decimal(&mut s, n);
        s
    }
}

} // verus!
