//! The input interface: one line of text at a time, from wherever the caller
//! gets it. Nothing is assumed of the text that comes back.

use vstd::prelude::*;

verus! {

pub trait Input: Sized {
    fn read_line(&mut self) -> String;
}

} // verus!
