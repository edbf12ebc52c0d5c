//! Specifications of standard-library functions that the library calls,
//! believed rather than proved.
use vstd::prelude::*;

verus! {

/// `String::push` appends one character to the end of the string (as its
/// documentation states); nothing else changes.
pub assume_specification[ std::string::String::push ](s: &mut std::string::String, ch: char)
    ensures
        final(s)@ == old(s)@.push(ch),
;

} // verus!
