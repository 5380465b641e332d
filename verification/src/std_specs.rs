//! Specifications assumed of functions of the standard library.

use vstd::prelude::*;

verus! {

/// `String::push` appends the given character to the end of the string: the
/// character sequence of the string afterwards is the one before with `ch`
/// added at its end.
pub assume_specification[ String::push ](s: &mut String, ch: char)
    ensures
        final(s)@ == old(s)@.push(ch),
;

} // verus!
