use vstd::prelude::*;

verus! {

/// The code that `rltk::to_cp437` gives for a character: its place in code
/// page 437, or 0 where the code page does not have it.
pub uninterp spec fn cp437(c: char) -> u16;

/// `rltk::to_cp437` looks a character up in a fixed table. It reads nothing
/// but its argument, so its result is `cp437` of that argument.
pub assume_specification[ rltk::to_cp437 ](c: char) -> (code: u16)
    ensures
        code == cp437(c),
;

} // verus!
