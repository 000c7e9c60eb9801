//! The minimal ANSI control sequences the service emits, and a helper for
//! appending literal text to an outgoing byte buffer.

use vstd::prelude::*;
use vstd::string::StringSliceAdditionalSpecFns;
use crate::util::push_all;

verus! {

/// Erase the current line and return the carriage.
pub open spec fn clear_line() -> Seq<u8> {
    "\x1b[2K\r".spec_bytes()
}

/// Erase the whole screen and home the cursor.
pub open spec fn clear_screen() -> Seq<u8> {
    "\x1b[2J\x1b[H".spec_bytes()
}

/// Step left and delete one character.
pub open spec fn erase_char() -> Seq<u8> {
    "\x1b[D\x1b[P".spec_bytes()
}

/// Move to the previous line and erase it; repeated to clear an overlay.
pub open spec fn clear_prev_line() -> Seq<u8> {
    "\x1b[1F\x1b[2K".spec_bytes()
}

/// Begin bold text.
pub open spec fn bold() -> Seq<u8> {
    "\x1b[1m".spec_bytes()
}

/// Begin italic text.
pub open spec fn italic() -> Seq<u8> {
    "\x1b[3m".spec_bytes()
}

/// Begin bright-black text.
pub open spec fn grey() -> Seq<u8> {
    "\x1b[90m".spec_bytes()
}

/// Begin red text.
pub open spec fn red() -> Seq<u8> {
    "\x1b[31m".spec_bytes()
}

/// Reset all text attributes.
pub open spec fn reset() -> Seq<u8> {
    "\x1b[0m".spec_bytes()
}

/// Appends the UTF-8 bytes of `s` to `out`.
pub fn push_str(out: &mut Vec<u8>, s: &str)
    ensures
        final(out)@ == old(out)@ + s.spec_bytes(),
{
    push_all(out, s.as_bytes());
}

} // verus!
