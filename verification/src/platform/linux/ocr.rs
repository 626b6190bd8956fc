//! Reading text out of a pasted image: Linux has no in-box OCR engine.

use vstd::prelude::*;

use crate::types::Recognized;

verus! {

/// No OCR engine here: images stay pending and the caller stops retrying.
pub fn recognize_text(_bytes: &[u8]) -> (r: Recognized)
    ensures
        r is Unavailable,
{
    Recognized::Unavailable
}

} // verus!
