use vstd::prelude::*;
use vstd::utf8::{decode_utf8, valid_utf8};
use crate::encoding::{decode_utf8_lossy, utf8_lossy};

verus! {

/// The text of what a shell command on the device printed. Valid UTF-8 is
/// decoded as it stands; each invalid sequence becomes U+FFFD.
pub fn shell_str(output: &[u8]) -> (s: String)
    ensures
        s@ == utf8_lossy(output@),
        valid_utf8(output@) ==> s@ == decode_utf8(output@),
{
    decode_utf8_lossy(output)
}

} // verus!
