use vstd::prelude::*;
use vstd::string::{StrSliceExecFns, StringSliceAdditionalSpecFns};

verus! {

/// The bytes to hand one by one to the firmware console for formatted
/// text: its UTF-8 bytes, in order.
pub fn print(text: &str) -> (bytes: Vec<u8>)
    ensures
        bytes@ == text.spec_bytes(),
{
    text.as_bytes_vec()
}

} // verus!
