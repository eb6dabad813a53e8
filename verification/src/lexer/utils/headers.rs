//! The header that precedes the code of a source file.

use vstd::prelude::*;

verus! {

/// The byte-order mark of UTF-8.
pub open spec fn starts_with_bom(source: Seq<u8>) -> bool {
    source.len() >= 3 && source[0] == 0xEF && source[1] == 0xBB && source[2] == 0xBF
}

/// The code of a source: its bytes after the byte-order mark, if any.
pub open spec fn without_bom(source: Seq<u8>) -> Seq<u8> {
    if starts_with_bom(source) {
        source.subrange(3, source.len() as int)
    } else {
        source
    }
}

/// The length of the header to skip: 3 when the source starts with a
/// byte-order mark, 0 otherwise.
pub fn get_header_len(source: &[u8]) -> (r: usize)
    ensures
        r == (if starts_with_bom(source@) {
            3usize
        } else {
            0usize
        }),
{
    let mut i: usize = 0;
    let len: usize = source.len();
    if len >= 3 && source[0] == 0xEF && source[1] == 0xBB && source[2] == 0xBF {
        i = 3;
    }
    i
}

} // verus!
