//! Where the backing file lives, relative to the home directory the caller
//! found.

use vstd::prelude::*;
use crate::bytes::push_all;

verus! {

/// The path of the backing file under the given home directory: the
/// application's dot-directory and `data.json` inside it.
pub fn get_data_file_path(home: &Vec<u8>) -> (r: Vec<u8>)
    ensures
        r@ == home@ + crate::lit::data_file_suffix(),
{
    let mut r = crate::bytes::copy_bytes(home);
    push_all(&mut r, &crate::lit::data_file_suffix_vec());
    r
}

} // verus!
