use vstd::prelude::*;

use crate::paths::{extension, str_eq};

verus! {

/// A path whose extension marks a plugin binary.
pub open spec fn is_vst_path(path: Seq<char>) -> bool {
    crate::paths::extension_of(path) == Some(seq!['v', 's', 't', '3'])
        || crate::paths::extension_of(path) == Some(seq!['d', 'l', 'l'])
}

/// Whether `path` could name a plugin binary, by its extension.
pub fn is_path_vst(path: &str) -> (r: bool)
    ensures
        r == is_vst_path(path@),
{
    match extension(path) {
        Some(e) => {
            proof {
                reveal_strlit("vst3");
                reveal_strlit("dll");
                assert("vst3"@ =~= seq!['v', 's', 't', '3']);
                assert("dll"@ =~= seq!['d', 'l', 'l']);
            }
            str_eq(e.as_str(), "vst3") || str_eq(e.as_str(), "dll")
        },
        None => false,
    }
}

} // verus!
