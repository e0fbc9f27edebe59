//! The relative-path helper: the path of a file expressed relative to the
//! session root.

use vstd::prelude::*;
use crate::paths::{clean_path, diff_paths_str, is_clean_abs, is_rooted, spec_clean, spec_diff};

verus! {

/// The cleaned path of `file`, expressed relative to the root directory.
pub open spec fn spec_relative_path(file: Seq<char>, root: Seq<char>) -> Seq<char> {
    spec_diff(spec_clean(file), root)
}

/// The path of `file_path` relative to `root`: `file_path` is cleaned, the
/// common prefix with `root` dropped, and one `..` emitted per remaining
/// root segment.
pub fn relative_path(file_path: &str, root: &str) -> (r: String)
    requires
        is_rooted(file_path@),
        is_clean_abs(root@),
    ensures
        r@ == spec_relative_path(file_path@, root@),
{
    let cleaned = clean_path(file_path);
    match diff_paths_str(cleaned.as_str(), root) {
        Some(d) => d,
        None => {
            proof {
                assert(false);
            }
            String::new()
        },
    }
}

} // verus!
