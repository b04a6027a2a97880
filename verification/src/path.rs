//! Volume path validation.

use vstd::prelude::*;

verus! {

/// Validate a volume path: it must be non-empty.
pub fn validate_volume_path(path: &str) -> (r: Result<(), String>)
    ensures
        r is Ok <==> path@.len() > 0,
{
    if path.is_empty() {
        Err(String::from_str("Path cannot be empty"))
    } else {
        Ok(())
    }
}

} // verus!
