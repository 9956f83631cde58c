//! Releasing the allocations of a working directory.

use vstd::prelude::*;

use crate::text;
use crate::text::decimal_text;

verus! {

/// The working directory whose rows are deleted: the canonical path, else the
/// path as it was given, for a directory that is gone.
pub fn release_target(canonical: Option<String>, given: String) -> (r: String)
    ensures
        r@ == (match text::opt_text(canonical) {
            Some(path) => path,
            None => given@,
        }),
{
    match canonical {
        Some(path) => path,
        None => given,
    }
}

/// The line that is printed of a release.
pub fn release_line(deleted: usize, dir: &str) -> (r: String)
    ensures
        r@ == "Released "@ + text::decimal(deleted as nat) + " allocation(s) for "@ + dir@,
{
    let mut out = "Released ".to_owned();
    out.append(decimal_text(deleted as u64).as_str());
    out.append(" allocation(s) for ");
    out.append(dir);
    out
}

} // verus!
