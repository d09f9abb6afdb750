//! The checks on the command-line paths.

use crate::text::{owned, push_str};
use vstd::prelude::*;

verus! {

/// Whether a path is absolute: on Unix, whether it starts at the root `/`.
pub open spec fn is_absolute(s: Seq<char>) -> bool {
    s.len() > 0 && s[0] == '/'
}

fn path_error(label: &str, s: &str) -> (r: String)
    ensures
        r@ == label@ + s@,
{
    let mut t = owned(label);
    push_str(&mut t, s);
    t
}

/// Checks the input path: it must be absolute, and the file must exist
/// (`exists` says whether it does). The path itself on success.
pub fn validate_input(s: &str, exists: bool) -> (r: Result<String, String>)
    ensures
        !is_absolute(s@) ==> (r matches Err(t) && t@ == "path must be absolute: "@ + s@),
        is_absolute(s@) && !exists ==> (r matches Err(t) && t@ == "file doesnt exist: "@ + s@),
        is_absolute(s@) && exists ==> (r matches Ok(p) && p@ == s@),
{
    if s.is_empty() || s.get_char(0) != '/' {
        return Err(path_error("path must be absolute: ", s));
    }
    if !exists {
        return Err(path_error("file doesnt exist: ", s));
    }
    Ok(owned(s))
}

/// Checks the output path: it must be absolute. The path itself on success.
pub fn validate_output(s: &str) -> (r: Result<String, String>)
    ensures
        !is_absolute(s@) ==> (r matches Err(t) && t@ == "path must be absolute: "@ + s@),
        is_absolute(s@) ==> (r matches Ok(p) && p@ == s@),
{
    if s.is_empty() || s.get_char(0) != '/' {
        return Err(path_error("path must be absolute: ", s));
    }
    Ok(owned(s))
}

} // verus!
