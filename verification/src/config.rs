//! Configuration decisions: what the sink URI's parts mean.

use vstd::prelude::*;
use vstd::string::StrSliceExecFns;

verus! {

/// The database name a sink URI's path selects: the path without its
/// leading slash, or `default` when nothing follows the slash or the
/// path has no leading slash.
pub open spec fn spec_database_name(path: Seq<char>) -> Seq<char> {
    if path.len() >= 2 && path[0] == '/' {
        path.subrange(1, path.len() as int)
    } else {
        "default"@
    }
}

/// Pick the database name out of a sink URI's path component.
pub fn database_name(path: &str) -> (r: String)
    ensures
        r@ == spec_database_name(path@),
{
    let n = path.unicode_len();
    if n >= 2 && path.get_char(0) == '/' {
        path.substring_char(1, n).to_owned()
    } else {
        "default".to_owned()
    }
}

} // verus!
