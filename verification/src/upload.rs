//! Naming of uploaded files: the public path under which a stored file is
//! served.

use vstd::prelude::*;
use vstd::string::StringExecFns;

verus! {

/// The public URL path of a stored upload: the storage prefix, then the
/// fresh unique name, an underscore, and the original file name.
pub fn storage_public_url(unique_name: &str, file_name: &str) -> (r: String)
    ensures
        r@ == "/storages/"@ + unique_name@ + "_"@ + file_name@,
{
    let mut r = String::from_str("/storages/");
    r.append(unique_name);
    r.append("_");
    r.append(file_name);
    r
}

} // verus!
