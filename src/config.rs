//! Fixed settings of a deployment.
use vstd::prelude::*;

use crate::text::{decimal, int_text};

verus! {

/// How many replicas take part.
pub const BASE_REP_NUM: usize = 3;

/// The port of the controller.
pub const TRA_PORT: u16 = 8080;

/// The home prefix of replica `id` below the directory `tmp_path`.
pub fn sync_folder_prefix(tmp_path: &str, id: i32) -> (r: String)
    ensures
        r@ == tmp_path@ + "replica-"@ + decimal(id as int),
{
    let mut r = String::from_str(tmp_path);
    r.append("replica-");
    r.append(int_text(id).as_str());
    r
}

} // verus!
