use vstd::prelude::*;
use vstd::string::*;

verus! {

/// The service's own description.
pub struct InfoResponse {
    pub version: String,
}

impl InfoResponse {
    /// The description of this release.
    pub fn new() -> (r: InfoResponse)
        ensures
            r.version@ == seq!['0', '.', '2', '.', '0'],
    {
        let version = String::from_str("0.2.0");
        proof {
            reveal_strlit("0.2.0");
            assert("0.2.0"@ =~= seq!['0', '.', '2', '.', '0']);
        }
        InfoResponse { version }
    }
}

} // verus!
