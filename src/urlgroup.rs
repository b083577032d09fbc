use vstd::prelude::*;

use crate::args::Args;

verus! {

/// A configuration together with the endpoint resolved for it.
pub struct JCloudURLGroup {
    pub args: Args,
    pub my_url: Option<String>,
}

impl JCloudURLGroup {
    /// A group for `args` that holds no endpoint yet.
    pub fn new(args: Args) -> (r: JCloudURLGroup)
        ensures
            r.args == args,
            r.my_url is None,
    {
        JCloudURLGroup { args, my_url: None }
    }
}

} // verus!
