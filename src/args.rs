use vstd::prelude::*;

verus! {

/// The watchdog's configuration, fixed at startup.
pub struct Args {
    /// Path to the flow descriptor that the tool deploys when no instance is live;
    /// without it the alternate URL is served.
    pub flow_yml_path: Option<String>,
    /// The project whose instance is kept online.
    pub project_name: String,
    /// The endpoint to serve when no instance is known (a URL's serialization).
    pub alternate_url: Option<String>,
    /// Port to listen on.
    pub port: u16,
    /// Address to listen on.
    pub host: String,
    /// Seconds to wait before asking the tool again.
    pub check_delay: u16,
}

/// What `char::is_alphanumeric` says of a character.
pub uninterp spec fn alphanumeric(c: char) -> bool;

/// Relies on `char::is_alphanumeric`, which depends on the character alone.
#[verifier::external_body]
fn is_alphanumeric(c: char) -> (r: bool)
    ensures
        r == alphanumeric(c),
{
    c.is_alphanumeric()
}

/// Whether every character of a project name is alphanumeric.
pub open spec fn valid_project_name(name: Seq<char>) -> bool {
    forall|i: int| 0 <= i < name.len() ==> alphanumeric(#[trigger] name[i])
}

/// Whether `name` may serve as a project name: alphanumeric characters only.
pub fn is_valid_project_name(name: &str) -> (r: bool)
    ensures
        r == valid_project_name(name@),
{
    let mut ok = true;
    for c in it: name.chars()
        invariant
            ok == (forall|i: int| 0 <= i < it.index() ==> alphanumeric(#[trigger] it.seq()[i])),
    {
        ok = ok && is_alphanumeric(c);
    }
    ok
}

} // verus!
