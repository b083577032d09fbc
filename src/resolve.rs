use vstd::prelude::*;
use vstd::string::*;

use crate::args::Args;
use crate::state::State;
use crate::text::opt_view;

verus! {

/// The body of an answer to a request for the endpoint.
#[derive(Debug)]
pub struct URLResponse {
    pub endpoint: String,
}

/// Why a request for the endpoint cannot be answered.
#[derive(Clone, Copy, Debug, PartialEq, Eq, Structural)]
pub enum ResolveError {
    /// No endpoint was ever resolved and no alternate URL is configured.
    NoEndpoint,
}

/// A URL without one trailing `/`.
pub open spec fn strip_trailing_slash(s: Seq<char>) -> Seq<char> {
    if s.len() > 0 && s.last() == '/' {
        s.drop_last()
    } else {
        s
    }
}

/// The endpoint to serve: the resolved one, else the alternate URL.
pub open spec fn chosen_endpoint(cached: Option<Seq<char>>, alternate: Option<Seq<char>>) -> Option<
    Seq<char>,
> {
    match cached {
        Some(u) => Some(u),
        None => alternate,
    }
}

/// Removes exactly one trailing path separator, if there is one.
pub fn normalize_url(url: &str) -> (r: String)
    ensures
        r@ == strip_trailing_slash(url@),
{
    let n = url.unicode_len();
    if n > 0 && url.get_char(n - 1) == '/' {
        url.substring_char(0, n - 1).to_owned()
    } else {
        url.to_owned()
    }
}

/// The endpoint to serve: the resolved endpoint if the cache holds one,
/// else the alternate URL, without a trailing `/`; an error where neither exists.
pub fn resolve_endpoint(state: &State, args: &Args) -> (r: Result<URLResponse, ResolveError>)
    ensures
        match chosen_endpoint(opt_view(state.my_url), opt_view(args.alternate_url)) {
            Some(u) => r matches Ok(resp) && resp.endpoint@ == strip_trailing_slash(u),
            None => r == Err::<URLResponse, ResolveError>(ResolveError::NoEndpoint),
        },
{
    let url = match &state.my_url {
        Some(u) => u,
        None => match &args.alternate_url {
            Some(a) => a,
            None => {
                return Err(ResolveError::NoEndpoint);
            },
        },
    };
    Ok(URLResponse { endpoint: normalize_url(url.as_str()) })
}

} // verus!
