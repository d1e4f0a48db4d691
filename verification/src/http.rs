//! The HTTP connection pool of the outside `reqwest` crate, as the client
//! library holds it.
use vstd::prelude::*;

verus! {

#[verifier::external_type_specification]
#[verifier::external_body]
pub struct ExHttpClient(reqwest::Client);

/// A connection pool together with the settings it was built with.
#[derive(Clone)]
pub struct HttpPool {
    client: reqwest::Client,
    user_agent: String,
    timeout_secs: u64,
}

/// The settings of a connection pool.
pub struct HttpPoolView {
    pub user_agent: Seq<char>,
    pub timeout_secs: u64,
}

impl View for HttpPool {
    type V = HttpPoolView;

    closed spec fn view(&self) -> HttpPoolView {
        HttpPoolView { user_agent: self.user_agent@, timeout_secs: self.timeout_secs }
    }
}

impl HttpPool {
    /// The pool requests are sent through.
    pub fn client(&self) -> &reqwest::Client {
        &self.client
    }

    /// The `User-Agent` header every request carries.
    pub fn user_agent(&self) -> (r: &str)
        ensures
            r@ == self@.user_agent,
    {
        self.user_agent.as_str()
    }

    /// Seconds a request may take before it is abandoned.
    pub fn timeout_secs(&self) -> (r: u64)
        ensures
            r == self@.timeout_secs,
    {
        self.timeout_secs
    }
}

/// `reqwest::ClientBuilder` with `user_agent` and `timeout`, then `build`.
/// The pool is built with exactly the user agent and timeout given (its
/// record keeps them). Whether building succeeds depends on the machine
/// (TLS back end, resolver), so success is not stated; an error comes back
/// as its message.
#[verifier::external_body]
pub(crate) fn build_http_client(user_agent: &str, timeout_secs: u64) -> (r: Result<HttpPool, String>)
    ensures
        r matches Ok(p) ==> p@.user_agent == user_agent@ && p@.timeout_secs == timeout_secs,
{
    match reqwest::Client::builder()
        .user_agent(user_agent)
        .timeout(std::time::Duration::from_secs(timeout_secs))
        .build()
    {
        Ok(client) => Ok(HttpPool { client, user_agent: user_agent.to_string(), timeout_secs }),
        Err(e) => Err(e.to_string()),
    }
}

/// `StatusCode::is_success`: the status lies in 200..=299 (documented as
/// "within 200-299"). `StatusCode::from_u16` accepts exactly 100..=999.
#[verifier::external_body]
pub(crate) fn status_is_success(status: u16) -> (r: bool)
    requires
        100 <= status <= 999,
    ensures
        r == (200 <= status <= 299),
{
    match reqwest::StatusCode::from_u16(status) {
        Ok(code) => code.is_success(),
        Err(_) => false,
    }
}

/// The IANA reason phrase that `StatusCode::canonical_reason` gives a
/// status code (a table of some sixty entries, not restated here).
pub uninterp spec fn spec_canonical_reason(status: u16) -> Option<Seq<char>>;

/// `StatusCode::canonical_reason`: the standard reason phrase of a status,
/// if it has one; the phrase table is the named function
/// `spec_canonical_reason` of the status.
#[verifier::external_body]
pub(crate) fn canonical_reason(status: u16) -> (r: Option<&'static str>)
    requires
        100 <= status <= 999,
    ensures
        match r {
            Some(t) => spec_canonical_reason(status) == Some(t@),
            None => spec_canonical_reason(status) is None,
        },
{
    match reqwest::StatusCode::from_u16(status) {
        Ok(code) => code.canonical_reason(),
        Err(_) => None,
    }
}

/// `Clone` for `reqwest::Client`: another handle to the same connection
/// pool. The pool is opaque here, so nothing is stated of the copy.
pub assume_specification[ <reqwest::Client as core::clone::Clone>::clone ](
    c: &reqwest::Client,
) -> reqwest::Client;

} // verus!
