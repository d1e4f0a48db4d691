//! The backend client: its base URL, the request paths of the API, and the
//! classification of non-2xx responses.
use vstd::prelude::*;

use crate::error::{ClientError, ClientErrorView, Error, ErrorView};
use crate::text::{decimal, push_signed_decimal, push_str, signed_decimal, chars_of, string_of_range};
use crate::wire::ApiError;
use crate::http::{build_http_client, canonical_reason, spec_canonical_reason, status_is_success, HttpPool};

verus! {

/// Backend address used when nothing else is configured.
pub const DEFAULT_BASE_URL: &'static str = "http://localhost:6969";

/// Value of the `User-Agent` header the client sends.
pub const USER_AGENT: &'static str = "co_worker/0.1.0";

/// Seconds a request may take before it is abandoned (inference is slow).
pub const REQUEST_TIMEOUT_SECS: u64 = 600;

// ----- base URL -----

/// `s` without its trailing `/` characters (`str::trim_end_matches('/')`).
pub open spec fn trim_trailing_slashes(s: Seq<char>) -> Seq<char>
    decreases s.len(),
{
    if s.len() > 0 && s.last() == '/' {
        trim_trailing_slashes(s.drop_last())
    } else {
        s
    }
}

/// Removes every trailing `/` from a base URL.
pub fn normalize_base_url(s: &str) -> (r: String)
    ensures
        r@ == trim_trailing_slashes(s@),
{
    let v = chars_of(s);
    let mut end = v.len();
    assert(v@.take(end as int) =~= v@);
    while end > 0 && v[end - 1] == '/'
        invariant
            v@ == s@,
            end <= v@.len(),
            trim_trailing_slashes(s@) == trim_trailing_slashes(v@.take(end as int)),
        decreases end,
    {
        assert(v@.take(end as int).drop_last() =~= v@.take(end - 1));
        end = end - 1;
    }
    assert(v@.subrange(0, end as int) =~= v@.take(end as int));
    string_of_range(&v, 0, end)
}

/// Trimming removes trailing slashes and nothing else: the result begins
/// `s`, and what follows it in `s` is all slashes.
pub proof fn trimming_removes_only_trailing_slashes(s: Seq<char>)
    ensures
        trim_trailing_slashes(s).len() <= s.len(),
        s.take(trim_trailing_slashes(s).len() as int) == trim_trailing_slashes(s),
        forall|i: int|
            trim_trailing_slashes(s).len() <= i < s.len() ==> #[trigger] s[i] == '/',
    decreases s.len(),
{
    if s.len() > 0 && s.last() == '/' {
        let d = s.drop_last();
        trimming_removes_only_trailing_slashes(d);
        let t = trim_trailing_slashes(d);
        assert(s.take(t.len() as int) =~= d.take(t.len() as int));
        assert forall|i: int| t.len() <= i < s.len() implies #[trigger] s[i] == '/' by {
            if i < d.len() {
                assert(s[i] == d[i]);
            }
        }
    } else {
        assert(s.take(s.len() as int) =~= s);
    }
}

/// Trimming the trailing slashes twice changes nothing more, and the result
/// never ends with a slash.
pub proof fn trim_trailing_slashes_idempotent(s: Seq<char>)
    ensures
        trim_trailing_slashes(trim_trailing_slashes(s)) == trim_trailing_slashes(s),
        trim_trailing_slashes(s).len() == 0 || trim_trailing_slashes(s).last() != '/',
    decreases s.len(),
{
    if s.len() > 0 && s.last() == '/' {
        trim_trailing_slashes_idempotent(s.drop_last());
    }
}

// ----- the HTTP connection pool -----

/// Client of one backend: a connection pool and the base URL that every
/// request path is appended to.
#[derive(Clone)]
pub struct ApiClient {
    pool: HttpPool,
    base: String,
}

/// What a client is configured with.
pub struct ApiClientView {
    /// The base URL.
    pub base: Seq<char>,
    /// The `User-Agent` header of its requests.
    pub user_agent: Seq<char>,
    /// Seconds a request may take.
    pub timeout_secs: u64,
}

impl View for ApiClient {
    type V = ApiClientView;

    closed spec fn view(&self) -> ApiClientView {
        ApiClientView {
            base: self.base@,
            user_agent: self.pool@.user_agent,
            timeout_secs: self.pool@.timeout_secs,
        }
    }
}

impl ApiClient {
    /// A client for `base_url` (e.g. `http://localhost:6969`), with its
    /// trailing slashes removed, sending `co_worker/0.1.0` as its user agent
    /// and abandoning a request after 600 seconds. Fails, as
    /// `ClientError::Http`, only when the HTTP stack cannot be set up.
    pub fn new(base_url: &str) -> (r: Result<ApiClient, ClientError>)
        ensures
            r matches Ok(c) ==> {
                &&& c@.base == trim_trailing_slashes(base_url@)
                &&& c@.user_agent == USER_AGENT@
                &&& c@.timeout_secs == REQUEST_TIMEOUT_SECS
            },
            r matches Err(e) ==> e is Http,
    {
        match build_http_client(USER_AGENT, REQUEST_TIMEOUT_SECS) {
            Ok(pool) => Ok(ApiClient { pool, base: normalize_base_url(base_url) }),
            Err(m) => Err(ClientError::Http(m)),
        }
    }

    /// The base URL requests go to.
    pub fn base_url(&self) -> (r: &str)
        ensures
            r@ == self@.base,
    {
        self.base.as_str()
    }

    /// The `User-Agent` header of the client's requests.
    pub fn user_agent(&self) -> (r: &str)
        ensures
            r@ == self@.user_agent,
    {
        self.pool.user_agent()
    }

    /// Seconds a request may take before it is abandoned.
    pub fn timeout_secs(&self) -> (r: u64)
        ensures
            r == self@.timeout_secs,
    {
        self.pool.timeout_secs()
    }

    /// The connection pool requests are sent through.
    pub fn http(&self) -> &reqwest::Client {
        self.pool.client()
    }

    /// The full URL of an API path.
    pub fn url(&self, path: &str) -> (r: String)
        ensures
            r@ == self@.base + path@,
    {
        let mut r = self.base.clone();
        push_str(&mut r, path);
        r
    }
}

/// The client a plugin command uses for `base_url` (configured as
/// `ApiClient::new` configures it): an unusable URL (the HTTP stack could
/// not be set up for it) is reported as `InvalidUrl`.
pub fn plugin_client(base_url: &str) -> (r: Result<ApiClient, Error>)
    ensures
        r matches Ok(c) ==> {
            &&& c@.base == trim_trailing_slashes(base_url@)
            &&& c@.user_agent == USER_AGENT@
            &&& c@.timeout_secs == REQUEST_TIMEOUT_SECS
        },
        r matches Err(e) ==> e@ == ErrorView::InvalidUrl(base_url@),
{
    match ApiClient::new(base_url) {
        Ok(c) => Ok(c),
        Err(_) => Err(Error::InvalidUrl(base_url.to_owned())),
    }
}

// ----- identifiers -----

/// The hexadecimal digit for `d < 16`, lower case.
pub open spec fn hex_digit(d: nat) -> char {
    if d < 10 {
        crate::text::digit_char(d)
    } else if d == 10 {
        'a'
    } else if d == 11 {
        'b'
    } else if d == 12 {
        'c'
    } else if d == 13 {
        'd'
    } else if d == 14 {
        'e'
    } else {
        'f'
    }
}

/// Hex digit `h` (0 = most significant) of a 128-bit value.
pub open spec fn nibble(v: u128, h: int) -> nat {
    ((v as nat) / (vstd::arithmetic::power::pow(16, (31 - h) as nat) as nat)) % 16
}

/// Which hex digit is shown at position `i` of the hyphenated form.
pub open spec fn hyphenated_digit_index(i: int) -> int {
    if i < 8 {
        i
    } else if i < 13 {
        i - 1
    } else if i < 18 {
        i - 2
    } else if i < 23 {
        i - 3
    } else {
        i - 4
    }
}

/// The hyphenated lower-case form of a UUID with big-endian value `v`:
/// 32 hex digits grouped 8-4-4-4-12.
pub open spec fn uuid_hyphenated(v: u128) -> Seq<char> {
    Seq::new(
        36,
        |i: int|
            if i == 8 || i == 13 || i == 18 || i == 23 {
                '-'
            } else {
                hex_digit(nibble(v, hyphenated_digit_index(i)))
            },
    )
}

/// `uuid::Uuid::from_u128(v).hyphenated().to_string()`: the UUID whose
/// bytes are `v` in big-endian order, written in its hyphenated lower-case
/// form (as the crate's documentation shows for `from_u128`).
#[verifier::external_body]
fn uuid_text(v: u128) -> (s: String)
    ensures
        s@ == uuid_hyphenated(v),
{
    uuid::Uuid::from_u128(v).hyphenated().to_string()
}

// ----- request paths -----

/// `GET`: liveness and the loaded model.
pub const HEALTH_PATH: &'static str = "/health";
/// `GET`: model files present on the backend.
pub const MODELS_PATH: &'static str = "/v1/models";
/// `GET`: presets and local models, tagged present/loaded.
pub const MODEL_CATALOG_PATH: &'static str = "/v1/models/catalog";
/// `POST`: hot-swap the active model.
pub const MODEL_LOAD_PATH: &'static str = "/v1/models/load";
/// `POST`: create a session.
pub const SESSIONS_PATH: &'static str = "/v1/sessions";
/// `POST`: sticky-session chat.
pub const CHAT_PATH: &'static str = "/v1/chat";
/// `GET` / `POST`: memories.
pub const MEMORIES_PATH: &'static str = "/v1/memories";

/// `/v1/sessions?limit={limit}&offset={offset}`.
pub open spec fn sessions_page_path_of(limit: i64, offset: i64) -> Seq<char> {
    "/v1/sessions?limit="@ + signed_decimal(limit as int) + "&offset="@ + signed_decimal(
        offset as int,
    )
}

/// The path listing one page of sessions.
pub fn sessions_page_path(limit: i64, offset: i64) -> (r: String)
    ensures
        r@ == sessions_page_path_of(limit, offset),
{
    let mut r = String::new();
    push_str(&mut r, "/v1/sessions?limit=");
    push_signed_decimal(&mut r, limit);
    push_str(&mut r, "&offset=");
    push_signed_decimal(&mut r, offset);
    r
}

/// `/v1/sessions/{id}`: one session (`GET`, `PATCH`, `DELETE`).
pub fn session_path(id: u128) -> (r: String)
    ensures
        r@ == "/v1/sessions/"@ + uuid_hyphenated(id),
{
    let mut r = String::new();
    push_str(&mut r, "/v1/sessions/");
    push_str(&mut r, uuid_text(id).as_str());
    r
}

/// `/v1/sessions/{id}/debug`: the prompt the backend would build.
pub fn session_debug_path(id: u128) -> (r: String)
    ensures
        r@ == "/v1/sessions/"@ + uuid_hyphenated(id) + "/debug"@,
{
    let mut r = session_path(id);
    push_str(&mut r, "/debug");
    r
}

/// `/v1/sessions/{id}/messages`: post a message to a session.
pub fn session_messages_path(id: u128) -> (r: String)
    ensures
        r@ == "/v1/sessions/"@ + uuid_hyphenated(id) + "/messages"@,
{
    let mut r = session_path(id);
    push_str(&mut r, "/messages");
    r
}

/// `/v1/memories/{id}`: one memory (`DELETE`).
pub fn memory_path(id: u128) -> (r: String)
    ensures
        r@ == "/v1/memories/"@ + uuid_hyphenated(id),
{
    let mut r = String::new();
    push_str(&mut r, "/v1/memories/");
    push_str(&mut r, uuid_text(id).as_str());
    r
}

// ----- responses -----

/// The code and message of a parsed error body.
pub open spec fn api_error_parts(e: Option<ApiError>) -> Option<(Seq<char>, Seq<char>)> {
    match e {
        Some(err) => Some((err.error.code@, err.error.message@)),
        None => None,
    }
}

/// What an unstructured error response shows: its body, or, when the body
/// is empty, the status's reason phrase (`error` when it has none).
pub open spec fn error_body(status: u16, body: Seq<char>) -> Seq<char> {
    if body.len() == 0 {
        match spec_canonical_reason(status) {
            Some(r) => r,
            None => "error"@,
        }
    } else {
        body
    }
}

/// How a response with `status` from `url` is classified: a 2xx status
/// passes; otherwise the structured error body (`parsed`, when the body
/// parsed as one) becomes `Api`, and anything else `UnknownStatus`.
pub open spec fn status_outcome(
    status: u16,
    url: Seq<char>,
    body: Seq<char>,
    parsed: Option<(Seq<char>, Seq<char>)>,
) -> Result<(), ClientErrorView> {
    if 200 <= status <= 299 {
        Ok(())
    } else {
        match parsed {
            Some(p) => Err(
                ClientErrorView::Api { status: status, url: url, code: p.0, message: p.1 },
            ),
            None => Err(
                ClientErrorView::UnknownStatus { status: status, url: url, body: error_body(status, body) },
            ),
        }
    }
}

fn error_body_text(status: u16, body: &str) -> (r: String)
    requires
        100 <= status <= 999,
    ensures
        r@ == error_body(status, body@),
{
    if body.is_empty() {
        match canonical_reason(status) {
            Some(reason) => reason.to_owned(),
            None => "error".to_owned(),
        }
    } else {
        body.to_owned()
    }
}

/// Checks a response's status. `body` is the response text (read only for
/// error statuses) and `api_error` the body parsed as the backend's error
/// shape, when it parses as one.
pub fn check_status(status: u16, url: &str, body: &str, api_error: Option<ApiError>) -> (r: Result<
    (),
    ClientError,
>)
    requires
        100 <= status <= 999,
    ensures
        match status_outcome(status, url@, body@, api_error_parts(api_error)) {
            Ok(_) => r is Ok,
            Err(e) => r matches Err(f) && f@ == e,
        },
{
    if status_is_success(status) {
        return Ok(());
    }
    match api_error {
        Some(err) => Err(
            ClientError::Api {
                status,
                url: url.to_owned(),
                code: err.error.code,
                message: err.error.message,
            },
        ),
        None => Err(
            ClientError::UnknownStatus {
                status,
                url: url.to_owned(),
                body: error_body_text(status, body),
            },
        ),
    }
}

/// The one-line message the command-line client reports for a response:
/// `None` for a 2xx status, else `{status} {url} ({code}): {message}` for a
/// structured error body and `{status} {url}: {body}` otherwise.
pub open spec fn status_message(
    status: u16,
    url: Seq<char>,
    body: Seq<char>,
    parsed: Option<(Seq<char>, Seq<char>)>,
) -> Option<Seq<char>> {
    if 200 <= status <= 299 {
        None
    } else {
        match parsed {
            Some(p) => Some(
                decimal(status as nat) + " "@ + url + " ("@ + p.0 + "): "@ + p.1,
            ),
            None => Some(decimal(status as nat) + " "@ + url + ": "@ + error_body(status, body)),
        }
    }
}

/// The command-line client's report of a response status (see `status_message`).
pub fn check_status_message(status: u16, url: &str, body: &str, api_error: Option<ApiError>) -> (r:
    Option<String>)
    requires
        100 <= status <= 999,
    ensures
        match status_message(status, url@, body@, api_error_parts(api_error)) {
            None => r is None,
            Some(m) => r matches Some(t) && t@ == m,
        },
{
    if status_is_success(status) {
        return None;
    }
    let mut m = String::new();
    crate::text::push_decimal(&mut m, status as u64);
    push_str(&mut m, " ");
    push_str(&mut m, url);
    match api_error {
        Some(err) => {
            push_str(&mut m, " (");
            push_str(&mut m, err.error.code.as_str());
            push_str(&mut m, "): ");
            push_str(&mut m, err.error.message.as_str());
        },
        None => {
            push_str(&mut m, ": ");
            push_str(&mut m, error_body_text(status, body).as_str());
        },
    }
    Some(m)
}

/// The message reports a `404 Not Found` (it starts with `404`).
pub open spec fn is_not_found_message(m: Seq<char>) -> bool {
    m.len() >= 3 && m[0] == '4' && m[1] == '0' && m[2] == '4'
}

/// Whether an error message reports `404 Not Found`, so callers can treat a
/// missing session as a non-fatal case.
pub fn is_not_found(message: &str) -> (r: bool)
    ensures
        r == is_not_found_message(message@),
{
    let v = chars_of(message);
    v.len() >= 3 && v[0] == '4' && v[1] == '0' && v[2] == '4'
}

/// Reading the page path back gives the page asked for: after
/// `/v1/sessions?limit=` comes the decimal of `limit`, then `&offset=`,
/// then the decimal of `offset`, and nothing else, whatever their signs.
pub proof fn page_path_reads_back(limit: i64, offset: i64)
    ensures
        ({
            let p = sessions_page_path_of(limit, offset);
            let a = "/v1/sessions?limit="@.len() as int;
            let b = a + signed_decimal(limit as int).len();
            let c = b + "&offset="@.len();
            &&& p.take(a) == "/v1/sessions?limit="@
            &&& p.subrange(a, b) == signed_decimal(limit as int)
            &&& p.subrange(b, c) == "&offset="@
            &&& p.skip(c) == signed_decimal(offset as int)
        }),
{
    let p = sessions_page_path_of(limit, offset);
    let a = "/v1/sessions?limit="@.len() as int;
    let b = a + signed_decimal(limit as int).len();
    let c = b + "&offset="@.len();
    assert(p.take(a) =~= "/v1/sessions?limit="@);
    assert(p.subrange(a, b) =~= signed_decimal(limit as int));
    assert(p.subrange(b, c) =~= "&offset="@);
    assert(p.skip(c) =~= signed_decimal(offset as int));
}

/// How a response is classified, for every status: any 2xx passes; any
/// other status with a structured error body becomes `Api` with that
/// body's code and message, whichever status it is; any other becomes
/// `UnknownStatus` with the body, or the reason phrase when the body is
/// empty.
pub proof fn responses_are_classified_by_status_and_body(
    status: u16,
    url: Seq<char>,
    body: Seq<char>,
    parsed: Option<(Seq<char>, Seq<char>)>,
)
    ensures
        200 <= status <= 299 ==> status_outcome(status, url, body, parsed) is Ok,
        !(200 <= status <= 299) && parsed is Some ==> status_outcome(status, url, body, parsed)
            == Err::<(), ClientErrorView>(
            ClientErrorView::Api {
                status,
                url,
                code: parsed.unwrap().0,
                message: parsed.unwrap().1,
            },
        ),
        !(200 <= status <= 299) && parsed is None && body.len() > 0 ==> status_outcome(
            status,
            url,
            body,
            parsed,
        ) == Err::<(), ClientErrorView>(ClientErrorView::UnknownStatus { status, url, body }),
        !(200 <= status <= 299) && parsed is None && body.len() == 0 ==> status_outcome(
            status,
            url,
            body,
            parsed,
        ) == Err::<(), ClientErrorView>(
            ClientErrorView::UnknownStatus {
                status,
                url,
                body: match spec_canonical_reason(status) {
                    Some(r) => r,
                    None => "error"@,
                },
            },
        ),
{
}

/// The command-line report of a failed response starts with the status
/// number and the URL, and ends with the backend's message (after its code
/// in parentheses) or with the body; a 2xx response gives no report.
pub proof fn failure_messages_name_status_url_and_reason(
    status: u16,
    url: Seq<char>,
    body: Seq<char>,
    parsed: Option<(Seq<char>, Seq<char>)>,
)
    ensures
        200 <= status <= 299 <==> status_message(status, url, body, parsed) is None,
        status_message(status, url, body, parsed) matches Some(m) ==> {
            let head = decimal(status as nat) + " "@ + url;
            &&& m.take(head.len() as int) == head
            &&& parsed matches Some(p) ==> m.skip(head.len() as int) == " ("@ + p.0 + "): "@ + p.1
            &&& parsed is None ==> m.skip(head.len() as int) == ": "@ + error_body(status, body)
        },
{
    if let Some(m) = status_message(status, url, body, parsed) {
        let head = decimal(status as nat) + " "@ + url;
        assert(m.take(head.len() as int) =~= head);
        if let Some(p) = parsed {
            assert(m.skip(head.len() as int) =~= " ("@ + p.0 + "): "@ + p.1);
        } else {
            assert(m.skip(head.len() as int) =~= ": "@ + error_body(status, body));
        }
    }
}

/// A failed response's message reports "not found" exactly when its status
/// is 404: the message starts with the three digits of the status.
pub proof fn not_found_message_iff_404(
    status: u16,
    url: Seq<char>,
    body: Seq<char>,
    parsed: Option<(Seq<char>, Seq<char>)>,
)
    requires
        100 <= status <= 999,
        !(200 <= status <= 299),
    ensures
        status_message(status, url, body, parsed) matches Some(m) && (is_not_found_message(m)
            <==> status == 404),
{
    let n = status as nat;
    let d = decimal(n);
    assert(n / 10 >= 10 && n / 10 / 10 < 10 && n / 10 / 10 >= 1) by (nonlinear_arith)
        requires
            100 <= n <= 999,
    ;
    assert(d == decimal(n / 10).push(crate::text::digit_char(n % 10)));
    assert(decimal(n / 10) == decimal(n / 10 / 10).push(crate::text::digit_char(n / 10 % 10)));
    assert(decimal(n / 10 / 10) == seq![crate::text::digit_char(n / 10 / 10)]);
    assert(d.len() == 3);
    assert(d[0] == crate::text::digit_char(n / 10 / 10));
    assert(d[1] == crate::text::digit_char(n / 10 % 10));
    assert(d[2] == crate::text::digit_char(n % 10));
    assert((n / 10 / 10 == 4 && n / 10 % 10 == 0 && n % 10 == 4) <==> n == 404) by (
    nonlinear_arith)
        requires
            100 <= n <= 999,
    ;
    let m = status_message(status, url, body, parsed).unwrap();
    assert(m[0] == d[0] && m[1] == d[1] && m[2] == d[2]);
}

} // verus!
