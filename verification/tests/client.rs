use co_worker::client::{
    check_status, check_status_message, is_not_found, memory_path, normalize_base_url,
    plugin_client, session_debug_path, session_messages_path, session_path, sessions_page_path,
    ApiClient, DEFAULT_BASE_URL, HEALTH_PATH, REQUEST_TIMEOUT_SECS,
};
use co_worker::error::{ClientError, Error};
use co_worker::wire::{ApiError, ApiErrorDetail};

const ID: u128 = 0x67e5504410b1426f9247bb680e5fe0c8;

fn api_error(code: &str, message: &str) -> ApiError {
    ApiError {
        error: ApiErrorDetail { code: code.to_string(), message: message.to_string() },
    }
}

#[test]
fn base_url_loses_trailing_slashes() {
    assert_eq!(normalize_base_url("http://localhost:6969///"), "http://localhost:6969");
    assert_eq!(normalize_base_url("http://h/api"), "http://h/api");
    assert_eq!(normalize_base_url("///"), "");
    let c = ApiClient::new("http://localhost:6969/").unwrap();
    assert_eq!(c.base_url(), DEFAULT_BASE_URL);
    assert_eq!(c.url(HEALTH_PATH), "http://localhost:6969/health");
}

#[test]
fn normalizing_twice_changes_nothing() {
    for s in ["a//", "http://x/", "", "/", "x"] {
        let once = normalize_base_url(s);
        assert_eq!(normalize_base_url(&once), once);
        assert!(!once.ends_with('/'));
    }
}

#[test]
fn plugin_client_keeps_the_url() {
    let c = plugin_client("http://127.0.0.1:1/").unwrap();
    assert_eq!(c.base_url(), "http://127.0.0.1:1");
}

#[test]
fn request_paths() {
    assert_eq!(sessions_page_path(20, 0), "/v1/sessions?limit=20&offset=0");
    assert_eq!(sessions_page_path(-1, 1234567), "/v1/sessions?limit=-1&offset=1234567");
    assert_eq!(session_path(ID), "/v1/sessions/67e55044-10b1-426f-9247-bb680e5fe0c8");
    assert_eq!(
        session_debug_path(ID),
        "/v1/sessions/67e55044-10b1-426f-9247-bb680e5fe0c8/debug"
    );
    assert_eq!(
        session_messages_path(ID),
        "/v1/sessions/67e55044-10b1-426f-9247-bb680e5fe0c8/messages"
    );
    assert_eq!(memory_path(0), "/v1/memories/00000000-0000-0000-0000-000000000000");
    assert_eq!(memory_path(u128::MAX), "/v1/memories/ffffffff-ffff-ffff-ffff-ffffffffffff");
}

#[test]
fn success_statuses_pass() {
    assert_eq!(check_status(200, "u", "", None), Ok(()));
    assert_eq!(check_status(204, "u", "ignored", Some(api_error("c", "m"))), Ok(()));
    assert_eq!(check_status_message(299, "u", "", None), None);
}

#[test]
fn structured_error_bodies_become_api_errors() {
    let r = check_status(404, "http://h/v1/sessions/x", "{..}", Some(api_error("not_found", "no such session")));
    let e = r.unwrap_err();
    assert_eq!(
        e,
        ClientError::Api {
            status: 404,
            url: "http://h/v1/sessions/x".to_string(),
            code: "not_found".to_string(),
            message: "no such session".to_string(),
        }
    );
    assert!(e.is_not_found());
    assert_eq!(e.message(), "404 http://h/v1/sessions/x: not_found: no such session");
}

#[test]
fn other_bodies_become_unknown_status() {
    let e = check_status(502, "u", "bad gateway text", None).unwrap_err();
    assert_eq!(
        e,
        ClientError::UnknownStatus { status: 502, url: "u".to_string(), body: "bad gateway text".to_string() }
    );
    assert!(!e.is_not_found());
}

#[test]
fn empty_bodies_show_the_reason_phrase() {
    let e = check_status(500, "u", "", None).unwrap_err();
    assert_eq!(
        e,
        ClientError::UnknownStatus { status: 500, url: "u".to_string(), body: "Internal Server Error".to_string() }
    );
    let e = check_status(599, "u", "", None).unwrap_err();
    assert_eq!(e, ClientError::UnknownStatus { status: 599, url: "u".to_string(), body: "error".to_string() });
    // A 404 without a structured body is still "not found".
    let e = check_status(404, "u", "", None).unwrap_err();
    assert_eq!(e, ClientError::UnknownStatus { status: 404, url: "u".to_string(), body: "Not Found".to_string() });
    assert!(e.is_not_found());
}

#[test]
fn command_line_messages() {
    assert_eq!(
        check_status_message(404, "http://h/x", "", Some(api_error("not_found", "gone"))),
        Some("404 http://h/x (not_found): gone".to_string())
    );
    assert_eq!(
        check_status_message(418, "http://h/x", "", None),
        Some("418 http://h/x: I'm a teapot".to_string())
    );
    assert_eq!(
        check_status_message(503, "http://h/x", "busy", None),
        Some("503 http://h/x: busy".to_string())
    );
}

#[test]
fn not_found_messages() {
    let m = check_status_message(404, "http://h/x", "", None).unwrap();
    assert!(is_not_found(&m));
    let m = check_status_message(400, "http://h/404", "", None).unwrap();
    assert!(!is_not_found(&m));
    assert!(!is_not_found("40"));
    assert!(is_not_found("404"));
}

#[test]
fn client_error_texts() {
    assert_eq!(ClientError::Http("timed out".to_string()).message(), "http error: timed out");
    assert_eq!(ClientError::Decode("eof".to_string()).message(), "decode error: eof");
    assert_eq!(
        ClientError::UnknownStatus { status: 500, url: "u".to_string(), body: "b".to_string() }.message(),
        "500 u: b"
    );
    assert_eq!(Error::Client(ClientError::Http("x".to_string())).message(), "http error: x");
}

#[test]
fn defaults() {
    assert_eq!(DEFAULT_BASE_URL, "http://localhost:6969");
    assert_eq!(REQUEST_TIMEOUT_SECS, 600);
}

#[test]
fn clients_carry_their_settings() {
    let c = ApiClient::new("http://h/").unwrap();
    assert_eq!(c.user_agent(), "co_worker/0.1.0");
    assert_eq!(c.timeout_secs(), 600);
    let p = plugin_client("http://h").unwrap();
    assert_eq!((p.user_agent(), p.timeout_secs()), ("co_worker/0.1.0", 600));
}
