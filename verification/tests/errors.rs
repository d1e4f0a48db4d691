use co_worker::error::{ClientError, Error};

fn pair(e: &Error) -> (String, String) {
    e.kind_and_message()
}

fn s(x: &str) -> String {
    x.to_string()
}

#[test]
fn error_messages() {
    assert_eq!(Error::InvalidUrl(s("ftp:")).message(), "invalid url: ftp:");
    assert_eq!(Error::NoWorkspace.message(), "workspace is not configured");
    assert_eq!(Error::ToolBadPath(s("nope")).message(), "invalid path: nope");
    assert_eq!(
        Error::ToolOutsideWorkspace(s("../x"), s("/w")).message(),
        "path `../x` is outside the workspace root `/w`"
    );
    assert_eq!(Error::Io(s("denied")).message(), "io error: denied");
    assert_eq!(Error::Json(s("eof")).message(), "json error: eof");
    assert_eq!(Error::BadArgs(s("empty")).message(), "invalid arguments: empty");
}

#[test]
fn kinds_reported_to_the_front_end() {
    let api = Error::Client(ClientError::Api {
        status: 409,
        url: s("u"),
        code: s("conflict"),
        message: s("busy loading"),
    });
    assert_eq!(pair(&api), (s("conflict"), s("busy loading")));
    assert_eq!(pair(&Error::Client(ClientError::Http(s("refused")))), (s("http"), s("refused")));
    assert_eq!(pair(&Error::Client(ClientError::Decode(s("bad")))), (s("decode"), s("bad")));
    assert_eq!(
        pair(&Error::Client(ClientError::UnknownStatus { status: 503, url: s("u"), body: s("down") })),
        (s("status_503"), s("down"))
    );
    assert_eq!(pair(&Error::InvalidUrl(s("::"))), (s("invalid_url"), s("::")));
    assert_eq!(pair(&Error::NoWorkspace), (s("no_workspace"), s("workspace is not configured")));
    assert_eq!(pair(&Error::ToolBadPath(s("p"))), (s("tool_bad_path"), s("invalid path: p")));
    assert_eq!(
        pair(&Error::ToolOutsideWorkspace(s("a"), s("/r"))),
        (s("tool_outside_workspace"), s("path `a` is outside the workspace root `/r`"))
    );
    assert_eq!(pair(&Error::Io(s("x"))), (s("io"), s("io error: x")));
    assert_eq!(pair(&Error::Json(s("x"))), (s("json"), s("json error: x")));
    assert_eq!(pair(&Error::BadArgs(s("x"))), (s("bad_args"), s("invalid arguments: x")));
}
