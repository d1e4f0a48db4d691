//! Errors of the HTTP client and of the plugin commands, with the texts
//! they display and the `{ kind, message }` pair the plugin reports.
use vstd::prelude::*;

use crate::text::{decimal, push_decimal, push_str};

verus! {

/// Failure of a backend call.
#[derive(Debug, Clone, PartialEq, Eq)]
pub enum ClientError {
    /// The request could not be sent or its body not read; the text is the
    /// transport error's message.
    Http(String),
    /// The response body was not the expected JSON; the text is the decoder's message.
    Decode(String),
    /// The backend answered a non-2xx status with a structured error body.
    Api { status: u16, url: String, code: String, message: String },
    /// The backend answered a non-2xx status with any other body.
    UnknownStatus { status: u16, url: String, body: String },
}

/// `ClientError` with its texts as character sequences.
pub enum ClientErrorView {
    Http(Seq<char>),
    Decode(Seq<char>),
    Api { status: u16, url: Seq<char>, code: Seq<char>, message: Seq<char> },
    UnknownStatus { status: u16, url: Seq<char>, body: Seq<char> },
}

impl View for ClientError {
    type V = ClientErrorView;

    open spec fn view(&self) -> ClientErrorView {
        match self {
            ClientError::Http(m) => ClientErrorView::Http(m@),
            ClientError::Decode(m) => ClientErrorView::Decode(m@),
            ClientError::Api { status, url, code, message } => ClientErrorView::Api {
                status: *status,
                url: url@,
                code: code@,
                message: message@,
            },
            ClientError::UnknownStatus { status, url, body } => ClientErrorView::UnknownStatus {
                status: *status,
                url: url@,
                body: body@,
            },
        }
    }
}

/// The text a `ClientError` displays.
pub open spec fn client_error_text(e: ClientErrorView) -> Seq<char> {
    match e {
        ClientErrorView::Http(m) => "http error: "@ + m,
        ClientErrorView::Decode(m) => "decode error: "@ + m,
        ClientErrorView::Api { status, url, code, message } => decimal(status as nat) + " "@ + url
            + ": "@ + code + ": "@ + message,
        ClientErrorView::UnknownStatus { status, url, body } => decimal(status as nat) + " "@
            + url + ": "@ + body,
    }
}

impl ClientError {
    /// True when the backend responded with `404 Not Found`, whether or not
    /// its body was a structured error.
    pub fn is_not_found(&self) -> (r: bool)
        ensures
            r == ((self@ matches ClientErrorView::Api { status, .. } && status == 404) || (
            self@ matches ClientErrorView::UnknownStatus { status, .. } && status == 404)),
    {
        match self {
            ClientError::Api { status, .. } => *status == 404,
            ClientError::UnknownStatus { status, .. } => *status == 404,
            _ => false,
        }
    }

    /// The message this error displays.
    pub fn message(&self) -> (s: String)
        ensures
            s@ == client_error_text(self@),
    {
        let mut s = String::new();
        match self {
            ClientError::Http(m) => {
                push_str(&mut s, "http error: ");
                push_str(&mut s, m.as_str());
            },
            ClientError::Decode(m) => {
                push_str(&mut s, "decode error: ");
                push_str(&mut s, m.as_str());
            },
            ClientError::Api { status, url, code, message } => {
                push_decimal(&mut s, *status as u64);
                push_str(&mut s, " ");
                push_str(&mut s, url.as_str());
                push_str(&mut s, ": ");
                push_str(&mut s, code.as_str());
                push_str(&mut s, ": ");
                push_str(&mut s, message.as_str());
            },
            ClientError::UnknownStatus { status, url, body } => {
                push_decimal(&mut s, *status as u64);
                push_str(&mut s, " ");
                push_str(&mut s, url.as_str());
                push_str(&mut s, ": ");
                push_str(&mut s, body.as_str());
            },
        }
        s
    }
}

/// Error of a plugin command.
#[derive(Debug, Clone, PartialEq, Eq)]
pub enum Error {
    /// A backend call failed.
    Client(ClientError),
    /// The backend URL could not be used.
    InvalidUrl(String),
    /// A tool ran before a workspace was chosen.
    NoWorkspace,
    /// A tool was given a path it cannot use.
    ToolBadPath(String),
    /// A tool path (first) resolved outside the workspace root (second).
    ToolOutsideWorkspace(String, String),
    /// A file-system operation failed; the text is its message.
    Io(String),
    /// JSON encoding or decoding failed; the text is its message.
    Json(String),
    /// A tool was called with unusable arguments.
    BadArgs(String),
}

/// `Error` with its texts as character sequences.
pub enum ErrorView {
    Client(ClientErrorView),
    InvalidUrl(Seq<char>),
    NoWorkspace,
    ToolBadPath(Seq<char>),
    ToolOutsideWorkspace(Seq<char>, Seq<char>),
    Io(Seq<char>),
    Json(Seq<char>),
    BadArgs(Seq<char>),
}

impl View for Error {
    type V = ErrorView;

    open spec fn view(&self) -> ErrorView {
        match self {
            Error::Client(e) => ErrorView::Client(e@),
            Error::InvalidUrl(u) => ErrorView::InvalidUrl(u@),
            Error::NoWorkspace => ErrorView::NoWorkspace,
            Error::ToolBadPath(m) => ErrorView::ToolBadPath(m@),
            Error::ToolOutsideWorkspace(p, r) => ErrorView::ToolOutsideWorkspace(p@, r@),
            Error::Io(m) => ErrorView::Io(m@),
            Error::Json(m) => ErrorView::Json(m@),
            Error::BadArgs(m) => ErrorView::BadArgs(m@),
        }
    }
}

/// The text an `Error` displays.
pub open spec fn error_text(e: ErrorView) -> Seq<char> {
    match e {
        ErrorView::Client(c) => client_error_text(c),
        ErrorView::InvalidUrl(u) => "invalid url: "@ + u,
        ErrorView::NoWorkspace => "workspace is not configured"@,
        ErrorView::ToolBadPath(m) => "invalid path: "@ + m,
        ErrorView::ToolOutsideWorkspace(p, r) => "path `"@ + p + "` is outside the workspace root `"@
            + r + "`"@,
        ErrorView::Io(m) => "io error: "@ + m,
        ErrorView::Json(m) => "json error: "@ + m,
        ErrorView::BadArgs(m) => "invalid arguments: "@ + m,
    }
}

/// The `{ kind, message }` pair reported to the front end for an error.
pub open spec fn error_kind_message(e: ErrorView) -> (Seq<char>, Seq<char>) {
    match e {
        ErrorView::Client(c) => match c {
            ClientErrorView::Api { code, message, .. } => (code, message),
            ClientErrorView::Http(m) => ("http"@, m),
            ClientErrorView::Decode(m) => ("decode"@, m),
            ClientErrorView::UnknownStatus { status, body, .. } => ("status_"@ + decimal(
                status as nat,
            ), body),
        },
        ErrorView::InvalidUrl(u) => ("invalid_url"@, u),
        ErrorView::NoWorkspace => ("no_workspace"@, error_text(e)),
        ErrorView::ToolBadPath(_) => ("tool_bad_path"@, error_text(e)),
        ErrorView::ToolOutsideWorkspace(_, _) => ("tool_outside_workspace"@, error_text(e)),
        ErrorView::Io(_) => ("io"@, error_text(e)),
        ErrorView::Json(_) => ("json"@, error_text(e)),
        ErrorView::BadArgs(_) => ("bad_args"@, error_text(e)),
    }
}

impl Error {
    /// The message this error displays.
    pub fn message(&self) -> (s: String)
        ensures
            s@ == error_text(self@),
    {
        match self {
            Error::Client(c) => c.message(),
            Error::InvalidUrl(u) => {
                let mut s = String::new();
                push_str(&mut s, "invalid url: ");
                push_str(&mut s, u.as_str());
                s
            },
            Error::NoWorkspace => {
                let mut s = String::new();
                push_str(&mut s, "workspace is not configured");
                s
            },
            Error::ToolBadPath(m) => {
                let mut s = String::new();
                push_str(&mut s, "invalid path: ");
                push_str(&mut s, m.as_str());
                s
            },
            Error::ToolOutsideWorkspace(p, r) => {
                let mut s = String::new();
                push_str(&mut s, "path `");
                push_str(&mut s, p.as_str());
                push_str(&mut s, "` is outside the workspace root `");
                push_str(&mut s, r.as_str());
                push_str(&mut s, "`");
                s
            },
            Error::Io(m) => {
                let mut s = String::new();
                push_str(&mut s, "io error: ");
                push_str(&mut s, m.as_str());
                s
            },
            Error::Json(m) => {
                let mut s = String::new();
                push_str(&mut s, "json error: ");
                push_str(&mut s, m.as_str());
                s
            },
            Error::BadArgs(m) => {
                let mut s = String::new();
                push_str(&mut s, "invalid arguments: ");
                push_str(&mut s, m.as_str());
                s
            },
        }
    }

    /// The `(kind, message)` pair under which the plugin reports this error.
    pub fn kind_and_message(&self) -> (r: (String, String))
        ensures
            r.0@ == error_kind_message(self@).0,
            r.1@ == error_kind_message(self@).1,
    {
        let mut kind = String::new();
        match self {
            Error::Client(c) => match c {
                ClientError::Api { code, message, .. } => (code.clone(), message.clone()),
                ClientError::Http(m) => {
                    push_str(&mut kind, "http");
                    (kind, m.clone())
                },
                ClientError::Decode(m) => {
                    push_str(&mut kind, "decode");
                    (kind, m.clone())
                },
                ClientError::UnknownStatus { status, body, .. } => {
                    push_str(&mut kind, "status_");
                    push_decimal(&mut kind, *status as u64);
                    (kind, body.clone())
                },
            },
            Error::InvalidUrl(u) => {
                push_str(&mut kind, "invalid_url");
                (kind, u.clone())
            },
            Error::NoWorkspace => {
                push_str(&mut kind, "no_workspace");
                (kind, self.message())
            },
            Error::ToolBadPath(_) => {
                push_str(&mut kind, "tool_bad_path");
                (kind, self.message())
            },
            Error::ToolOutsideWorkspace(_, _) => {
                push_str(&mut kind, "tool_outside_workspace");
                (kind, self.message())
            },
            Error::Io(_) => {
                push_str(&mut kind, "io");
                (kind, self.message())
            },
            Error::Json(_) => {
                push_str(&mut kind, "json");
                (kind, self.message())
            },
            Error::BadArgs(_) => {
                push_str(&mut kind, "bad_args");
                (kind, self.message())
            },
        }
    }
}

/// What the front end is told of an error: a backend error with a
/// structured body is reported under the backend's own code and message;
/// a backend error without one under `status_` and its status, with the
/// body as message; a transport or decoding failure with its message as is;
/// and every error of the plugin itself with the text it displays.
pub proof fn reported_kinds_follow_the_error(e: ErrorView)
    ensures
        e matches ErrorView::Client(ClientErrorView::Api { code, message, .. }) ==> error_kind_message(e)
            == (code, message),
        e matches ErrorView::Client(ClientErrorView::UnknownStatus { status, body, .. })
            ==> error_kind_message(e) == ("status_"@ + decimal(status as nat), body),
        e matches ErrorView::Client(ClientErrorView::Http(m)) ==> error_kind_message(e).1 == m,
        e matches ErrorView::Client(ClientErrorView::Decode(m)) ==> error_kind_message(e).1 == m,
        e matches ErrorView::InvalidUrl(u) ==> error_kind_message(e).1 == u,
        !(e is Client) && !(e is InvalidUrl) ==> error_kind_message(e).1 == error_text(e),
{
}

} // verus!
