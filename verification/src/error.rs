//! The application's error kinds, the message each one displays, and the hint
//! shown to the user for it.
use crate::text::{append_str, decimal, push_decimal, string_of};
use vstd::prelude::*;

verus! {

/// Every failure the application reports, with what it knows of it.
#[derive(Debug)]
pub enum MercuryError {
    /// Connection to server failed (DNS, refused, unreachable).
    ConnectionFailed(String),
    /// Request exceeded the timeout, in milliseconds.
    Timeout(u64),
    /// SSL/TLS certificate or handshake error.
    TlsError(String),
    /// Generic request error (redirect limits, protocol issues).
    RequestFailed(String),
    /// Failed to read from a file.
    FileRead { path: String, reason: String },
    /// Failed to write to a file.
    FileWrite { path: String, reason: String },
    /// File or directory not found.
    FileNotFound(String),
    /// File or folder already exists.
    AlreadyExists { kind: String, name: String },
    /// Failed to delete a file or folder.
    DeleteFailed { path: String, reason: String },
    /// Failed to rename a file or folder.
    RenameFailed { from: String, to: String, reason: String },
    /// Invalid request file format.
    HttpParseError(String),
    /// Invalid JSON content.
    JsonError(String),
    /// Invalid URL format.
    InvalidUrl(String),
    /// Invalid cURL command.
    CurlParseError(String),
    /// Postman collection import failed.
    PostmanImportError(String),
    /// Insomnia collection import failed.
    InsomniaImportError(String),
    /// No workspace is currently loaded.
    NoWorkspace,
    /// Workspace directory not found.
    WorkspaceNotFound(String),
    /// Environment already exists.
    EnvironmentExists(String),
    /// Failed to create an environment.
    EnvironmentCreateFailed(String),
    /// File watcher error.
    FileWatcherError(String),
}

/// The error's message (what its `Display` shows).
pub open spec fn error_text(e: MercuryError) -> Seq<char> {
    match e {
        MercuryError::ConnectionFailed(v) => "Connection failed: "@ + v@,
        MercuryError::Timeout(v) => "Request timed out after "@ + decimal(v as nat) + "ms"@,
        MercuryError::TlsError(v) => "SSL/TLS error: "@ + v@,
        MercuryError::RequestFailed(v) => "Request failed: "@ + v@,
        MercuryError::FileRead { path, reason } => "Failed to read file '"@ + path@ + "': "@ + reason@,
        MercuryError::FileWrite { path, reason } => "Failed to write file '"@ + path@ + "': "@ + reason@,
        MercuryError::FileNotFound(v) => "File not found: "@ + v@,
        MercuryError::AlreadyExists { kind, name } => kind@ + " already exists: "@ + name@,
        MercuryError::DeleteFailed { path, reason } => "Failed to delete '"@ + path@ + "': "@ + reason@,
        MercuryError::RenameFailed { from: from_, to, reason } => "Failed to rename '"@ + from_@ + "' to '"@ + to@ + "': "@ + reason@,
        MercuryError::HttpParseError(v) => "Invalid HTTP file: "@ + v@,
        MercuryError::JsonError(v) => "Invalid JSON: "@ + v@,
        MercuryError::InvalidUrl(v) => "Invalid URL: "@ + v@,
        MercuryError::CurlParseError(v) => "Invalid cURL command: "@ + v@,
        MercuryError::PostmanImportError(v) => "Postman import failed: "@ + v@,
        MercuryError::InsomniaImportError(v) => "Insomnia import failed: "@ + v@,
        MercuryError::NoWorkspace => "No workspace loaded"@,
        MercuryError::WorkspaceNotFound(v) => "Workspace not found: "@ + v@,
        MercuryError::EnvironmentExists(v) => "Environment already exists: "@ + v@,
        MercuryError::EnvironmentCreateFailed(v) => "Failed to create environment: "@ + v@,
        MercuryError::FileWatcherError(v) => "File watcher error: "@ + v@,
    }
}

/// The hint shown to the user for an error.
pub open spec fn hint_text(e: MercuryError) -> Seq<char> {
    match e {
        MercuryError::ConnectionFailed(..) => "Could not connect to the server. Check your internet connection and the URL."@,
        MercuryError::Timeout(..) => "The server took too long to respond. Try again or increase the timeout."@,
        MercuryError::TlsError(..) => "SSL/TLS certificate error. The server's certificate may be invalid or expired."@,
        MercuryError::RequestFailed(..) => "The request could not be completed. Check the URL and try again."@,
        MercuryError::FileRead { .. } => "Could not read the file. Check if it exists and you have permission."@,
        MercuryError::FileWrite { .. } => "Could not save the file. Check write permissions and available disk space."@,
        MercuryError::FileNotFound(..) => "The file was not found. It may have been moved or deleted."@,
        MercuryError::AlreadyExists { .. } => "An item with this name already exists. Choose a different name."@,
        MercuryError::DeleteFailed { .. } => "Could not delete the item. It may be in use or protected."@,
        MercuryError::RenameFailed { .. } => "Could not rename the item. Check if the new name is valid."@,
        MercuryError::HttpParseError(..) => "Invalid HTTP file format. Expected: METHOD URL on the first line."@,
        MercuryError::JsonError(..) => "The content is not valid JSON. Check for syntax errors."@,
        MercuryError::InvalidUrl(..) => "Please enter a valid URL (e.g., https://api.example.com)."@,
        MercuryError::CurlParseError(..) => "Could not parse the cURL command. Ensure it's a valid cURL command."@,
        MercuryError::PostmanImportError(..) => "Could not import the Postman collection. Ensure it's a valid export file."@,
        MercuryError::InsomniaImportError(..) => "Could not import the Insomnia collection. Ensure it's a valid export file."@,
        MercuryError::NoWorkspace => "No workspace is open. Create or open a workspace first."@,
        MercuryError::WorkspaceNotFound(..) => "The workspace folder was not found. It may have been moved or deleted."@,
        MercuryError::EnvironmentExists(..) => "An environment with this name already exists."@,
        MercuryError::EnvironmentCreateFailed(..) => "Could not create the environment file. Check write permissions."@,
        MercuryError::FileWatcherError(..) => "File system watcher encountered an error. Changes may not auto-refresh."@,
    }
}

impl MercuryError {
    /// The error's message.
    pub fn to_string(&self) -> (r: String)
        ensures
            r@ == error_text(*self),
    {
        let mut out: Vec<char> = Vec::new();
        match self {
            MercuryError::ConnectionFailed(v) => {
                append_str(&mut out, "Connection failed: ");
                append_str(&mut out, v.as_str());
            },
            MercuryError::Timeout(v) => {
                append_str(&mut out, "Request timed out after ");
                push_decimal(&mut out, *v as u128);
                append_str(&mut out, "ms");
            },
            MercuryError::TlsError(v) => {
                append_str(&mut out, "SSL/TLS error: ");
                append_str(&mut out, v.as_str());
            },
            MercuryError::RequestFailed(v) => {
                append_str(&mut out, "Request failed: ");
                append_str(&mut out, v.as_str());
            },
            MercuryError::FileRead { path, reason } => {
                append_str(&mut out, "Failed to read file '");
                append_str(&mut out, path.as_str());
                append_str(&mut out, "': ");
                append_str(&mut out, reason.as_str());
            },
            MercuryError::FileWrite { path, reason } => {
                append_str(&mut out, "Failed to write file '");
                append_str(&mut out, path.as_str());
                append_str(&mut out, "': ");
                append_str(&mut out, reason.as_str());
            },
            MercuryError::FileNotFound(v) => {
                append_str(&mut out, "File not found: ");
                append_str(&mut out, v.as_str());
            },
            MercuryError::AlreadyExists { kind, name } => {
                append_str(&mut out, kind.as_str());
                append_str(&mut out, " already exists: ");
                append_str(&mut out, name.as_str());
            },
            MercuryError::DeleteFailed { path, reason } => {
                append_str(&mut out, "Failed to delete '");
                append_str(&mut out, path.as_str());
                append_str(&mut out, "': ");
                append_str(&mut out, reason.as_str());
            },
            MercuryError::RenameFailed { from: from_, to, reason } => {
                append_str(&mut out, "Failed to rename '");
                append_str(&mut out, from_.as_str());
                append_str(&mut out, "' to '");
                append_str(&mut out, to.as_str());
                append_str(&mut out, "': ");
                append_str(&mut out, reason.as_str());
            },
            MercuryError::HttpParseError(v) => {
                append_str(&mut out, "Invalid HTTP file: ");
                append_str(&mut out, v.as_str());
            },
            MercuryError::JsonError(v) => {
                append_str(&mut out, "Invalid JSON: ");
                append_str(&mut out, v.as_str());
            },
            MercuryError::InvalidUrl(v) => {
                append_str(&mut out, "Invalid URL: ");
                append_str(&mut out, v.as_str());
            },
            MercuryError::CurlParseError(v) => {
                append_str(&mut out, "Invalid cURL command: ");
                append_str(&mut out, v.as_str());
            },
            MercuryError::PostmanImportError(v) => {
                append_str(&mut out, "Postman import failed: ");
                append_str(&mut out, v.as_str());
            },
            MercuryError::InsomniaImportError(v) => {
                append_str(&mut out, "Insomnia import failed: ");
                append_str(&mut out, v.as_str());
            },
            MercuryError::NoWorkspace => {
                append_str(&mut out, "No workspace loaded");
            },
            MercuryError::WorkspaceNotFound(v) => {
                append_str(&mut out, "Workspace not found: ");
                append_str(&mut out, v.as_str());
            },
            MercuryError::EnvironmentExists(v) => {
                append_str(&mut out, "Environment already exists: ");
                append_str(&mut out, v.as_str());
            },
            MercuryError::EnvironmentCreateFailed(v) => {
                append_str(&mut out, "Failed to create environment: ");
                append_str(&mut out, v.as_str());
            },
            MercuryError::FileWatcherError(v) => {
                append_str(&mut out, "File watcher error: ");
                append_str(&mut out, v.as_str());
            },
        }
        string_of(&out)
    }

    /// A user-friendly, actionable hint for display in the UI.
    pub fn user_message(&self) -> (r: &'static str)
        ensures
            r@ == hint_text(*self),
    {
        match self {
            MercuryError::ConnectionFailed(..) => "Could not connect to the server. Check your internet connection and the URL.",
            MercuryError::Timeout(..) => "The server took too long to respond. Try again or increase the timeout.",
            MercuryError::TlsError(..) => "SSL/TLS certificate error. The server's certificate may be invalid or expired.",
            MercuryError::RequestFailed(..) => "The request could not be completed. Check the URL and try again.",
            MercuryError::FileRead { .. } => "Could not read the file. Check if it exists and you have permission.",
            MercuryError::FileWrite { .. } => "Could not save the file. Check write permissions and available disk space.",
            MercuryError::FileNotFound(..) => "The file was not found. It may have been moved or deleted.",
            MercuryError::AlreadyExists { .. } => "An item with this name already exists. Choose a different name.",
            MercuryError::DeleteFailed { .. } => "Could not delete the item. It may be in use or protected.",
            MercuryError::RenameFailed { .. } => "Could not rename the item. Check if the new name is valid.",
            MercuryError::HttpParseError(..) => "Invalid HTTP file format. Expected: METHOD URL on the first line.",
            MercuryError::JsonError(..) => "The content is not valid JSON. Check for syntax errors.",
            MercuryError::InvalidUrl(..) => "Please enter a valid URL (e.g., https://api.example.com).",
            MercuryError::CurlParseError(..) => "Could not parse the cURL command. Ensure it's a valid cURL command.",
            MercuryError::PostmanImportError(..) => "Could not import the Postman collection. Ensure it's a valid export file.",
            MercuryError::InsomniaImportError(..) => "Could not import the Insomnia collection. Ensure it's a valid export file.",
            MercuryError::NoWorkspace => "No workspace is open. Create or open a workspace first.",
            MercuryError::WorkspaceNotFound(..) => "The workspace folder was not found. It may have been moved or deleted.",
            MercuryError::EnvironmentExists(..) => "An environment with this name already exists.",
            MercuryError::EnvironmentCreateFailed(..) => "Could not create the environment file. Check write permissions.",
            MercuryError::FileWatcherError(..) => "File system watcher encountered an error. Changes may not auto-refresh.",
        }
    }

    /// Whether the user can retry: network failures that may pass.
    pub fn is_recoverable(&self) -> (r: bool)
        ensures
            r == (*self is ConnectionFailed || *self is Timeout || *self is RequestFailed),
    {
        match self {
            MercuryError::ConnectionFailed(_) | MercuryError::Timeout(_)
            | MercuryError::RequestFailed(_) => true,
            _ => false,
        }
    }
}
// ---------------------------------------------------------------------------
// Conversions from the errors of other libraries
// ---------------------------------------------------------------------------

/// The kinds of I/O failure that map to different errors.
#[derive(Debug, Clone, Copy, PartialEq, Eq, Structural)]
pub enum IoFailure {
    NotFound,
    PermissionDenied,
    Other,
}

impl MercuryError {
    /// A missing file becomes `FileNotFound` with the message; any other
    /// failure a `FileRead` with no path ("Permission denied" or the message).
    pub fn from_io_parts(kind: IoFailure, text: String) -> (r: MercuryError)
        ensures
            kind == IoFailure::NotFound ==> (r matches MercuryError::FileNotFound(m) && m@
                == text@),
            kind == IoFailure::PermissionDenied ==> (r matches MercuryError::FileRead {
                path,
                reason,
            } && path@ == Seq::<char>::empty() && reason@ == "Permission denied"@),
            kind == IoFailure::Other ==> (r matches MercuryError::FileRead { path, reason }
                && path@ == Seq::<char>::empty() && reason@ == text@),
    {
        match kind {
            IoFailure::NotFound => MercuryError::FileNotFound(text),
            IoFailure::PermissionDenied => MercuryError::FileRead {
                path: String::new(),
                reason: "Permission denied".to_string(),
            },
            IoFailure::Other => MercuryError::FileRead { path: String::new(), reason: text },
        }
    }

    /// A failed request: a timeout (reported as the default 30000 ms), a
    /// connection failure, a malformed request (an invalid URL), or another
    /// failure, each with the error's message.
    pub fn from_request_failure(text: String, is_timeout: bool, is_connect: bool, is_builder: bool) -> (r:
        MercuryError)
        ensures
            is_timeout ==> r == MercuryError::Timeout(30000),
            !is_timeout && is_connect ==> (r matches MercuryError::ConnectionFailed(m) && m@
                == text@),
            !is_timeout && !is_connect && is_builder ==> (r matches MercuryError::InvalidUrl(m)
                && m@ == text@),
            !is_timeout && !is_connect && !is_builder ==> (r matches MercuryError::RequestFailed(
                m,
            ) && m@ == text@),
    {
        if is_timeout {
            MercuryError::Timeout(30000)
        } else if is_connect {
            MercuryError::ConnectionFailed(text)
        } else if is_builder {
            MercuryError::InvalidUrl(text)
        } else {
            MercuryError::RequestFailed(text)
        }
    }
}

#[verifier::external_type_specification]
#[verifier::external_body]
pub struct ExIoError(std::io::Error);

#[verifier::external_type_specification]
#[verifier::external_body]
pub struct ExJsonError(serde_json::Error);

/// `std::io::Error::kind`, sorted into the kinds told apart here. Nothing is
/// stated of the result: the error is opaque to the library.
#[verifier::external_body]
fn io_failure(err: &std::io::Error) -> (r: IoFailure) {
    match err.kind() {
        std::io::ErrorKind::NotFound => IoFailure::NotFound,
        std::io::ErrorKind::PermissionDenied => IoFailure::PermissionDenied,
        _ => IoFailure::Other,
    }
}

/// The message of a `std::io::Error` (its `Display`). Nothing is stated of
/// the result: the error is opaque to the library.
#[verifier::external_body]
fn io_error_message(err: &std::io::Error) -> (r: String) {
    err.to_string()
}

/// The message of a `serde_json::Error` (its `Display`). Nothing is stated of
/// the result: the error is opaque to the library.
#[verifier::external_body]
fn json_error_message(err: &serde_json::Error) -> (r: String) {
    err.to_string()
}

impl From<std::io::Error> for MercuryError {
    fn from(err: std::io::Error) -> (r: MercuryError)
        ensures
            r is FileNotFound || r is FileRead,
    {
        let kind = io_failure(&err);
        let text = io_error_message(&err);
        MercuryError::from_io_parts(kind, text)
    }
}

/// The error wrapped is opaque to the library, so no result is promised for
/// `from`; what it builds is stated by `from_io_parts`.
impl vstd::std_specs::convert::FromSpecImpl<std::io::Error> for MercuryError {
    open spec fn obeys_from_spec() -> bool {
        false
    }

    open spec fn from_spec(v: std::io::Error) -> MercuryError {
        vstd::pervasive::arbitrary()
    }
}

/// The error wrapped is opaque to the library, so no result is promised for
/// `from` beyond its variant.
impl vstd::std_specs::convert::FromSpecImpl<serde_json::Error> for MercuryError {
    open spec fn obeys_from_spec() -> bool {
        false
    }

    open spec fn from_spec(v: serde_json::Error) -> MercuryError {
        vstd::pervasive::arbitrary()
    }
}

impl From<serde_json::Error> for MercuryError {
    fn from(err: serde_json::Error) -> (r: MercuryError)
        ensures
            r is JsonError,
    {
        MercuryError::JsonError(json_error_message(&err))
    }
}

} // verus!
