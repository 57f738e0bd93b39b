//! The Mango compositor's IPC protocol: the replies it sends, the commands it
//! takes, and the decisions made on its replies. The socket itself is opened
//! by the caller.

use vstd::prelude::*;

use crate::text::{joined, contains, contains_text, is_blank, is_blank_text};

verus! {

/// One Mango tag (workspace equivalent in dwm-style compositors).
#[derive(Debug, Clone)]
pub struct MangoTag {
    /// Tag index (1-based).
    pub index: u32,
    /// Whether this tag is currently active (selected) on its monitor.
    pub is_active: bool,
    /// Whether any client on this tag is urgent.
    pub is_urgent: bool,
    /// Layout symbol for this tag.
    pub layout: String,
    /// Number of clients on this tag.
    pub client_count: i32,
}

/// Response from `get tags <monitor>` or `watch tags <monitor>`.
#[derive(Debug, Clone)]
pub struct MangoTagsResponse {
    /// Monitor name.
    pub monitor: String,
    /// Tags on this monitor.
    pub tags: Vec<MangoTag>,
    /// Currently active tag indices on this monitor.
    pub active_tags: Vec<u32>,
}

/// A Mango client (window).
#[derive(Debug, Clone)]
pub struct MangoClient {
    /// Client id. `None` when no focused client.
    pub id: Option<u64>,
    /// Window title.
    pub title: Option<String>,
    /// Application id / class.
    pub app_id: Option<String>,
    /// Monitor name.
    pub monitor: String,
    /// Tags this client is on.
    pub tags: Vec<u32>,
    /// Whether this client is focused.
    pub is_focused: bool,
    /// Whether this client is urgent.
    pub is_urgent: bool,
}

/// How an error of the service is classed.
#[derive(Debug, Clone, Copy, PartialEq, Eq, Structural)]
pub enum ServiceErrorKind {
    /// Something needed is not there.
    NotFound,
    /// Any other failure.
    Other,
}

/// Why the service could not be set up or a command failed.
#[derive(Debug, Clone, PartialEq)]
pub enum ServiceError {
    /// `MANGO_INSTANCE_SIGNATURE` is not set.
    SignatureMissing,
    /// The socket named by the signature does not exist.
    SocketNotFound(String),
    /// The compositor answered a dispatch with an error; the answer is kept.
    DispatchFailed(String),
}

impl ServiceError {
    /// The text of an error.
    pub open spec fn spec_message(&self) -> Seq<char> {
        match self {
            ServiceError::SignatureMissing => "MANGO_INSTANCE_SIGNATURE not set"@,
            ServiceError::SocketNotFound(path) => "Mango socket not found: "@ + path@,
            ServiceError::DispatchFailed(response) => "Mango dispatch failed: "@ + response@,
        }
    }

    /// The class of an error.
    pub open spec fn spec_kind(&self) -> ServiceErrorKind {
        match self {
            ServiceError::DispatchFailed(_) => ServiceErrorKind::Other,
            _ => ServiceErrorKind::NotFound,
        }
    }

    /// The text of an error, as it is reported.
    pub fn message(&self) -> (text: String)
        ensures
            text@ == self.spec_message(),
    {
        match self {
            ServiceError::SignatureMissing => String::from_str("MANGO_INSTANCE_SIGNATURE not set"),
            ServiceError::SocketNotFound(path) => joined(
                "Mango socket not found: ",
                path.as_str(),
            ),
            ServiceError::DispatchFailed(response) => joined(
                "Mango dispatch failed: ",
                response.as_str(),
            ),
        }
    }

    /// The class of an error.
    pub fn kind(&self) -> (kind: ServiceErrorKind)
        ensures
            kind == self.spec_kind(),
    {
        match self {
            ServiceError::DispatchFailed(_) => ServiceErrorKind::Other,
            _ => ServiceErrorKind::NotFound,
        }
    }
}

/// IPC client for the Mango compositor: the path of its socket.
pub struct MangoService {
    socket_path: String,
}

impl MangoService {
    /// The path of the compositor's socket.
    pub closed spec fn spec_socket_path(&self) -> Seq<char> {
        self.socket_path@
    }

    /// Creates the service from the value of `MANGO_INSTANCE_SIGNATURE` (if it
    /// is set) and whether the socket it names exists.
    pub fn new(signature: Option<String>, socket_exists: bool) -> (res: Result<
        MangoService,
        ServiceError,
    >)
        ensures
            match signature {
                None => res == Err::<MangoService, ServiceError>(ServiceError::SignatureMissing),
                Some(path) => if socket_exists {
                    res matches Ok(service) && service.spec_socket_path() == path@
                } else {
                    res matches Err(ServiceError::SocketNotFound(p)) && p@ == path@
                },
            },
    {
        match signature {
            None => Err(ServiceError::SignatureMissing),
            Some(path) => {
                if socket_exists {
                    Ok(MangoService { socket_path: path })
                } else {
                    Err(ServiceError::SocketNotFound(path))
                }
            },
        }
    }

    /// The path of the compositor's socket.
    pub fn socket_path(&self) -> (path: &str)
        ensures
            path@ == self.spec_socket_path(),
    {
        self.socket_path.as_str()
    }
}

/// The command that asks for the tags of a monitor.
pub fn get_tags_command(monitor: &str) -> (cmd: String)
    ensures
        cmd@ == "get tags "@ + monitor@,
{
    joined("get tags ", monitor)
}

/// The command that asks for the focused client.
pub fn get_focusing_client_command() -> (cmd: String)
    ensures
        cmd@ == "get focusing-client"@,
{
    String::from_str("get focusing-client")
}

/// The command that has the compositor run `cmd` (for example `view,3`).
pub fn dispatch_command(cmd: &str) -> (res: String)
    ensures
        res@ == "dispatch "@ + cmd@,
{
    joined("dispatch ", cmd)
}

/// The command that subscribes to the tags of a monitor.
pub fn watch_tags_command(monitor: &str) -> (cmd: String)
    ensures
        cmd@ == "watch tags "@ + monitor@,
{
    joined("watch tags ", monitor)
}

/// The command that subscribes to the focused client.
pub fn watch_focusing_client_command() -> (cmd: String)
    ensures
        cmd@ == "watch focusing-client"@,
{
    String::from_str("watch focusing-client")
}

/// A command as it is written to the socket: one line.
pub fn request_line(cmd: &str) -> (line: String)
    ensures
        line@ == cmd@ + "\n"@,
{
    joined(cmd, "\n")
}

/// The outcome of a dispatch, from the compositor's answer: a failure when the
/// answer mentions `error`.
pub fn dispatch_outcome(response: &str) -> (res: Result<(), ServiceError>)
    ensures
        res is Ok <==> !contains_text(response@, "error"@),
        res matches Err(e) ==> e matches ServiceError::DispatchFailed(r) && r@ == response@,
{
    if contains(response, "error") {
        Err(ServiceError::DispatchFailed(String::from_str(response)))
    } else {
        Ok(())
    }
}

/// The focused client from a `focusing-client` answer: the compositor answers
/// with a client without an id when nothing is focused.
pub fn focused_client(client: MangoClient) -> (res: Option<MangoClient>)
    ensures
        res is Some <==> client.id is Some,
        res matches Some(c) ==> c == client,
{
    match client.id {
        Some(_) => Some(client),
        None => None,
    }
}

/// Whether a line of a subscription is skipped: one with white space only
/// carries no event.
pub fn skips_line(line: &str) -> (res: bool)
    ensures
        res == is_blank_text(line@),
{
    is_blank(line)
}

} // verus!
