use vstd::prelude::*;

use crate::wire::{frame_of, FrameError, MSG_TYPE_BYTES};
use crate::wire::{copy_range, encode_frame};

verus! {

/// Messages sent from a client to the daemon.
#[derive(Debug, Clone)]
pub enum ClientMessage {
    /// Register a new client connection.
    RegisterClient { client_id: u128 },
    /// Create a new terminal session and attach the sender to it.
    RegisterAndCreateSession {
        session_id: u128,
        shell: String,
        working_directory: Option<String>,
    },
    /// Attach a client to an existing session.
    AttachToSession { session_id: u128, client_id: u128 },
    /// Detach a client from a session.
    DetachFromSession { session_id: u128, client_id: u128 },
    /// Send input to a session (raw-bytes frames are preferred).
    SendInput { session_id: u128, data: Vec<u8> },
    /// Resize a session's terminal.
    ResizeSession { session_id: u128, cols: u16, rows: u16 },
    /// Read one pending chunk of a session's output.
    ReadOutput { session_id: u128 },
    /// Request the list of sessions.
    ListSessions,
    /// Terminate a session.
    TerminateSession { session_id: u128 },
    /// The client is disconnecting.
    Disconnect { client_id: u128 },
}

/// Messages sent from the daemon to a client.
#[derive(Debug, Clone)]
pub enum DaemonMessage {
    ClientRegistered { client_id: u128 },
    SessionCreated { session_id: u128 },
    SessionOutput { session_id: u128, data: Vec<u8> },
    SessionTerminated { session_id: u128 },
    SessionList { sessions: Vec<SessionInfo> },
    Error { message: String },
}

/// A control message in either direction.
#[derive(Debug, Clone)]
pub enum JsonMessage {
    Client(ClientMessage),
    Daemon(DaemonMessage),
}

/// What the daemon reports of one session.
#[derive(Debug, Clone)]
pub struct SessionInfo {
    pub id: u128,
    pub shell: String,
    pub working_directory: Option<String>,
    pub attached_clients: Vec<u128>,
    pub created_at: u64,
    pub last_activity: u64,
}

/// Terminal input or output carried by a raw-bytes frame.
#[derive(Debug, Clone)]
pub struct TerminalData {
    pub data: Vec<u8>,
}

impl TerminalData {
    pub fn new(data: Vec<u8>) -> (r: Self)
        ensures
            r.data@ == data@,
    {
        TerminalData { data }
    }

    /// Serializes the data as a raw-bytes frame with its length prefix.
    pub fn to_protocol_bytes(&self) -> (r: Vec<u8>)
        requires
            self.data@.len() < u32::MAX,
        ensures
            r@ == frame_of(MSG_TYPE_BYTES, self.data@),
    {
        encode_frame(MSG_TYPE_BYTES, self.data.as_slice())
    }

    /// Reads terminal data from the body of a raw-bytes frame (type tag, then payload).
    pub fn from_protocol_bytes(data: &[u8]) -> (r: Result<Self, FrameError>)
        ensures
            data@.len() == 0 ==> r == Err::<Self, FrameError>(FrameError::Empty),
            data@.len() > 0 && data@[0] != MSG_TYPE_BYTES ==> r == Err::<Self, FrameError>(
                FrameError::UnknownType(data@[0]),
            ),
            data@.len() > 0 && data@[0] == MSG_TYPE_BYTES ==> r is Ok && r->Ok_0.data@
                == data@.subrange(1, data@.len() as int),
    {
        if data.len() == 0 {
            return Err(FrameError::Empty);
        }
        if data[0] != MSG_TYPE_BYTES {
            return Err(FrameError::UnknownType(data[0]));
        }
        Ok(TerminalData { data: copy_range(data, 1, data.len()) })
    }
}

} // verus!
