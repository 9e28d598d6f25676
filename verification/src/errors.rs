//! What can go wrong with a session.
use vstd::prelude::*;
use vstd::string::*;
use crate::text::Text;

verus! {

/// Why a request was refused.
#[derive(Clone, Copy, Debug, PartialEq, Eq, Structural)]
pub enum SessionError {
    /// A session on another machine was asked for without saying which.
    MissingSshTarget,
    /// A remembered session on another machine does not say which.
    MissingPersistedTarget,
    /// A remembered control session on another machine does not say which.
    MissingPersistedControlTarget,
    /// An id that cannot name a transfer.
    InvalidTransferId,
    /// A piece of an upload that is not base64 text.
    InvalidUploadChunk,
    /// The terminal takes no more input.
    InputClosed,
    /// No session has the id.
    NotFound,
    /// A session that is not remembered cannot be reconnected.
    NotReconnectable,
}

impl SessionError {
    /// The message for the user.
    pub open spec fn text(self) -> Text {
        match self {
            SessionError::MissingSshTarget => "ssh target is required"@,
            SessionError::MissingPersistedTarget => "persisted ssh session is missing ssh target"@,
            SessionError::MissingPersistedControlTarget =>
                "persisted ssh control session is missing ssh target"@,
            SessionError::InvalidTransferId => "invalid file transfer id"@,
            SessionError::InvalidUploadChunk => "file upload chunk is not valid base64 text"@,
            SessionError::InputClosed => "terminal input channel is closed"@,
            SessionError::NotFound => "session not found"@,
            SessionError::NotReconnectable => "session is not reconnectable"@,
        }
    }

    /// The message for the user.
    pub fn message(&self) -> (res: String)
        ensures
            res@ == self.text(),
    {
        match self {
            SessionError::MissingSshTarget => "ssh target is required".to_string(),
            SessionError::MissingPersistedTarget =>
                "persisted ssh session is missing ssh target".to_string(),
            SessionError::MissingPersistedControlTarget =>
                "persisted ssh control session is missing ssh target".to_string(),
            SessionError::InvalidTransferId => "invalid file transfer id".to_string(),
            SessionError::InvalidUploadChunk =>
                "file upload chunk is not valid base64 text".to_string(),
            SessionError::InputClosed => "terminal input channel is closed".to_string(),
            SessionError::NotFound => "session not found".to_string(),
            SessionError::NotReconnectable => "session is not reconnectable".to_string(),
        }
    }
}

} // verus!
