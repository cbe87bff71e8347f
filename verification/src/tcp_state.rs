//! The derived lifecycle states of the connection, sender and receiver,
//! and the error values a reset connection reports.

use vstd::prelude::*;

verus! {

#[derive(Debug, Clone, Copy, PartialEq, Eq, Structural)]
pub enum TCPConnectionError {
    ReceiverError,
    SenderError,
    UnknownConnectionState,
}

impl TCPConnectionError {
    /// A short description of the error.
    pub fn as_string(&self) -> (r: String)
        ensures
            *self is ReceiverError ==> r@ == "Receiver error. (connection reset by peer)"@,
            *self is SenderError ==> r@ == "Sender error. (connection reset by peer)"@,
            *self is UnknownConnectionState ==> r@ == "Unknown connection state"@,
    {
        match self {
            TCPConnectionError::ReceiverError => "Receiver error. (connection reset by peer)".to_owned(),
            TCPConnectionError::SenderError => "Sender error. (connection reset by peer)".to_owned(),
            TCPConnectionError::UnknownConnectionState => "Unknown connection state".to_owned(),
        }
    }
}

#[derive(Debug, Default, Clone, Copy, PartialEq, Eq, Structural)]
pub enum TCPState {
    #[default]
    Listen,
    SynSent,
    SynRcvd,
    Established,
    FinWait1,
    FinWait2,
    Closing,
    CloseWait,
    LastAck,
    TimeWait,
    Closed,
    Reset,
}

#[derive(Debug, Default, Clone, Copy, PartialEq, Eq, Structural)]
pub enum SenderState {
    #[default]
    Closed,
    SynSent,
    SynAcked,
    FinSent,
    FinAcked,
}

#[derive(Debug, Default, Clone, Copy, PartialEq, Eq, Structural)]
pub enum ReceiverState {
    #[default]
    Listen,
    SynRcvd,
    FinRcvd,
}

} // verus!
