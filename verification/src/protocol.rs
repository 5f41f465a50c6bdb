//! Decision logic of the server's per-connection receive thread and
//! of the client's duplex loop.
//!
//! The surrounding process performs the socket and console I/O and
//! hands each observed event to these functions; they decide what
//! happens next. Every per-connection failure is terminal for that
//! connection alone.

use crate::codec::{decode, decoded_text};
use crate::registry::Message;
use vstd::prelude::*;
use vstd::string::StringExecFns;

verus! {

/// What a receive thread observed on its non-blocking socket.
pub enum ReadEvent {
    /// A zero-length read: the peer closed the connection.
    Closed,
    /// One full frame was read.
    Data(Vec<u8>),
    /// No data was available yet.
    WouldBlock,
    /// The read failed.
    Failed,
}

/// What the server's receive thread does next.
pub enum ReadStep {
    /// Hand this message to the dispatcher, then keep reading.
    Deliver(Message),
    /// Nothing happened; keep reading.
    Continue,
    /// Stop this thread and abandon the connection.
    Stop,
}

/// One step of the server's per-connection receive thread: a closed
/// or failed read stops the thread; a frame that decodes becomes a
/// message tagged with this connection's identity; a frame that does
/// not decode stops the thread, the message dropped.
pub fn handle_read_event(event: ReadEvent, identity: &String) -> (r: ReadStep)
    ensures
        event is Closed ==> r is Stop,
        event is Failed ==> r is Stop,
        event is WouldBlock ==> r is Continue,
        event matches ReadEvent::Data(frame) ==> match decoded_text(frame@) {
            Some(text) => r matches ReadStep::Deliver(m) && m.content@ == text && m.origin@
                == identity@,
            None => r is Stop,
        },
{
    match event {
        ReadEvent::Closed => ReadStep::Stop,
        ReadEvent::Failed => ReadStep::Stop,
        ReadEvent::WouldBlock => ReadStep::Continue,
        ReadEvent::Data(frame) => match decode(frame.as_slice()) {
            Ok(content) => ReadStep::Deliver(Message { content, origin: identity.clone() }),
            Err(_) => ReadStep::Stop,
        },
    }
}

/// What the client's receive thread does with one frame read from the
/// server.
pub enum ClientStep {
    /// Show this text on the console.
    Display(String),
    /// Treat the connection as lost and stop.
    Disconnect,
}

/// One step of the client's receive thread: a frame that decodes is
/// displayed; one that does not ends the connection.
pub fn handle_server_frame(frame: &[u8]) -> (r: ClientStep)
    ensures
        match decoded_text(frame@) {
            Some(text) => r matches ClientStep::Display(s) && s@ == text,
            None => r is Disconnect,
        },
{
    match decode(frame) {
        Ok(text) => ClientStep::Display(text),
        Err(_) => ClientStep::Disconnect,
    }
}

/// What the client's input thread does with one line the user typed.
pub enum InputAction {
    /// Queue this line for sending to the server.
    Send(String),
    /// Stop: the user asked to leave.
    Quit,
}

/// Decides what to do with one already-trimmed line of user input:
/// the literal token `exit` ends the input loop; anything else is
/// queued for sending.
pub fn input_action(line: String) -> (r: InputAction)
    ensures
        line@ == "exit"@ ==> r is Quit,
        line@ != "exit"@ ==> (r matches InputAction::Send(s) && s@ == line@),
{
    let exit_token = String::from_str("exit");
    if line == exit_token {
        InputAction::Quit
    } else {
        InputAction::Send(line)
    }
}

} // verus!
