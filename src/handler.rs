use vstd::prelude::*;
use crate::error::{error_text, KVStoreError};
use crate::kv_store::KVStore;
use crate::messages::{Request, Response};
use crate::record::{record_line, valid_field};

verus! {

/// The largest message, in bytes, that the transport carries.
pub const MAX_MSG_SIZE: usize = 1024;

/// The length of a received message, from the byte count that the transport
/// reported: none where the count says the peer is gone or the transport
/// failed (zero or less), or is more than a message can hold.
pub fn message_len(size: i64) -> (r: Option<usize>)
    ensures
        0 < size <= MAX_MSG_SIZE ==> r == Some(size as usize),
        !(0 < size <= MAX_MSG_SIZE) ==> r is None,
{
    if size > 0 && size <= MAX_MSG_SIZE as i64 {
        Some(size as usize)
    } else {
        None
    }
}

/// Where a connection stands in serving one request.
#[derive(Debug, Clone, Copy, PartialEq, Eq, Structural)]
pub enum Phase {
    /// Waiting for the next message from the peer.
    AwaitMessage,
    /// A message has arrived and is being decoded.
    Decoding,
    /// A write was applied; its record is being appended to the log.
    Appending,
    /// The reply is being encoded and sent.
    Sending,
    /// The connection is over.
    Closed,
}

/// What the outside world reports back to a connection.
#[derive(Debug)]
pub enum Event {
    /// The transport's byte count for the message received into the buffer.
    Received(i64),
    /// The decoded request, or none where the bytes were no request.
    Decoded(Option<Request>),
    /// The result of appending and flushing the record.
    Appended(Result<(), KVStoreError>),
    /// The reply could not be encoded.
    EncodeFailed,
    /// Whether the reply was sent.
    Sent(bool),
}

/// What a connection asks the outside world to do next.
#[derive(Debug)]
pub enum Action {
    /// Wait for the next message.
    Receive,
    /// Decode the first so many bytes of the buffer as a request.
    Decode(usize),
    /// Append this record to the log and flush it.
    Append(String),
    /// Encode and send this reply.
    Send(Response),
    /// End the connection.
    Stop,
}

/// The reply owed to a read of `key` from a store holding `m`.
pub open spec fn read_reply(m: Map<Seq<char>, Seq<char>>, key: Seq<char>, r: Response) -> bool {
    if m.contains_key(key) {
        r matches Response::Value(v) && v@ == m[key]
    } else {
        r is NotFound
    }
}

/// The phase that follows `phase` on `event`.
pub open spec fn next_phase(phase: Phase, event: Event) -> Phase {
    match (phase, event) {
        (Phase::AwaitMessage, Event::Received(n)) => if 0 < n <= MAX_MSG_SIZE {
            Phase::Decoding
        } else {
            Phase::Closed
        },
        (Phase::Decoding, Event::Decoded(None)) => Phase::AwaitMessage,
        (Phase::Decoding, Event::Decoded(Some(Request::Read { .. }))) => Phase::Sending,
        (Phase::Decoding, Event::Decoded(Some(Request::Write { key, value }))) => if valid_field(
            key@,
        ) && valid_field(value@) {
            Phase::Appending
        } else {
            Phase::Sending
        },
        (Phase::Appending, Event::Appended(_)) => Phase::Sending,
        (Phase::Sending, Event::Sent(true)) => Phase::AwaitMessage,
        (Phase::Sending, Event::EncodeFailed) => Phase::AwaitMessage,
        _ => Phase::Closed,
    }
}

/// Malformed messages: a message that cannot be decoded is dropped without a
/// reply and without ending the connection, which waits for the next message;
/// a request that arrives then is served like any other, and a reply sent for
/// it brings the connection back to waiting.
pub proof fn lemma_malformed_message_resilience(n: i64, m: i64, req: Request)
    requires
        0 < n <= MAX_MSG_SIZE,
        0 < m <= MAX_MSG_SIZE,
    ensures
        next_phase(Phase::AwaitMessage, Event::Received(n)) == Phase::Decoding,
        next_phase(Phase::Decoding, Event::Decoded(None)) == Phase::AwaitMessage,
        next_phase(Phase::AwaitMessage, Event::Received(m)) == Phase::Decoding,
        next_phase(Phase::Decoding, Event::Decoded(Some(req))) == Phase::Sending || next_phase(
            Phase::Decoding,
            Event::Decoded(Some(req)),
        ) == Phase::Appending,
        next_phase(Phase::Appending, Event::Appended(Ok(()))) == Phase::Sending,
        next_phase(Phase::Sending, Event::Sent(true)) == Phase::AwaitMessage,
{
}

/// One connection's serving loop, as a state machine: each event moves it to
/// its next phase and names the next action. Requests are served one at a
/// time, in the order in which they arrive.
pub struct Connection {
    phase: Phase,
}

impl View for Connection {
    type V = Phase;

    closed spec fn view(&self) -> Phase {
        self.phase
    }
}

impl Connection {
    /// A connection that waits for its first message.
    pub fn new() -> (r: Connection)
        ensures
            r@ == Phase::AwaitMessage,
    {
        Connection { phase: Phase::AwaitMessage }
    }

    /// The connection's current phase.
    pub fn phase(&self) -> (r: Phase)
        ensures
            r == self@,
    {
        self.phase
    }

    /// Takes the next event: decides the next phase and action, and applies a
    /// decoded request to the store. An event that the phase does not expect
    /// ends the connection.
    pub fn step(&mut self, store: &mut KVStore, event: Event) -> (action: Action)
        requires
            old(store).wf(),
        ensures
            final(store).wf(),
            final(self)@ == next_phase(old(self)@, event),
            match (old(self)@, event) {
                (Phase::AwaitMessage, Event::Received(n)) => if 0 < n <= MAX_MSG_SIZE {
                    final(self)@ == Phase::Decoding && (action matches Action::Decode(len)
                        && len == n)
                } else {
                    final(self)@ == Phase::Closed && action is Stop
                },
                (Phase::Decoding, Event::Decoded(None)) => final(self)@ == Phase::AwaitMessage
                    && action is Receive,
                (Phase::Decoding, Event::Decoded(Some(Request::Read { key }))) => final(self)@
                    == Phase::Sending && (action matches Action::Send(r) && read_reply(
                    old(store)@,
                    key@,
                    r,
                )),
                (Phase::Decoding, Event::Decoded(Some(Request::Write { key, value }))) => if valid_field(
                    key@,
                ) && valid_field(value@) {
                    final(self)@ == Phase::Appending && final(store)@ == old(store)@.insert(
                        key@,
                        value@,
                    ) && (action matches Action::Append(rec) && rec@ == record_line(key@, value@)
                        + seq!['\n'])
                } else {
                    final(self)@ == Phase::Sending && (action matches Action::Send(
                        Response::Error(m),
                    ) && exists|e: KVStoreError| e is Validation && m@ == error_text(e))
                },
                (Phase::Appending, Event::Appended(Ok(()))) => final(self)@ == Phase::Sending
                    && (action matches Action::Send(r) && r is Done),
                (Phase::Appending, Event::Appended(Err(e))) => final(self)@ == Phase::Sending
                    && (action matches Action::Send(Response::Error(m)) && m@ == error_text(e)),
                (Phase::Sending, Event::Sent(true)) => final(self)@ == Phase::AwaitMessage
                    && action is Receive,
                (Phase::Sending, Event::EncodeFailed) => final(self)@ == Phase::AwaitMessage
                    && action is Receive,
                _ => final(self)@ == Phase::Closed && action is Stop,
            },
            !(old(self)@ == Phase::Decoding && event matches Event::Decoded(
                Some(Request::Write { .. }),
            )) ==> final(store)@ == old(store)@,
    {
        let phase = self.phase;
        match (phase, event) {
            (Phase::AwaitMessage, Event::Received(n)) => match message_len(n) {
                Some(len) => {
                    self.phase = Phase::Decoding;
                    Action::Decode(len)
                },
                None => {
                    self.phase = Phase::Closed;
                    Action::Stop
                },
            },
            (Phase::Decoding, Event::Decoded(None)) => {
                self.phase = Phase::AwaitMessage;
                Action::Receive
            },
            (Phase::Decoding, Event::Decoded(Some(Request::Read { key }))) => {
                self.phase = Phase::Sending;
                match store.read(key.as_str()) {
                    Some(v) => Action::Send(Response::Value(v)),
                    None => Action::Send(Response::NotFound),
                }
            },
            (Phase::Decoding, Event::Decoded(Some(Request::Write { key, value }))) => {
                match store.write(key.as_str(), value.as_str()) {
                    Ok(rec) => {
                        self.phase = Phase::Appending;
                        Action::Append(rec)
                    },
                    Err(e) => {
                        self.phase = Phase::Sending;
                        let m = e.message();
                        Action::Send(Response::Error(m))
                    },
                }
            },
            (Phase::Appending, Event::Appended(Ok(()))) => {
                self.phase = Phase::Sending;
                Action::Send(Response::Done)
            },
            (Phase::Appending, Event::Appended(Err(e))) => {
                self.phase = Phase::Sending;
                Action::Send(Response::Error(e.message()))
            },
            (Phase::Sending, Event::Sent(true)) => {
                self.phase = Phase::AwaitMessage;
                Action::Receive
            },
            (Phase::Sending, Event::EncodeFailed) => {
                self.phase = Phase::AwaitMessage;
                Action::Receive
            },
            _ => {
                self.phase = Phase::Closed;
                Action::Stop
            },
        }
    }
}

} // verus!
