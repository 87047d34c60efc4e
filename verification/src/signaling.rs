//! The WebRTC signaling protocol: clients register under an id, then send
//! offers, answers and ICE candidates, which the relay stamps with the
//! sender's id and passes on.
use vstd::prelude::*;
use vstd::string::*;
use crate::text::str_eq;

verus! {

/// The first message of a client: `{ "event": "register", "id": ... }`.
pub struct RegisterMessage {
    pub event: String,
    pub id: String,
}

/// A signal: `{ "event": "offer" | "answer" | "ice-candidate", "id": ..., "data": ... }`.
pub struct SignalMessage {
    pub event: String,
    pub id: String,
    pub data: String,
}

/// The kinds of signal that are relayed.
#[derive(PartialEq, Eq, Structural, Debug, Clone, Copy)]
pub enum SignalKind {
    Offer,
    Answer,
    IceCandidate,
}

/// Why a client could not send a signal.
#[derive(PartialEq, Eq, Structural, Debug, Clone, Copy)]
pub enum SendError {
    /// The connection is not open yet (or no longer).
    NotOpen,
}

/// The ready state of an open WebSocket.
pub const OPEN: u16 = 1;

/// The event name of each kind of signal.
pub open spec fn event_of_kind(k: SignalKind) -> Seq<char> {
    match k {
        SignalKind::Offer => "offer"@,
        SignalKind::Answer => "answer"@,
        SignalKind::IceCandidate => "ice-candidate"@,
    }
}

/// The kind of signal an event name stands for, if any.
pub open spec fn kind_of_event(e: Seq<char>) -> Option<SignalKind> {
    if e == "offer"@ {
        Some(SignalKind::Offer)
    } else if e == "answer"@ {
        Some(SignalKind::Answer)
    } else if e == "ice-candidate"@ {
        Some(SignalKind::IceCandidate)
    } else {
        None
    }
}

/// The event name of a kind of signal.
pub fn event_name(kind: SignalKind) -> (r: &'static str)
    ensures
        r@ == event_of_kind(kind),
{
    match kind {
        SignalKind::Offer => "offer",
        SignalKind::Answer => "answer",
        SignalKind::IceCandidate => "ice-candidate",
    }
}

/// The kind of signal an event name stands for, if any.
pub fn signal_kind(event: &str) -> (r: Option<SignalKind>)
    ensures
        r == kind_of_event(event@),
{
    if str_eq(event, "offer") {
        Some(SignalKind::Offer)
    } else if str_eq(event, "answer") {
        Some(SignalKind::Answer)
    } else if str_eq(event, "ice-candidate") {
        Some(SignalKind::IceCandidate)
    } else {
        None
    }
}

/// The registration message a client sends once connected.
pub fn register_message(id: &str) -> (m: RegisterMessage)
    ensures
        m.event@ == "register"@,
        m.id@ == id@,
{
    RegisterMessage { event: "register".to_owned(), id: id.to_owned() }
}

/// The id a registration message registers: its id, when its event is
/// `register` and the id is not empty.
pub fn registered_id(msg: &RegisterMessage) -> (r: Option<String>)
    ensures
        msg.event@ == "register"@ && msg.id@.len() > 0 ==> (r matches Some(id) && id@
            == msg.id@),
        !(msg.event@ == "register"@ && msg.id@.len() > 0) ==> r is None,
{
    if str_eq(msg.event.as_str(), "register") && !msg.id.as_str().is_empty() {
        Some(msg.id.clone())
    } else {
        None
    }
}

/// What the relay passes on of a signal from `sender`: a signal of a relayed
/// kind, with its id replaced by the sender's, whatever the client wrote there.
pub fn relay_signal(sig: SignalMessage, sender: &str) -> (r: Option<SignalMessage>)
    ensures
        kind_of_event(sig.event@) is Some ==> (r matches Some(m) && m.event@ == sig.event@
            && m.id@ == sender@ && m.data@ == sig.data@),
        kind_of_event(sig.event@) is None ==> r is None,
{
    match signal_kind(sig.event.as_str()) {
        Some(_) => {
            let mut sig = sig;
            sig.id = sender.to_owned();
            Some(sig)
        },
        None => None,
    }
}

/// The signal a client sends: refused unless the connection is open.
pub fn outgoing_signal(ready_state: u16, kind: SignalKind, client_id: &str, data: &str) -> (r:
    Result<SignalMessage, SendError>)
    ensures
        ready_state != OPEN ==> r == Err::<SignalMessage, SendError>(SendError::NotOpen),
        ready_state == OPEN ==> (r matches Ok(m) && m.event@ == event_of_kind(kind) && m.id@
            == client_id@ && m.data@ == data@),
{
    if ready_state != OPEN {
        return Err(SendError::NotOpen);
    }
    Ok(SignalMessage {
        event: event_name(kind).to_owned(),
        id: client_id.to_owned(),
        data: data.to_owned(),
    })
}

/// What a connection delivers while the relay waits for it to register.
pub enum Incoming {
    /// A text message, with the registration it holds when it is one.
    Text(Option<RegisterMessage>),
    /// A close frame.
    Close,
    /// The end of the stream.
    Ended,
    /// Anything else: another kind of frame, or a transport error.
    Other,
}

/// What the relay does with what a connection delivered before registering.
pub enum Registration {
    /// The client registered under this id.
    Registered(String),
    /// The connection is gone: stop serving it.
    Disconnect,
    /// Keep waiting for a registration.
    Wait,
}

/// The relay's decision on what a connection delivered while it waits for a
/// registration: a valid registration registers the client, a close or the
/// end of the stream ends the connection, and anything else is ignored.
pub fn registration_step(msg: Incoming) -> (r: Registration)
    ensures
        match msg {
            Incoming::Text(Some(m)) => if m.event@ == "register"@ && m.id@.len() > 0 {
                r matches Registration::Registered(id) && id@ == m.id@
            } else {
                r is Wait
            },
            Incoming::Text(None) => r is Wait,
            Incoming::Close => r is Disconnect,
            Incoming::Ended => r is Disconnect,
            Incoming::Other => r is Wait,
        },
{
    match msg {
        Incoming::Text(Some(m)) => match registered_id(&m) {
            Some(id) => Registration::Registered(id),
            None => Registration::Wait,
        },
        Incoming::Text(None) => Registration::Wait,
        Incoming::Close => Registration::Disconnect,
        Incoming::Ended => Registration::Disconnect,
        Incoming::Other => Registration::Wait,
    }
}

/// Each kind's event name is recognised as that kind, so a signal a client
/// sends is relayed and dispatched under the kind it was sent as.
pub proof fn law_kind_roundtrip(k: SignalKind)
    ensures
        kind_of_event(event_of_kind(k)) == Some(k),
{
    reveal_strlit("offer");
    reveal_strlit("answer");
    reveal_strlit("ice-candidate");
    assert("offer"@[0] == 'o');
    assert("answer"@[0] == 'a');
    assert("ice-candidate"@[0] == 'i');
}

} // verus!

verus! {

/// The wire names of the signals: an offer travels as `offer`, an answer as
/// `answer` and an ICE candidate as `ice-candidate`, and these three names,
/// and no other text, are taken for signals.
pub proof fn law_wire_names(e: Seq<char>)
    ensures
        event_of_kind(SignalKind::Offer) == seq!['o', 'f', 'f', 'e', 'r'],
        event_of_kind(SignalKind::Answer) == seq!['a', 'n', 's', 'w', 'e', 'r'],
        event_of_kind(SignalKind::IceCandidate) == seq![
            'i',
            'c',
            'e',
            '-',
            'c',
            'a',
            'n',
            'd',
            'i',
            'd',
            'a',
            't',
            'e',
        ],
        kind_of_event(e) == Some(SignalKind::Offer) <==> e == seq!['o', 'f', 'f', 'e', 'r'],
        kind_of_event(e) == Some(SignalKind::Answer) <==> e == seq!['a', 'n', 's', 'w', 'e', 'r'],
        kind_of_event(e) == Some(SignalKind::IceCandidate) <==> e == seq![
            'i',
            'c',
            'e',
            '-',
            'c',
            'a',
            'n',
            'd',
            'i',
            'd',
            'a',
            't',
            'e',
        ],
{
    reveal_strlit("offer");
    reveal_strlit("answer");
    reveal_strlit("ice-candidate");
    assert("offer"@ =~= seq!['o', 'f', 'f', 'e', 'r']);
    assert("answer"@ =~= seq!['a', 'n', 's', 'w', 'e', 'r']);
    assert("ice-candidate"@ =~= seq![
        'i',
        'c',
        'e',
        '-',
        'c',
        'a',
        'n',
        'd',
        'i',
        'd',
        'a',
        't',
        'e',
    ]);
}

} // verus!
