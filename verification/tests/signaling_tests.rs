use rustbits::signaling::{registration_step, Incoming, Registration};
use rustbits::signaling::{
    event_name, outgoing_signal, register_message, registered_id, relay_signal, signal_kind,
    RegisterMessage, SendError, SignalKind, SignalMessage,
};

#[test]
fn event_names_round_trip() {
    for k in [SignalKind::Offer, SignalKind::Answer, SignalKind::IceCandidate] {
        assert_eq!(signal_kind(event_name(k)), Some(k));
    }
    assert_eq!(event_name(SignalKind::IceCandidate), "ice-candidate");
    assert_eq!(signal_kind("register"), None);
    assert_eq!(signal_kind("Offer"), None);
}

#[test]
fn registration_needs_register_event_and_nonempty_id() {
    let ok = RegisterMessage { event: "register".to_string(), id: "alice".to_string() };
    assert_eq!(registered_id(&ok), Some("alice".to_string()));
    let no_id = RegisterMessage { event: "register".to_string(), id: String::new() };
    assert_eq!(registered_id(&no_id), None);
    let other = RegisterMessage { event: "offer".to_string(), id: "bob".to_string() };
    assert_eq!(registered_id(&other), None);
    let m = register_message("carol");
    assert_eq!((m.event.as_str(), m.id.as_str()), ("register", "carol"));
}

#[test]
fn relay_stamps_sender_id() {
    let sig = SignalMessage {
        event: "offer".to_string(),
        id: "mallory".to_string(),
        data: "sdp".to_string(),
    };
    let out = relay_signal(sig, "alice").unwrap();
    assert_eq!(out.id, "alice");
    assert_eq!(out.event, "offer");
    assert_eq!(out.data, "sdp");
    let bad = SignalMessage { event: "hack".to_string(), id: "x".to_string(), data: String::new() };
    assert!(relay_signal(bad, "alice").is_none());
}

#[test]
fn sending_requires_open_socket() {
    assert!(matches!(outgoing_signal(0, SignalKind::Offer, "a", "d"), Err(SendError::NotOpen)));
    assert!(matches!(outgoing_signal(3, SignalKind::Offer, "a", "d"), Err(SendError::NotOpen)));
    let m = outgoing_signal(1, SignalKind::Answer, "a", "d").unwrap();
    assert_eq!((m.event.as_str(), m.id.as_str(), m.data.as_str()), ("answer", "a", "d"));
}

#[test]
fn registration_step_decides_on_each_message() {
    let reg = RegisterMessage { event: "register".to_string(), id: "alice".to_string() };
    assert!(matches!(registration_step(Incoming::Text(Some(reg))), Registration::Registered(id) if id == "alice"));
    let empty = RegisterMessage { event: "register".to_string(), id: String::new() };
    assert!(matches!(registration_step(Incoming::Text(Some(empty))), Registration::Wait));
    assert!(matches!(registration_step(Incoming::Text(None)), Registration::Wait));
    assert!(matches!(registration_step(Incoming::Close), Registration::Disconnect));
    assert!(matches!(registration_step(Incoming::Ended), Registration::Disconnect));
    assert!(matches!(registration_step(Incoming::Other), Registration::Wait));
}
