use relay_queue::gate::{classify, GateDecision, InboundEvent};

const AUTHORIZED: i64 = 777;

fn message(
    chat: i64,
    message_id: i32,
    text: Option<&str>,
    audio: Option<&str>,
    sender_name: Option<&str>,
) -> InboundEvent {
    InboundEvent::Message {
        chat,
        message_id,
        text: text.map(|s| s.to_owned()),
        audio: audio.map(|s| s.to_owned()),
        sender_name: sender_name.map(|s| s.to_owned()),
    }
}

#[test]
fn non_message_events_are_ignored() {
    let d = classify(InboundEvent::NotMessage, AUTHORIZED);
    assert!(matches!(d, GateDecision::Ignore));
}

#[test]
fn unauthorized_sender_is_rejected_without_deletion() {
    let d = classify(message(42, 1, None, Some("file"), Some("mallory")), AUTHORIZED);
    match d {
        GateDecision::Reject { chat, sender_name } => {
            assert_eq!(chat, 42);
            assert_eq!(sender_name.as_deref(), Some("mallory"));
        }
        _ => panic!("expected a rejection"),
    }
}

#[test]
fn unauthorized_command_is_still_rejected() {
    let d = classify(message(42, 1, Some("/start"), None, None), AUTHORIZED);
    assert!(matches!(d, GateDecision::Reject { chat: 42, .. }));
}

#[test]
fn recognized_command_bypasses_queue() {
    let d = classify(message(AUTHORIZED, 9, Some("/start"), None, None), AUTHORIZED);
    assert!(matches!(d, GateDecision::Command));
}

#[test]
fn command_must_match_exactly() {
    let d = classify(message(AUTHORIZED, 9, Some("/start now"), None, None), AUTHORIZED);
    assert!(matches!(d, GateDecision::Discard));
}

#[test]
fn authorized_audio_is_enqueued_under_message_id() {
    let d = classify(
        message(AUTHORIZED, 31, None, Some("audio-ref-7"), None),
        AUTHORIZED,
    );
    match d {
        GateDecision::Enqueue { content, key } => {
            assert_eq!(content, "audio-ref-7");
            assert_eq!(key, 31);
        }
        _ => panic!("expected the attachment to be queued"),
    }
}

#[test]
fn non_command_text_with_audio_is_enqueued() {
    let d = classify(
        message(AUTHORIZED, 5, Some("a caption"), Some("ref"), None),
        AUTHORIZED,
    );
    assert!(matches!(d, GateDecision::Enqueue { key: 5, .. }));
}

#[test]
fn authorized_plain_message_is_only_discarded() {
    let d = classify(message(AUTHORIZED, 2, Some("hello"), None, None), AUTHORIZED);
    assert!(matches!(d, GateDecision::Discard));
}
