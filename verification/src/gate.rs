//! The admission gate: classify one inbound event and decide what the
//! host must do with it.
//!
//! Only message events are processed; anything else is ignored without a
//! side effect. A message from any chat but the single authorized one is
//! answered with a rejection notice and nothing more — in particular the
//! triggering message is not deleted. An authorized message whose text
//! exactly equals the recognized command gets the canned reply and
//! bypasses the queue; one carrying an audio attachment is queued under
//! its own ordinal identifier as sequence key. On every authorized path
//! the original message is deleted afterwards.

use vstd::prelude::*;
use vstd::string::StringExecFns;

verus! {

/// One inbound event, already shape-matched out of the transport payload.
pub enum InboundEvent {
    /// An event of any kind other than a message; ignored.
    NotMessage,
    /// A message event.
    Message {
        /// Identifier of the chat the message originates from.
        chat: i64,
        /// The message's own ordinal identifier within the chat.
        message_id: i32,
        /// The message text, when it has one.
        text: Option<String>,
        /// Content reference of the audio attachment, when it carries one.
        audio: Option<String>,
        /// The originator's public name, when one is known.
        sender_name: Option<String>,
    },
}

/// What the host must do with one inbound event.
pub enum GateDecision {
    /// Not a message: no side effect at all.
    Ignore,
    /// Unauthorized originator: send a rejection notice to `chat`,
    /// identifying the sender; do not queue, do not delete.
    Reject {
        /// The chat to send the rejection notice to.
        chat: i64,
        /// The originator's public name, when one is known.
        sender_name: Option<String>,
    },
    /// Recognized command from the authorized sender: send the canned
    /// reply, then delete the original message; the queue is untouched.
    Command,
    /// Audio from the authorized sender: accept `content` into the queue
    /// under sequence key `key`, then delete the original message.
    Enqueue {
        /// Content reference of the audio payload.
        content: String,
        /// Sequence key: the originating message's ordinal identifier.
        key: i32,
    },
    /// Authorized message with neither command nor audio: only delete the
    /// original message.
    Discard,
}

/// The decision for an audio check on an authorized, non-command message.
pub open spec fn attachment_decision(audio: Option<String>, message_id: i32) -> GateDecision {
    match audio {
        Option::Some(a) => GateDecision::Enqueue { content: a, key: message_id },
        Option::None => GateDecision::Discard,
    }
}

/// What the host must do with `event`, given the authorized chat.
pub open spec fn classify_spec(event: InboundEvent, authorized: i64) -> GateDecision {
    match event {
        InboundEvent::NotMessage => GateDecision::Ignore,
        InboundEvent::Message { chat, message_id, text, audio, sender_name } => {
            if chat != authorized {
                GateDecision::Reject { chat, sender_name }
            } else {
                match text {
                    Option::Some(t) => if t@ == "/start"@ {
                        GateDecision::Command
                    } else {
                        attachment_decision(audio, message_id)
                    },
                    Option::None => attachment_decision(audio, message_id),
                }
            }
        },
    }
}

/// Classify one inbound event against the authorized chat identifier.
pub fn classify(event: InboundEvent, authorized: i64) -> (d: GateDecision)
    ensures
        d == classify_spec(event, authorized),
{
    match event {
        InboundEvent::NotMessage => GateDecision::Ignore,
        InboundEvent::Message { chat, message_id, text, audio, sender_name } => {
            if chat != authorized {
                GateDecision::Reject { chat, sender_name }
            } else {
                let is_command = match &text {
                    Option::Some(t) => {
                        let command: String = "/start".to_owned();
                        *t == command
                    },
                    Option::None => false,
                };
                if is_command {
                    GateDecision::Command
                } else {
                    match audio {
                        Option::Some(a) => GateDecision::Enqueue { content: a, key: message_id },
                        Option::None => GateDecision::Discard,
                    }
                }
            }
        },
    }
}

/// The decision queues an item.
pub open spec fn queues_item(d: GateDecision) -> bool {
    d is Enqueue
}

/// The decision has the original message deleted afterwards.
pub open spec fn deletes_original(d: GateDecision) -> bool {
    d is Command || d is Enqueue || d is Discard
}

/// The decision sends a rejection notice back to the originator.
pub open spec fn sends_rejection(d: GateDecision) -> bool {
    d is Reject
}

/// Authorization law: an event from a chat other than the authorized one
/// is answered with a rejection notice; nothing is queued, and the
/// originating message is not deleted.
pub proof fn lemma_unauthorized_rejected(event: InboundEvent, authorized: i64)
    requires
        event matches InboundEvent::Message { chat, .. } && chat != authorized,
    ensures
        sends_rejection(classify_spec(event, authorized)),
        !queues_item(classify_spec(event, authorized)),
        !deletes_original(classify_spec(event, authorized)),
{
}

/// Command-bypass law: an authorized event whose text exactly equals the
/// recognized command gets the canned reply and has the original deleted;
/// the queue is not touched.
pub proof fn lemma_command_bypasses_queue(event: InboundEvent, authorized: i64)
    requires
        event matches InboundEvent::Message { chat, text, .. } && chat == authorized && (text
            matches Option::Some(t) && t@ == "/start"@),
    ensures
        classify_spec(event, authorized) is Command,
        deletes_original(classify_spec(event, authorized)),
        !queues_item(classify_spec(event, authorized)),
{
}

/// Non-message events are complete no-ops: nothing is sent, queued or
/// deleted.
pub proof fn lemma_non_message_ignored(authorized: i64)
    ensures
        classify_spec(InboundEvent::NotMessage, authorized) == GateDecision::Ignore,
        !queues_item(classify_spec(InboundEvent::NotMessage, authorized)),
        !deletes_original(classify_spec(InboundEvent::NotMessage, authorized)),
        !sends_rejection(classify_spec(InboundEvent::NotMessage, authorized)),
{
}

} // verus!
