use rust_slack_bot::dispatch::{
    ack_frame_text, recover_envelope_id, ConnectionState, Dispatcher, InboundFrame, PayloadEvent,
};
use rust_slack_bot::config::Config;
use rust_slack_bot::executor::Executors;

fn connected_dispatcher() -> Dispatcher {
    let registry = Executors::new(vec![("echo".to_string(), "echo {{payload}}".to_string())]);
    let mut dispatcher = Dispatcher::new(registry);
    assert_eq!(dispatcher.state, ConnectionState::Disconnected);
    dispatcher.begin_connect();
    assert_eq!(dispatcher.state, ConnectionState::Connecting);
    dispatcher.handshake_complete();
    assert_eq!(dispatcher.state, ConnectionState::Connected);
    dispatcher
}

#[test]
fn channel_message_is_run_replied_to_and_acked() {
    let dispatcher = connected_dispatcher();
    let frame = InboundFrame::NormalMessage {
        envelope_id: "env-1".to_string(),
        event: PayloadEvent::ChannelMessageSent {
            text: "```# executor: echo\nhi```".to_string(),
            ts: "123.456".to_string(),
        },
    };
    let outcome = dispatcher.handle_frame(frame);
    assert_eq!(outcome.ack, Some("env-1".to_string()));
    assert_eq!(outcome.reply_thread, Some("123.456".to_string()));
    let result = outcome.executed.unwrap().unwrap();
    assert_eq!(result.stdout, "hi\n");
}

#[test]
fn mention_is_run_even_when_execution_fails() {
    let dispatcher = connected_dispatcher();
    let frame = InboundFrame::NormalMessage {
        envelope_id: "env-2".to_string(),
        event: PayloadEvent::AppMention {
            text: "no code block".to_string(),
            ts: "1.2".to_string(),
        },
    };
    let outcome = dispatcher.handle_frame(frame);
    // the acknowledgement and the reply are owed regardless of the failure
    assert_eq!(outcome.ack, Some("env-2".to_string()));
    assert_eq!(outcome.reply_thread, Some("1.2".to_string()));
    assert!(outcome.executed.unwrap().is_err());
}

#[test]
fn reaction_update_is_acked_but_never_run() {
    let dispatcher = connected_dispatcher();
    let frame = InboundFrame::NormalMessage {
        envelope_id: "env-3".to_string(),
        event: PayloadEvent::ReactionUpdated {
            kind: "reaction_added".to_string(),
            reaction: "sushi".to_string(),
        },
    };
    let outcome = dispatcher.handle_frame(frame);
    assert_eq!(outcome.ack, Some("env-3".to_string()));
    assert!(outcome.executed.is_none());
    assert!(outcome.reply_thread.is_none());
}

#[test]
fn thread_reply_and_unrecognized_events_are_acked_only() {
    let dispatcher = connected_dispatcher();
    for event in [
        PayloadEvent::ThreadReply,
        PayloadEvent::ChannelMessageDeleted,
        PayloadEvent::Unrecognized,
    ] {
        let frame = InboundFrame::NormalMessage {
            envelope_id: "env-4".to_string(),
            event,
        };
        let outcome = dispatcher.handle_frame(frame);
        assert_eq!(outcome.ack, Some("env-4".to_string()));
        assert!(outcome.executed.is_none());
        assert!(outcome.reply_thread.is_none());
    }
}

#[test]
fn keep_alive_and_hello_frames_are_not_acked() {
    let dispatcher = connected_dispatcher();
    for frame in [InboundFrame::Ping, InboundFrame::Hello] {
        let outcome = dispatcher.handle_frame(frame);
        assert!(outcome.ack.is_none());
        assert!(outcome.executed.is_none());
        assert!(outcome.reply_thread.is_none());
    }
}

#[test]
fn acking_the_same_envelope_twice_is_safe() {
    let dispatcher = connected_dispatcher();
    let frame = InboundFrame::NormalMessage {
        envelope_id: "env-5".to_string(),
        event: PayloadEvent::ThreadReply,
    };
    let first = dispatcher.handle_frame(frame.clone());
    let second = dispatcher.handle_frame(frame);
    assert_eq!(first.ack, second.ack);
    assert_eq!(ack_frame_text("env-5"), ack_frame_text("env-5"));
    // the dispatcher keeps no acknowledgement state and the registry is intact
    assert_eq!(dispatcher.state, ConnectionState::Connected);
    assert!(dispatcher.executors.lookup("echo").is_some());
}

#[test]
fn malformed_frame_with_recoverable_envelope_is_still_acked_once() {
    let dispatcher = connected_dispatcher();
    let raw = "{\"envelope_id\": \"abc-123\", \"payload\": [not json";
    let recovered = recover_envelope_id(raw);
    assert_eq!(recovered, Some("abc-123".to_string()));
    let outcome = dispatcher.handle_frame(InboundFrame::Malformed { envelope_id: recovered });
    assert_eq!(outcome.ack, Some("abc-123".to_string()));
    assert!(outcome.executed.is_none());
    // the loop goes on: the dispatcher still handles the next frame
    assert_eq!(dispatcher.state, ConnectionState::Connected);
    let next = dispatcher.handle_frame(InboundFrame::Ping);
    assert!(next.ack.is_none());
}

#[test]
fn malformed_frame_without_envelope_is_not_acked() {
    let dispatcher = connected_dispatcher();
    let outcome = dispatcher.handle_frame(InboundFrame::Malformed { envelope_id: None });
    assert!(outcome.ack.is_none());
    assert!(outcome.executed.is_none());
}

#[test]
fn connection_lost_closes_the_session() {
    let mut dispatcher = connected_dispatcher();
    dispatcher.connection_lost();
    assert_eq!(dispatcher.state, ConnectionState::Closed);
}

#[test]
fn ack_frame_is_a_one_field_json_object() {
    assert_eq!(ack_frame_text("abc-123"), "{\"envelope_id\":\"abc-123\"}");
    assert_eq!(ack_frame_text(""), "{\"envelope_id\":\"\"}");
}

#[test]
fn ack_frame_escapes_the_envelope_id() {
    assert_eq!(ack_frame_text("a\"b"), "{\"envelope_id\":\"a\\\"b\"}");
    assert_eq!(ack_frame_text("a\\b"), "{\"envelope_id\":\"a\\\\b\"}");
    assert_eq!(ack_frame_text("a\nb\tc"), "{\"envelope_id\":\"a\\nb\\tc\"}");
    assert_eq!(ack_frame_text("\u{1}"), "{\"envelope_id\":\"\\u0001\"}");
    assert_eq!(ack_frame_text("\u{1f}"), "{\"envelope_id\":\"\\u001f\"}");
}

#[test]
fn recover_handles_whitespace_and_misses() {
    assert_eq!(
        recover_envelope_id("{ \"envelope_id\"   :   \"x-1\" }"),
        Some("x-1".to_string())
    );
    assert_eq!(recover_envelope_id("{\"envelope_id\":\"\"}"), Some("".to_string()));
    assert_eq!(recover_envelope_id("{\"other\": 1}"), None);
    assert_eq!(recover_envelope_id("{\"envelope_id\": 17}"), None);
    assert_eq!(recover_envelope_id("{\"envelope_id\": \"unterminated"), None);
}

#[test]
fn default_config_holds_placeholder_tokens() {
    let config = Config::default();
    assert_eq!(config.slack.secret.app_token, "xapp-xxxxx");
    assert_eq!(config.slack.secret.bot_token, "xoxb-xxxxx");
}
