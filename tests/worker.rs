use std::collections::HashMap;

use coinbase::channel::{Channel, Channels};
use coinbase::handler::Terminate;
use coinbase::response::{ErrorResponse, EventKind, ResponseMessages, SubscriptionResponse};
use coinbase::worker::{
    handle_ws_error, idle_overdue_now, may_connect_now, Action, Command, ErrorOutcome, Event, Frame,
    Phase, TransportError, Worker,
};

fn ids(v: &[&str]) -> Vec<String> {
    v.iter().map(|s| s.to_string()).collect()
}

fn subscribe(p: &[&str], c: Vec<Channel>) -> Event {
    Event::Command(Command::Subscribe { product_ids: ids(p), channels: c })
}

fn sent_text(a: Action) -> String {
    match a {
        Action::Send { text } => text,
        other => panic!("expected a send, got {:?}", other),
    }
}

/// A worker that has connected, subscribed to `p` on the ticker channel,
/// initialized its handler and is polling its queue.
fn streaming(p: &[&str]) -> Worker {
    let mut w = Worker::new(0);
    assert!(matches!(w.start(), Action::PollCommand));
    assert!(matches!(w.step(subscribe(p, vec![Channel::new(Channels::Ticker)]), 10), Action::Connect));
    let text = sent_text(w.step(Event::Connected, 20));
    assert!(text.starts_with("{\"type\":\"subscribe\""));
    assert!(matches!(w.step(Event::Sent, 30), Action::Initialize));
    assert!(matches!(w.step(Event::Handled(Ok(())), 40), Action::PollCommand));
    assert_eq!(w.phase, Phase::Streaming);
    w
}

fn error_message() -> ResponseMessages {
    ResponseMessages::Error { resp: ErrorResponse { msg: "boom".to_string(), extra: HashMap::new() } }
}

#[test]
fn overlapping_subscriptions_accumulate_without_duplicates() {
    let mut w = streaming(&["BTC-USD", "ETH-USD"]);
    let text = sent_text(w.step(subscribe(&["ETH-USD", "LTC-USD"], vec![Channel::new(Channels::Ticker), Channel::new(Channels::Level2)]), 50));
    assert_eq!(w.subscriptions.product_ids, ids(&["BTC-USD", "ETH-USD", "LTC-USD"]));
    assert_eq!(w.subscriptions.channels.len(), 2);
    assert_eq!(
        text,
        "{\"type\":\"subscribe\",\"product_ids\":[\"BTC-USD\",\"ETH-USD\",\"LTC-USD\"],\"channels\":[\"ticker\",\"level2\"]}"
    );
    assert!(matches!(w.step(Event::Sent, 60), Action::PollCommand));
}

#[test]
fn unsubscribe_removes_only_named_entries() {
    let mut w = streaming(&["BTC-USD", "ETH-USD", "LTC-USD"]);
    let unsub = Event::Command(Command::Unsubscribe {
        product_ids: ids(&["ETH-USD"]),
        channels: vec![],
    });
    let text = sent_text(w.step(unsub, 50));
    assert_eq!(text, "{\"type\":\"unsubscribe\",\"product_ids\":[\"ETH-USD\"],\"channels\":[]}");
    assert_eq!(w.subscriptions.product_ids, ids(&["BTC-USD", "LTC-USD"]));
    assert!(matches!(w.step(Event::Sent, 60), Action::PollCommand));
    // A later subscribe sends the whole remaining set.
    let text = sent_text(w.step(subscribe(&[], vec![]), 70));
    assert_eq!(
        text,
        "{\"type\":\"subscribe\",\"product_ids\":[\"BTC-USD\",\"LTC-USD\"],\"channels\":[\"ticker\"]}"
    );
}

#[test]
fn malformed_frame_is_dropped_and_next_frame_dispatched() {
    let mut w = streaming(&["BTC-USD"]);
    assert!(matches!(w.step(Event::QueueEmpty, 50), Action::Read));
    assert!(matches!(w.step(Event::Received(Frame::Text { message: None }), 60), Action::PollCommand));
    assert_eq!(w.phase, Phase::Streaming);
    assert!(matches!(w.step(Event::QueueEmpty, 70), Action::Read));
    match w.step(Event::Received(Frame::Text { message: Some(error_message()) }), 80) {
        Action::Dispatch { message } => assert_eq!(message.kind(), EventKind::Error),
        other => panic!("expected a dispatch, got {:?}", other),
    }
    assert!(matches!(w.step(Event::Handled(Ok(())), 90), Action::PollCommand));
}

#[test]
fn close_frame_reconnects_and_resubscribes_to_everything() {
    let mut w = streaming(&["BTC-USD"]);
    assert!(matches!(w.step(subscribe(&["ETH-USD"], vec![]), 50), Action::Send { .. }));
    assert!(matches!(w.step(Event::Sent, 60), Action::PollCommand));
    assert!(matches!(w.step(Event::QueueEmpty, 70), Action::Read));
    assert!(matches!(w.step(Event::Received(Frame::Close), 80), Action::Connect));
    assert_eq!(w.phase, Phase::Connecting { bootstrap: false });
    let text = sent_text(w.step(Event::Connected, 90));
    assert_eq!(
        text,
        "{\"type\":\"subscribe\",\"product_ids\":[\"BTC-USD\",\"ETH-USD\"],\"channels\":[\"ticker\"]}"
    );
    assert!(matches!(w.step(Event::Sent, 100), Action::PollCommand));
}

#[test]
fn handler_termination_ends_the_stream() {
    let mut w = streaming(&["BTC-USD"]);
    assert!(matches!(w.step(Event::QueueEmpty, 50), Action::Read));
    assert!(matches!(w.step(Event::Received(Frame::Text { message: Some(error_message()) }), 60), Action::Dispatch { .. }));
    assert!(matches!(w.step(Event::Handled(Err(Terminate)), 70), Action::Exit));
    assert_eq!(w.phase, Phase::Terminated);
    assert!(matches!(w.step(Event::QueueEmpty, 80), Action::Exit));
}

#[test]
fn ping_pong_and_binary_frames_change_nothing() {
    let mut w = streaming(&["BTC-USD"]);
    for frame in [Frame::Ping, Frame::Pong, Frame::Binary] {
        assert!(matches!(w.step(Event::QueueEmpty, 50), Action::Read));
        assert!(matches!(w.step(Event::Received(frame), 60), Action::PollCommand));
    }
    assert_eq!(w.subscriptions.product_ids, ids(&["BTC-USD"]));
}

#[test]
fn stop_terminates_while_streaming_and_before_connecting() {
    let mut w = streaming(&["BTC-USD"]);
    assert!(matches!(w.step(Event::Command(Command::Stop), 50), Action::Exit));
    let mut fresh = Worker::new(0);
    assert!(matches!(fresh.step(Event::Command(Command::Stop), 5), Action::Exit));
    assert_eq!(fresh.phase, Phase::Terminated);
}

#[test]
fn closed_queue_terminates() {
    let mut w = streaming(&["BTC-USD"]);
    assert!(matches!(w.step(Event::QueueClosed, 50), Action::Exit));
    let mut fresh = Worker::new(0);
    assert!(matches!(fresh.step(Event::QueueClosed, 5), Action::Exit));
}

#[test]
fn waiting_for_first_subscription_sleeps_and_warns_late() {
    let mut w = Worker::new(1000);
    assert!(matches!(w.step(Event::QueueEmpty, 2000), Action::Sleep { millis: 1000, idle_warning: false }));
    assert!(matches!(w.step(Event::Slept, 3000), Action::PollCommand));
    assert!(matches!(w.step(Event::QueueEmpty, 16000), Action::Sleep { millis: 1000, idle_warning: false }));
    assert!(matches!(w.step(Event::QueueEmpty, 16001), Action::Sleep { millis: 1000, idle_warning: true }));
    let unsub = Event::Command(Command::Unsubscribe { product_ids: ids(&["BTC-USD"]), channels: vec![] });
    assert!(matches!(w.step(unsub, 17000), Action::PollCommand));
    assert_eq!(w.phase, Phase::AwaitingFirstConnection);
}

#[test]
fn connect_retries_keep_half_a_second_apart() {
    let mut w = Worker::new(0);
    assert!(matches!(w.step(subscribe(&["BTC-USD"], vec![]), 100), Action::Connect));
    assert!(matches!(w.step(Event::ConnectFailed(TransportError::Io), 200), Action::Sleep { millis: 250, idle_warning: false }));
    assert_eq!(w.last_connect_ms, Some(200));
    assert!(matches!(w.step(Event::Slept, 450), Action::Sleep { millis: 250, .. }));
    assert!(matches!(w.step(Event::Slept, 700), Action::Sleep { millis: 250, .. }));
    assert!(matches!(w.step(Event::Slept, 701), Action::Connect));
    assert!(matches!(w.step(Event::ConnectFailed(TransportError::ConnectionClosed), 800), Action::Exit));
}

#[test]
fn failed_bootstrap_subscribe_is_terminal() {
    let mut w = Worker::new(0);
    assert!(matches!(w.step(subscribe(&["BTC-USD"], vec![]), 100), Action::Connect));
    assert!(matches!(w.step(Event::Connected, 200), Action::Send { .. }));
    assert!(matches!(w.step(Event::SendFailed(TransportError::Io), 300), Action::Exit));
}

#[test]
fn initialize_refusal_is_terminal() {
    let mut w = Worker::new(0);
    assert!(matches!(w.step(subscribe(&["BTC-USD"], vec![]), 100), Action::Connect));
    assert!(matches!(w.step(Event::Connected, 200), Action::Send { .. }));
    assert!(matches!(w.step(Event::Sent, 300), Action::Initialize));
    assert!(matches!(w.step(Event::Handled(Err(Terminate)), 400), Action::Exit));
}

#[test]
fn stream_errors_follow_the_classification() {
    let mut w = streaming(&["BTC-USD"]);
    assert!(matches!(w.step(Event::QueueEmpty, 50), Action::Read));
    assert!(matches!(w.step(Event::ReadFailed(TransportError::Other), 60), Action::PollCommand));
    assert!(matches!(w.step(Event::QueueEmpty, 70), Action::Read));
    assert!(matches!(w.step(Event::ReadFailed(TransportError::AlreadyClosed), 80), Action::Connect));
    assert!(matches!(w.step(Event::Connected, 90), Action::Send { .. }));
    assert!(matches!(w.step(Event::SendFailed(TransportError::Other), 95), Action::PollCommand));
    assert!(matches!(w.step(subscribe(&["ETH-USD"], vec![]), 100), Action::Send { .. }));
    assert!(matches!(w.step(Event::SendFailed(TransportError::Io), 110), Action::Connect));
    assert!(matches!(w.step(Event::Connected, 120), Action::Send { .. }));
    assert!(matches!(w.step(Event::SendFailed(TransportError::AlreadyClosed), 130), Action::Exit));
}

#[test]
fn transport_errors_are_classified() {
    assert_eq!(handle_ws_error(TransportError::ConnectionClosed), ErrorOutcome::Terminal);
    assert_eq!(handle_ws_error(TransportError::AlreadyClosed), ErrorOutcome::Reconnect);
    assert_eq!(handle_ws_error(TransportError::Io), ErrorOutcome::Reconnect);
    assert_eq!(handle_ws_error(TransportError::Other), ErrorOutcome::Continue);
}

#[test]
fn timing_rules() {
    assert!(may_connect_now(None, 0));
    assert!(!may_connect_now(Some(1000), 1500));
    assert!(may_connect_now(Some(1000), 1501));
    assert!(!may_connect_now(Some(1000), 10));
    assert!(!idle_overdue_now(0, 15000));
    assert!(idle_overdue_now(0, 15001));
    assert!(!idle_overdue_now(20000, 10));
}

#[test]
fn subscriptions_ack_is_dispatched_with_its_channels() {
    let mut w = streaming(&["BTC-USD"]);
    assert!(matches!(w.step(Event::QueueEmpty, 50), Action::Read));
    let ack = ResponseMessages::Subscriptions {
        resp: SubscriptionResponse { channels: vec![Channel::new(Channels::Ticker)] },
    };
    match w.step(Event::Received(Frame::Text { message: Some(ack) }), 60) {
        Action::Dispatch { message: ResponseMessages::Subscriptions { resp } } => {
            assert!(resp.channels[0] == Channel::new(Channels::Ticker))
        },
        other => panic!("expected the ack, got {:?}", other),
    }
}
