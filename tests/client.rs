use coinbase::client::{ClientState, Lifecycle};

#[test]
fn second_stop_does_nothing() {
    let mut l = Lifecycle::new();
    assert!(l.start());
    assert_eq!(l.state, ClientState::Running);
    assert!(l.finish());
    assert_eq!(l.state, ClientState::Stopped);
    assert!(!l.finish());
    assert_eq!(l.state, ClientState::Stopped);
}

#[test]
fn stop_before_start_does_nothing() {
    let mut l = Lifecycle::new();
    assert!(!l.finish());
    assert_eq!(l.state, ClientState::NotInitialized);
}

#[test]
fn client_starts_once() {
    let mut l = Lifecycle::new();
    assert!(l.start());
    assert!(!l.start());
    assert!(l.finish());
    assert!(!l.start());
    assert_eq!(l.state, ClientState::Stopped);
}
