use lud::listener::{listen, start, ListenerAction, ListenerEvent, ListenerState, StartError};

const EVENTS: [ListenerEvent; 4] =
    [ListenerEvent::Done, ListenerEvent::AlreadyExists, ListenerEvent::Accepted, ListenerEvent::Failed];

fn stopped(error: StartError) -> (ListenerState, ListenerAction) {
    (ListenerState::Stopped(error), ListenerAction::Stop)
}

#[test]
fn start_creates_the_storage_root_first() {
    assert_eq!(
        start("127.0.0.1:4899".to_string(), "./storage".to_string()),
        (
            ListenerState::Creating { addr: "127.0.0.1:4899".to_string() },
            ListenerAction::CreateDirs("./storage".to_string())
        )
    );
}

#[test]
fn an_existing_root_is_as_good_as_a_new_one() {
    let creating = ListenerState::Creating { addr: "a:1".to_string() };
    for event in [ListenerEvent::Done, ListenerEvent::AlreadyExists] {
        assert_eq!(
            listen(creating.clone(), event),
            (ListenerState::Binding, ListenerAction::Bind("a:1".to_string()))
        );
    }
    assert_eq!(listen(creating.clone(), ListenerEvent::Failed), stopped(StartError::CreateRoot));
    assert_eq!(listen(creating, ListenerEvent::Accepted), stopped(StartError::CreateRoot));
}

#[test]
fn binding_leads_to_accepting() {
    assert_eq!(
        listen(ListenerState::Binding, ListenerEvent::Done),
        (ListenerState::Accepting, ListenerAction::Accept)
    );
    assert_eq!(listen(ListenerState::Binding, ListenerEvent::Failed), stopped(StartError::Bind));
    assert_eq!(listen(ListenerState::Binding, ListenerEvent::AlreadyExists), stopped(StartError::Bind));
}

#[test]
fn every_connection_is_served_and_the_next_awaited() {
    let mut state = ListenerState::Accepting;
    for _ in 0..100 {
        let (next, action) = listen(state, ListenerEvent::Accepted);
        assert_eq!(action, ListenerAction::Serve);
        assert_eq!(next, ListenerState::Accepting);
        state = next;
    }
    assert_eq!(listen(state, ListenerEvent::Failed), stopped(StartError::Accept));
}

#[test]
fn a_stopped_loop_stays_stopped() {
    for error in [StartError::CreateRoot, StartError::Bind, StartError::Accept] {
        for event in EVENTS {
            assert_eq!(listen(ListenerState::Stopped(error), event), stopped(error));
        }
    }
}

#[test]
fn start_errors_in_words() {
    assert_eq!(StartError::CreateRoot.message(), "Failed to create output path");
    assert_eq!(StartError::Bind.message(), "Failed to start server");
    assert_eq!(StartError::Accept.message(), "Failed to accept connection");
}
