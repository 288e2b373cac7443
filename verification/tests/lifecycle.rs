use helix_lsp::lifecycle::{
    dispatch, step, Action, Capabilities, Dispatch, DocumentVersions, Event, State,
};

#[test]
fn life_of_a_client() {
    let life = [
        (Event::Connected, State::Initializing, Action::SendInitialize),
        (Event::Initialized, State::Ready, Action::AnnounceReady),
        (Event::ShutdownRequested, State::ShuttingDown, Action::SendShutdownAndExit),
        (Event::ExitTimedOut, State::ShuttingDown, Action::Kill),
        (Event::ProcessExited, State::Exited, Action::FailPending),
        (Event::Connected, State::Exited, Action::Nothing),
        (Event::ProcessExited, State::Exited, Action::Nothing),
    ];
    let mut state = State::Spawning;
    for (event, want, action) in life {
        let (next, todo) = step(state, event);
        assert_eq!((next, todo), (want, action));
        state = next;
    }
}

#[test]
fn end_of_the_stream_begins_the_shutdown() {
    assert_eq!(
        step(State::Ready, Event::StreamClosed),
        (State::ShuttingDown, Action::SendShutdownAndExit)
    );
    assert_eq!(
        step(State::Initializing, Event::StreamClosed),
        (State::ShuttingDown, Action::Kill)
    );
    assert_eq!(
        step(State::Initializing, Event::InitializeFailed),
        (State::Initializing, Action::Nothing)
    );
    assert_eq!(
        step(State::Spawning, Event::Initialized),
        (State::Spawning, Action::Nothing)
    );
    assert_eq!(
        step(State::Ready, Event::ProcessExited),
        (State::Exited, Action::FailPending)
    );
}

#[test]
fn requests_wait_for_the_server_to_be_ready() {
    assert_eq!(dispatch(State::Spawning, true), Dispatch::Wait);
    assert_eq!(dispatch(State::Initializing, true), Dispatch::Send);
    assert_eq!(dispatch(State::Initializing, false), Dispatch::Wait);
    assert_eq!(dispatch(State::Ready, false), Dispatch::Send);
    assert_eq!(dispatch(State::ShuttingDown, false), Dispatch::Refuse);
    assert_eq!(dispatch(State::Exited, true), Dispatch::Refuse);
}

#[test]
fn capabilities_are_written_once() {
    let mut cell: Capabilities<&str> = Capabilities::new();
    assert_eq!(cell.get(), None);
    assert_eq!(cell.set("first"), Ok(()));
    assert_eq!(cell.get(), Some(&"first"));
    assert_eq!(cell.set("second"), Err("second"));
    assert_eq!(cell.get(), Some(&"first"));
}

#[test]
fn document_versions_count_changes() {
    let mut versions = DocumentVersions::new();
    let uri = "file:///a.rs".to_string();
    assert_eq!(versions.change(uri.clone()), None);
    assert_eq!(versions.open(uri.clone()), 1);
    assert_eq!(versions.change(uri.clone()), Some(2));
    assert_eq!(versions.change(uri.clone()), Some(3));
    assert_eq!(versions.change("file:///b.rs".to_string()), None);
    assert_eq!(versions.close(&uri), Some(3));
    assert_eq!(versions.close(&uri), None);
    assert_eq!(versions.change(uri.clone()), None);
    assert_eq!(versions.open(uri.clone()), 1);
}
