//! The life of one client, from the start of its server to its end, and
//! what it keeps of the server and of the documents it told it about.

use crate::table::{Key, Table};
use vstd::prelude::*;

verus! {

/// Where a client stands.
#[derive(Clone, Copy, Debug, PartialEq, Eq, Structural, Hash)]
pub enum State {
    /// The server is being started.
    Spawning,
    /// The server runs and was asked to initialize.
    Initializing,
    /// The server has answered, and takes requests.
    Ready,
    /// The server was asked to shut down and exit.
    ShuttingDown,
    /// The server is gone.
    Exited,
}

/// What happens to a client.
#[derive(Clone, Copy, Debug, PartialEq, Eq, Structural, Hash)]
pub enum Event {
    /// The server was started and its streams are connected.
    Connected,
    /// The answer to `initialize` came, with the capabilities.
    Initialized,
    /// `initialize` failed.
    InitializeFailed,
    /// The editor asks for the shutdown.
    ShutdownRequested,
    /// The server closed its output.
    StreamClosed,
    /// The server did not exit in the time it was given.
    ExitTimedOut,
    /// The server process has ended.
    ProcessExited,
}

/// What is to be done when something happened.
#[derive(Clone, Copy, Debug, PartialEq, Eq, Structural, Hash)]
pub enum Action {
    Nothing,
    /// Send the `initialize` request.
    SendInitialize,
    /// Store the capabilities, send the `initialized` notification, and
    /// let go whoever waits for the server to be ready.
    AnnounceReady,
    /// Send the `shutdown` request, wait a short time at most for its
    /// answer, then send the `exit` notification.
    SendShutdownAndExit,
    /// Kill the server process.
    Kill,
    /// Tell every request in flight that the stream was closed.
    FailPending,
}

/// The state that follows, and what is to be done. An event that has no
/// place in a state changes nothing.
pub open spec fn next(state: State, event: Event) -> (State, Action) {
    match (state, event) {
        (State::Exited, _) => (State::Exited, Action::Nothing),
        (_, Event::ProcessExited) => (State::Exited, Action::FailPending),
        (State::Spawning, Event::Connected) => (State::Initializing, Action::SendInitialize),
        (State::Initializing, Event::Initialized) => (State::Ready, Action::AnnounceReady),
        (State::Ready, Event::ShutdownRequested) => (
            State::ShuttingDown,
            Action::SendShutdownAndExit,
        ),
        (State::Ready, Event::StreamClosed) => (State::ShuttingDown, Action::SendShutdownAndExit),
        (State::Spawning, Event::ShutdownRequested) => (State::ShuttingDown, Action::Kill),
        (State::Initializing, Event::ShutdownRequested) => (State::ShuttingDown, Action::Kill),
        (State::Initializing, Event::StreamClosed) => (State::ShuttingDown, Action::Kill),
        (State::ShuttingDown, Event::ExitTimedOut) => (State::ShuttingDown, Action::Kill),
        (state, _) => (state, Action::Nothing),
    }
}

/// How far a state is along the life of a client.
pub open spec fn rank(state: State) -> nat {
    match state {
        State::Spawning => 0,
        State::Initializing => 1,
        State::Ready => 2,
        State::ShuttingDown => 3,
        State::Exited => 4,
    }
}

/// Takes a client from one state to the next.
pub fn step(state: State, event: Event) -> (r: (State, Action))
    ensures
        r == next(state, event),
{
    match (state, event) {
        (State::Exited, _) => (State::Exited, Action::Nothing),
        (_, Event::ProcessExited) => (State::Exited, Action::FailPending),
        (State::Spawning, Event::Connected) => (State::Initializing, Action::SendInitialize),
        (State::Initializing, Event::Initialized) => (State::Ready, Action::AnnounceReady),
        (State::Ready, Event::ShutdownRequested) => (
            State::ShuttingDown,
            Action::SendShutdownAndExit,
        ),
        (State::Ready, Event::StreamClosed) => (State::ShuttingDown, Action::SendShutdownAndExit),
        (State::Spawning, Event::ShutdownRequested) => (State::ShuttingDown, Action::Kill),
        (State::Initializing, Event::ShutdownRequested) => (State::ShuttingDown, Action::Kill),
        (State::Initializing, Event::StreamClosed) => (State::ShuttingDown, Action::Kill),
        (State::ShuttingDown, Event::ExitTimedOut) => (State::ShuttingDown, Action::Kill),
        (state, _) => (state, Action::Nothing),
    }
}

/// A client never goes back: whatever happens, the state that follows is
/// the same or further along. It gets ready only from initializing, and
/// once it has exited it stays so and does nothing more.
pub proof fn lemma_life_goes_forward(state: State, event: Event)
    ensures
        rank(state) <= rank(next(state, event).0),
        next(state, event).0 == State::Ready && state != State::Ready ==> state
            == State::Initializing && event == Event::Initialized,
        state == State::Exited ==> next(state, event) == (State::Exited, Action::Nothing),
{
}

/// What to do with a request that the editor makes.
#[derive(Clone, Copy, Debug, PartialEq, Eq, Structural, Hash)]
pub enum Dispatch {
    /// Send it now.
    Send,
    /// Hold it until the server is ready.
    Wait,
    /// The server will not answer any more.
    Refuse,
}

/// Decides on a request in a state: `initialize` goes out while the
/// client initializes, every other request once it is ready, and waits
/// until then; none goes out once the shutdown has begun.
pub fn dispatch(state: State, is_initialize: bool) -> (d: Dispatch)
    ensures
        d == match state {
            State::Spawning => Dispatch::Wait,
            State::Initializing => if is_initialize {
                Dispatch::Send
            } else {
                Dispatch::Wait
            },
            State::Ready => Dispatch::Send,
            State::ShuttingDown => Dispatch::Refuse,
            State::Exited => Dispatch::Refuse,
        },
{
    match state {
        State::Spawning => Dispatch::Wait,
        State::Initializing => if is_initialize {
            Dispatch::Send
        } else {
            Dispatch::Wait
        },
        State::Ready => Dispatch::Send,
        State::ShuttingDown | State::Exited => Dispatch::Refuse,
    }
}

/// A cell that is written once: what the server said it can do.
pub struct Capabilities<T> {
    value: Option<T>,
}

impl<T> View for Capabilities<T> {
    type V = Option<T>;

    closed spec fn view(&self) -> Option<T> {
        self.value
    }
}

impl<T> Capabilities<T> {
    pub fn new() -> (c: Self)
        ensures
            c@ is None,
    {
        Capabilities { value: None }
    }

    /// Writes the cell, if it was not written before. A value that
    /// comes too late is handed back.
    pub fn set(&mut self, value: T) -> (r: Result<(), T>)
        ensures
            old(self)@ is None ==> r is Ok && final(self)@ == Some(value),
            old(self)@ is Some ==> r == Err::<(), T>(value) && final(self)@ == old(self)@,
    {
        if self.value.is_some() {
            Err(value)
        } else {
            self.value = Some(value);
            Ok(())
        }
    }

    /// What was written, if anything was.
    pub fn get(&self) -> (r: Option<&T>)
        ensures
            r is Some <==> self@ is Some,
            r matches Some(v) ==> Some(*v) == self@,
    {
        self.value.as_ref()
    }
}

/// The versions of the documents that the server was told about, by
/// their addresses.
pub struct DocumentVersions {
    versions: Table<String, i32>,
}

impl View for DocumentVersions {
    type V = Map<Seq<char>, i32>;

    closed spec fn view(&self) -> Map<Seq<char>, i32> {
        self.versions@
    }
}

impl DocumentVersions {
    pub closed spec fn wf(&self) -> bool {
        self.versions.wf()
    }

    pub fn new() -> (d: Self)
        ensures
            d.wf(),
            d@ == Map::<Seq<char>, i32>::empty(),
    {
        DocumentVersions { versions: Table::new() }
    }

    /// Notes that a document was opened: it has version 1.
    pub fn open(&mut self, uri: String) -> (version: i32)
        requires
            old(self).wf(),
        ensures
            final(self).wf(),
            version == 1,
            final(self)@ == old(self)@.insert(uri@, 1),
    {
        self.versions.insert(uri, 1);
        1
    }

    /// Notes that a document was changed: its version goes up by one.
    /// The result is the new version, or nothing for a document that is
    /// not open or whose versions have run out.
    pub fn change(&mut self, uri: String) -> (version: Option<i32>)
        requires
            old(self).wf(),
        ensures
            final(self).wf(),
            version is Some <==> old(self)@.contains_key(uri@) && old(self)@[uri@] < i32::MAX,
            version matches Some(v) ==> v == old(self)@[uri@] + 1 && final(self)@ == old(self)@.insert(uri@, v),
            version is None ==> final(self)@ == old(self)@,
    {
        let now = match self.versions.get(&uri) {
            Some(v) => *v,
            None => { return None; },
        };
        if now == i32::MAX {
            return None;
        }
        self.versions.insert(uri, now + 1);
        Some(now + 1)
    }

    /// Notes that a document was closed: its version is forgotten.
    pub fn close(&mut self, uri: &String) -> (was: Option<i32>)
        requires
            old(self).wf(),
        ensures
            final(self).wf(),
            final(self)@ == old(self)@.remove(uri@),
            was is Some <==> old(self)@.contains_key(uri@),
            was matches Some(v) ==> v == old(self)@[uri@],
    {
        self.versions.remove(uri)
    }
}

} // verus!
