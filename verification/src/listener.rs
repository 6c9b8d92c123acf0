//! The server's accept loop, as a state machine.
//!
//! The storage root is created, the listening address is bound, and every
//! connection that is accepted is handed to a task of its own, which runs a
//! fresh machine of [`crate::server`]. What happens on a connection never
//! reaches the loop: only a failure to create the root, to bind or to accept
//! ends it.

use vstd::prelude::*;

verus! {

/// Why the server stopped.
#[derive(Debug, Clone, Copy, PartialEq, Eq, Structural)]
pub enum StartError {
    /// The storage root could not be created.
    CreateRoot,
    /// The listening address could not be bound.
    Bind,
    /// A connection could not be accepted.
    Accept,
}

impl StartError {
    /// The error in words.
    pub open spec fn message_spec(self) -> Seq<char> {
        match self {
            StartError::CreateRoot => "Failed to create output path"@,
            StartError::Bind => "Failed to start server"@,
            StartError::Accept => "Failed to accept connection"@,
        }
    }

    /// The error in words.
    pub fn message(self) -> (text: &'static str)
        ensures
            text@ == self.message_spec(),
    {
        match self {
            StartError::CreateRoot => "Failed to create output path",
            StartError::Bind => "Failed to start server",
            StartError::Accept => "Failed to accept connection",
        }
    }
}

/// Where the accept loop stands.
#[derive(Debug, Clone, PartialEq, Eq)]
pub enum ListenerState {
    /// The storage root is being created.
    Creating { addr: String },
    /// The listening address is being bound.
    Binding,
    /// The next connection is being waited for.
    Accepting,
    /// The loop has ended.
    Stopped(StartError),
}

/// The mathematical value of a [`ListenerState`].
pub enum ListenerStateView {
    Creating { addr: Seq<char> },
    Binding,
    Accepting,
    Stopped(StartError),
}

impl View for ListenerState {
    type V = ListenerStateView;

    open spec fn view(&self) -> ListenerStateView {
        match self {
            ListenerState::Creating { addr } => ListenerStateView::Creating { addr: addr@ },
            ListenerState::Binding => ListenerStateView::Binding,
            ListenerState::Accepting => ListenerStateView::Accepting,
            ListenerState::Stopped(error) => ListenerStateView::Stopped(*error),
        }
    }
}

/// The outcome of the action that the loop asked for last.
#[derive(Debug, Clone, Copy, PartialEq, Eq, Structural)]
pub enum ListenerEvent {
    /// The action succeeded.
    Done,
    /// The directory was there already.
    AlreadyExists,
    /// A connection arrived.
    Accepted,
    /// The action failed for any other reason.
    Failed,
}

/// What the loop asks its driver to do next.
#[derive(Debug, Clone, PartialEq, Eq)]
pub enum ListenerAction {
    /// Create the directory and all its parents.
    CreateDirs(String),
    /// Bind the listening address.
    Bind(String),
    /// Wait for the next connection.
    Accept,
    /// Hand the connection that arrived to a task of its own, and wait for
    /// the next.
    Serve,
    /// Give up.
    Stop,
}

/// The mathematical value of a [`ListenerAction`].
pub enum ListenerActionView {
    CreateDirs(Seq<char>),
    Bind(Seq<char>),
    Accept,
    Serve,
    Stop,
}

impl View for ListenerAction {
    type V = ListenerActionView;

    open spec fn view(&self) -> ListenerActionView {
        match self {
            ListenerAction::CreateDirs(path) => ListenerActionView::CreateDirs(path@),
            ListenerAction::Bind(addr) => ListenerActionView::Bind(addr@),
            ListenerAction::Accept => ListenerActionView::Accept,
            ListenerAction::Serve => ListenerActionView::Serve,
            ListenerAction::Stop => ListenerActionView::Stop,
        }
    }
}

/// Starts the server: the storage root `output_path` is to be created
/// first, with all its parents.
pub fn start(addr: String, output_path: String) -> (step: (ListenerState, ListenerAction))
    ensures
        step.0@ == (ListenerStateView::Creating { addr: addr@ }),
        step.1@ == ListenerActionView::CreateDirs(output_path@),
{
    (ListenerState::Creating { addr }, ListenerAction::CreateDirs(output_path))
}

/// What [`listen`] returns.
pub open spec fn listen_step(state: ListenerStateView, event: ListenerEvent) -> (
    ListenerStateView,
    ListenerActionView,
) {
    match (state, event) {
        (ListenerStateView::Creating { addr }, ListenerEvent::Done) => (
            ListenerStateView::Binding,
            ListenerActionView::Bind(addr),
        ),
        (ListenerStateView::Creating { addr }, ListenerEvent::AlreadyExists) => (
            ListenerStateView::Binding,
            ListenerActionView::Bind(addr),
        ),
        (ListenerStateView::Creating { .. }, _) => (
            ListenerStateView::Stopped(StartError::CreateRoot),
            ListenerActionView::Stop,
        ),
        (ListenerStateView::Binding, ListenerEvent::Done) => (
            ListenerStateView::Accepting,
            ListenerActionView::Accept,
        ),
        (ListenerStateView::Binding, _) => (
            ListenerStateView::Stopped(StartError::Bind),
            ListenerActionView::Stop,
        ),
        (ListenerStateView::Accepting, ListenerEvent::Accepted) => (
            ListenerStateView::Accepting,
            ListenerActionView::Serve,
        ),
        (ListenerStateView::Accepting, _) => (
            ListenerStateView::Stopped(StartError::Accept),
            ListenerActionView::Stop,
        ),
        (ListenerStateView::Stopped(error), _) => (
            ListenerStateView::Stopped(error),
            ListenerActionView::Stop,
        ),
    }
}

/// One step of the accept loop.
///
/// A storage root that is there already is as good as one that was
/// created. Once the address is bound, every connection that arrives is
/// served and the next one waited for. A failure to create the root, to
/// bind or to accept stops the loop for good.
pub fn listen(state: ListenerState, event: ListenerEvent) -> (step: (ListenerState, ListenerAction))
    ensures
        (step.0@, step.1@) == listen_step(state@, event),
{
    match (state, event) {
        (ListenerState::Creating { addr }, ListenerEvent::Done) => (
            ListenerState::Binding,
            ListenerAction::Bind(addr),
        ),
        (ListenerState::Creating { addr }, ListenerEvent::AlreadyExists) => (
            ListenerState::Binding,
            ListenerAction::Bind(addr),
        ),
        (ListenerState::Creating { .. }, _) => (
            ListenerState::Stopped(StartError::CreateRoot),
            ListenerAction::Stop,
        ),
        (ListenerState::Binding, ListenerEvent::Done) => (
            ListenerState::Accepting,
            ListenerAction::Accept,
        ),
        (ListenerState::Binding, _) => (ListenerState::Stopped(StartError::Bind), ListenerAction::Stop),
        (ListenerState::Accepting, ListenerEvent::Accepted) => (
            ListenerState::Accepting,
            ListenerAction::Serve,
        ),
        (ListenerState::Accepting, _) => (
            ListenerState::Stopped(StartError::Accept),
            ListenerAction::Stop,
        ),
        (ListenerState::Stopped(error), _) => (ListenerState::Stopped(error), ListenerAction::Stop),
    }
}

/// The state that the loop reaches from `state` over `events`.
pub open spec fn listen_run(state: ListenerStateView, events: Seq<ListenerEvent>) -> ListenerStateView
    decreases events.len(),
{
    if events.len() == 0 {
        state
    } else {
        listen_step(listen_run(state, events.drop_last()), events.last()).0
    }
}

/// The loop goes on for as long as connections arrive: however many have
/// been accepted, it waits for the next.
pub proof fn lemma_accepting_goes_on(events: Seq<ListenerEvent>)
    requires
        forall|i: int| 0 <= i < events.len() ==> events[i] == ListenerEvent::Accepted,
    ensures
        listen_run(ListenerStateView::Accepting, events) == ListenerStateView::Accepting,
    decreases events.len(),
{
    if events.len() > 0 {
        lemma_accepting_goes_on(events.drop_last());
    }
}

/// A loop that has stopped stays stopped, for the same reason.
pub proof fn lemma_stopped_stays(error: StartError, events: Seq<ListenerEvent>)
    ensures
        listen_run(ListenerStateView::Stopped(error), events) == ListenerStateView::Stopped(error),
    decreases events.len(),
{
    if events.len() > 0 {
        lemma_stopped_stays(error, events.drop_last());
    }
}

} // verus!
