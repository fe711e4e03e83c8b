//! The debug session view: inert until a launch is asked for, starting
//! until the adapter has answered, running from then on.

use vstd::prelude::*;
use crate::picker::Handle;

verus! {

/// The panes of a running session's thread view.
#[derive(Clone, Copy, PartialEq, Eq, Structural, Debug)]
pub enum ThreadItem {
    Console,
    LoadedSource,
    Modules,
    Variables,
}

/// The same panes as they are named on the wire between collaborators.
#[derive(Clone, Copy, PartialEq, Eq, Structural, Debug)]
pub enum DebuggerThreadItem {
    Console,
    LoadedSource,
    Modules,
    Variables,
}

impl ThreadItem {
    /// The wire name of a pane.
    pub open spec fn wire(self) -> DebuggerThreadItem {
        match self {
            ThreadItem::Console => DebuggerThreadItem::Console,
            ThreadItem::LoadedSource => DebuggerThreadItem::LoadedSource,
            ThreadItem::Modules => DebuggerThreadItem::Modules,
            ThreadItem::Variables => DebuggerThreadItem::Variables,
        }
    }

    /// The pane that a wire name stands for.
    pub open spec fn unwire(item: DebuggerThreadItem) -> ThreadItem {
        match item {
            DebuggerThreadItem::Console => ThreadItem::Console,
            DebuggerThreadItem::LoadedSource => ThreadItem::LoadedSource,
            DebuggerThreadItem::Modules => ThreadItem::Modules,
            DebuggerThreadItem::Variables => ThreadItem::Variables,
        }
    }

    /// The wire name of this pane.
    pub fn to_proto(&self) -> (item: DebuggerThreadItem)
        ensures
            item == self.wire(),
    {
        match self {
            ThreadItem::Console => DebuggerThreadItem::Console,
            ThreadItem::LoadedSource => DebuggerThreadItem::LoadedSource,
            ThreadItem::Modules => DebuggerThreadItem::Modules,
            ThreadItem::Variables => DebuggerThreadItem::Variables,
        }
    }

    /// The pane that a wire name stands for.
    pub fn from_proto(active_thread_item: DebuggerThreadItem) -> (item: Self)
        ensures
            item == Self::unwire(active_thread_item),
    {
        match active_thread_item {
            DebuggerThreadItem::Console => ThreadItem::Console,
            DebuggerThreadItem::LoadedSource => ThreadItem::LoadedSource,
            DebuggerThreadItem::Modules => ThreadItem::Modules,
            DebuggerThreadItem::Variables => ThreadItem::Variables,
        }
    }
}

/// Going to the wire and back changes no pane, and no wire name.
pub proof fn lemma_wire_round_trip(pane: ThreadItem, item: DebuggerThreadItem)
    ensures
        ThreadItem::unwire(pane.wire()) == pane,
        ThreadItem::unwire(item).wire() == item,
{
}

/// What a session item tells the panel that holds it.
#[derive(Clone, Copy, PartialEq, Eq, Structural, Debug)]
pub enum DebugPanelItemEvent {
    Close,
    Stopped { go_to_stack_frame: bool },
}

/// The identifier of a debug adapter client.
#[derive(Clone, Copy, PartialEq, Eq, Structural, Debug)]
pub struct DebugAdapterClientId(pub u64);

/// The identifier of a view that a collaborator follows.
#[derive(Clone, Copy, PartialEq, Eq, Structural, Debug)]
pub struct ViewId {
    pub creator: u64,
    pub id: u64,
}

/// What an item answers when asked whether it doubles an existing one.
#[derive(Clone, Copy, PartialEq, Eq, Structural, Debug)]
pub enum Dedup {
    KeepExisting,
    ReplaceExisting,
}

/// A session that has not been launched.
#[derive(Clone, Copy, PartialEq, Eq, Structural, Debug)]
pub struct InertState {
    pub focus: Handle,
}

/// A session whose adapter has been asked to start.
#[derive(Clone, Copy, PartialEq, Eq, Structural, Debug)]
pub struct StartingState {
    pub focus: Handle,
}

/// A session whose adapter has answered.
#[derive(Clone, Copy, PartialEq, Eq, Structural, Debug)]
pub struct RunningState {
    pub focus: Handle,
    pub client_id: DebugAdapterClientId,
}

/// The three states of a session, each with what it needs to be focused
/// and shown.
#[derive(Clone, Copy, PartialEq, Eq, Structural, Debug)]
pub enum DebugSessionState {
    Inert(InertState),
    Starting(StartingState),
    Running(RunningState),
}

/// What can move a session on.
#[derive(Clone, Copy, PartialEq, Eq, Structural, Debug)]
pub enum SessionEvent {
    /// A launch was asked for; the starting view takes the focus handle.
    Launch(Handle),
    /// The adapter has answered; the running view takes the focus handle
    /// and the client's identifier.
    AdapterReady(Handle, DebugAdapterClientId),
}

/// How far a state is along the lifecycle.
pub open spec fn stage(state: DebugSessionState) -> nat {
    match state {
        DebugSessionState::Inert(_) => 0,
        DebugSessionState::Starting(_) => 1,
        DebugSessionState::Running(_) => 2,
    }
}

/// The state after an event: a launch starts an inert session, the
/// adapter's answer lets a starting one run, and every other pairing
/// leaves the state as it is.
pub open spec fn next_state(state: DebugSessionState, event: SessionEvent) -> DebugSessionState {
    match (state, event) {
        (DebugSessionState::Inert(_), SessionEvent::Launch(focus)) => DebugSessionState::Starting(
            StartingState { focus },
        ),
        (
            DebugSessionState::Starting(_),
            SessionEvent::AdapterReady(focus, client_id),
        ) => DebugSessionState::Running(RunningState { focus, client_id }),
        _ => state,
    }
}

/// The identifier of the adapter client of a state: a running session
/// has one, an inert or a starting one has none yet.
pub open spec fn client_of(state: DebugSessionState) -> Option<DebugAdapterClientId> {
    match state {
        DebugSessionState::Running(running) => Some(running.client_id),
        _ => None,
    }
}

/// The focus handle of a state.
pub open spec fn focus_of(state: DebugSessionState) -> Handle {
    match state {
        DebugSessionState::Inert(inert) => inert.focus,
        DebugSessionState::Starting(starting) => starting.focus,
        DebugSessionState::Running(running) => running.focus,
    }
}

/// A session never goes back: an event leaves the state where it is or
/// moves it one stage on, and no event moves a running session.
pub proof fn lemma_no_way_back(state: DebugSessionState, event: SessionEvent)
    ensures
        stage(next_state(state, event)) == stage(state) || stage(next_state(state, event))
            == stage(state) + 1,
        stage(next_state(state, event)) == stage(state) ==> next_state(state, event) == state,
        stage(state) == 2 ==> next_state(state, event) == state,
        stage(next_state(state, event)) == 1 && stage(state) == 0 ==> event is Launch,
        stage(next_state(state, event)) == 2 && stage(state) == 1 ==> event is AdapterReady,
{
}

/// A debug session as a followable item of a workspace.
pub struct DebugSession {
    remote_id: Option<ViewId>,
    mode: DebugSessionState,
}

impl DebugSession {
    /// The state of the session.
    pub closed spec fn state(&self) -> DebugSessionState {
        self.mode
    }

    /// The view that this session stands for on a follower's side.
    pub closed spec fn remote(&self) -> Option<ViewId> {
        self.remote_id
    }

    /// A session that has not been launched and follows nobody.
    pub fn inert(focus: Handle) -> (session: Self)
        ensures
            session.state() == DebugSessionState::Inert(InertState { focus }),
            session.remote() == None::<ViewId>,
    {
        DebugSession { remote_id: None, mode: DebugSessionState::Inert(InertState { focus }) }
    }

    /// The state of the session.
    pub fn mode(&self) -> (state: DebugSessionState)
        ensures
            state == self.state(),
    {
        self.mode
    }

    /// The identifier of the session's adapter client, once it runs.
    pub fn session_id(&self) -> (id: Option<DebugAdapterClientId>)
        ensures
            id == client_of(self.state()),
    {
        match self.mode {
            DebugSessionState::Inert(_) => None,
            DebugSessionState::Starting(_) => None,
            DebugSessionState::Running(running) => Some(running.client_id),
        }
    }

    /// The focus handle of the view that the session shows.
    pub fn focus_handle(&self) -> (focus: Handle)
        ensures
            focus == focus_of(self.state()),
    {
        match self.mode {
            DebugSessionState::Inert(inert) => inert.focus,
            DebugSessionState::Starting(starting) => starting.focus,
            DebugSessionState::Running(running) => running.focus,
        }
    }

    /// Moves the session on by `event`. Returns whether the state
    /// changed stage.
    pub fn advance(&mut self, event: SessionEvent) -> (moved: bool)
        ensures
            final(self).state() == next_state(old(self).state(), event),
            final(self).remote() == old(self).remote(),
            moved == (stage(final(self).state()) == stage(old(self).state()) + 1),
    {
        match (self.mode, event) {
            (DebugSessionState::Inert(_), SessionEvent::Launch(focus)) => {
                self.mode = DebugSessionState::Starting(StartingState { focus });
                true
            },
            (DebugSessionState::Starting(_), SessionEvent::AdapterReady(focus, client_id)) => {
                self.mode = DebugSessionState::Running(RunningState { focus, client_id });
                true
            },
            _ => false,
        }
    }

    /// The view that this session stands for on a follower's side.
    pub fn remote_id(&self) -> (id: Option<ViewId>)
        ensures
            id == self.remote(),
    {
        self.remote_id
    }

    /// Every event is passed on to followers.
    pub fn add_event_to_update_proto(&self, event: &DebugPanelItemEvent) -> (added: bool)
        ensures
            added,
    {
        true
    }

    /// Whether this session doubles `existing`: it does where both have
    /// the same adapter client, or neither has one yet.
    pub fn dedup(&self, existing: &Self) -> (r: Option<Dedup>)
        ensures
            r == if client_of(existing.state()) == client_of(self.state()) {
                Some(Dedup::KeepExisting)
            } else {
                None
            },
    {
        let same = match (existing.session_id(), self.session_id()) {
            (None, None) => true,
            (Some(a), Some(b)) => a.0 == b.0,
            _ => false,
        };
        if same {
            Some(Dedup::KeepExisting)
        } else {
            None
        }
    }

    /// A debug session belongs to the project.
    pub fn is_project_item(&self) -> (r: bool)
        ensures
            r,
    {
        true
    }
}

} // verus!
