use fuzzy_picker::picker::Handle;
use fuzzy_picker::session::{
    DebugAdapterClientId, DebugPanelItemEvent, DebugSession, DebugSessionState, DebuggerThreadItem,
    Dedup, InertState, RunningState, SessionEvent, StartingState, ThreadItem,
};

fn handle(id: u64) -> Handle {
    Handle { id }
}

fn running(client: u64) -> DebugSession {
    let mut session = DebugSession::inert(handle(1));
    session.advance(SessionEvent::Launch(handle(2)));
    session.advance(SessionEvent::AdapterReady(handle(3), DebugAdapterClientId(client)));
    session
}

#[test]
fn a_new_session_is_inert() {
    let session = DebugSession::inert(handle(4));
    assert_eq!(session.mode(), DebugSessionState::Inert(InertState { focus: handle(4) }));
    assert_eq!(session.session_id(), None);
    assert_eq!(session.remote_id(), None);
    assert_eq!(session.focus_handle(), handle(4));
    assert!(session.is_project_item());
}

#[test]
fn a_session_goes_from_inert_to_starting_to_running() {
    let mut session = DebugSession::inert(handle(1));
    assert!(session.advance(SessionEvent::Launch(handle(2))));
    assert_eq!(session.mode(), DebugSessionState::Starting(StartingState { focus: handle(2) }));
    assert_eq!(session.session_id(), None);
    assert_eq!(session.focus_handle(), handle(2));
    assert!(session.advance(SessionEvent::AdapterReady(handle(3), DebugAdapterClientId(11))));
    assert_eq!(
        session.mode(),
        DebugSessionState::Running(RunningState {
            focus: handle(3),
            client_id: DebugAdapterClientId(11)
        })
    );
    assert_eq!(session.session_id(), Some(DebugAdapterClientId(11)));
    assert_eq!(session.focus_handle(), handle(3));
}

#[test]
fn a_session_never_goes_back_or_skips_a_state() {
    let mut session = DebugSession::inert(handle(1));
    assert!(!session.advance(SessionEvent::AdapterReady(handle(3), DebugAdapterClientId(11))));
    assert_eq!(session.mode(), DebugSessionState::Inert(InertState { focus: handle(1) }));
    session.advance(SessionEvent::Launch(handle(2)));
    assert!(!session.advance(SessionEvent::Launch(handle(5))));
    assert_eq!(session.mode(), DebugSessionState::Starting(StartingState { focus: handle(2) }));
    let mut session = running(11);
    let before = session.mode();
    assert!(!session.advance(SessionEvent::Launch(handle(5))));
    assert!(!session.advance(SessionEvent::AdapterReady(handle(6), DebugAdapterClientId(12))));
    assert_eq!(session.mode(), before);
}

#[test]
fn sessions_with_the_same_client_are_duplicates() {
    assert_eq!(running(11).dedup(&running(11)), Some(Dedup::KeepExisting));
    assert_eq!(running(11).dedup(&running(12)), None);
    let inert = DebugSession::inert(handle(1));
    assert_eq!(running(11).dedup(&inert), None);
    assert_eq!(inert.dedup(&running(11)), None);
    assert_eq!(inert.dedup(&DebugSession::inert(handle(2))), Some(Dedup::KeepExisting));
}

#[test]
fn every_event_is_passed_on_to_followers() {
    let session = running(11);
    assert!(session.add_event_to_update_proto(&DebugPanelItemEvent::Close));
    assert!(session
        .add_event_to_update_proto(&DebugPanelItemEvent::Stopped { go_to_stack_frame: true }));
}

#[test]
fn panes_survive_the_wire() {
    let panes = [
        (ThreadItem::Console, DebuggerThreadItem::Console),
        (ThreadItem::LoadedSource, DebuggerThreadItem::LoadedSource),
        (ThreadItem::Modules, DebuggerThreadItem::Modules),
        (ThreadItem::Variables, DebuggerThreadItem::Variables),
    ];
    for (pane, wire) in panes {
        assert_eq!(pane.to_proto(), wire);
        assert_eq!(ThreadItem::from_proto(wire), pane);
        assert_eq!(ThreadItem::from_proto(pane.to_proto()), pane);
    }
}
