use d3270::b3270::indication::{Connection, ConnectionState};
use d3270::b3270::Indication;
use d3270::session::{Phase, Session, SessionAction, SessionEvent};

fn conn(state: ConnectionState) -> Indication {
    Indication::Connection(Connection { state, host: None, cause: None })
}

fn drain(s: &mut Session) -> Vec<Indication> {
    let mut out = Vec::new();
    while let Some(ind) = s.next_backlog() {
        out.push(ind);
    }
    out
}

#[test]
fn snapshot_comes_first_then_live_indications() {
    let mut s = Session::resuming(vec![conn(ConnectionState::NotConnected), Indication::Bell {}]);
    assert_eq!(s.phase(), Phase::Resume);
    assert_eq!(drain(&mut s), vec![conn(ConnectionState::NotConnected), Indication::Bell {}]);
    assert_eq!(s.phase(), Phase::Steady);
    for state in [ConnectionState::Resolving, ConnectionState::TcpPending, ConnectionState::ConnectedNvt] {
        match s.step(SessionEvent::Live(conn(state))) {
            SessionAction::Emit(ind) => assert_eq!(ind, conn(state)),
            other => panic!("expected an indication, got {other:?}"),
        }
    }
    assert_eq!(s.phase(), Phase::Steady);
}

#[test]
fn lag_recovery_scenario() {
    let mut s = Session::resuming(vec![]);
    assert!(drain(&mut s).is_empty());
    assert_eq!(s.phase(), Phase::Steady);
    assert!(matches!(s.step(SessionEvent::Lagged(150)), SessionAction::RequestResync));
    assert_eq!(s.phase(), Phase::TryRestart);
    assert!(matches!(s.step(SessionEvent::PermitGranted), SessionAction::Continue));
    assert_eq!(s.phase(), Phase::Wait);
    let snapshot = || vec![conn(ConnectionState::Connected3270), Indication::Formatted { state: true }];
    assert!(matches!(s.step(SessionEvent::Snapshot(snapshot())), SessionAction::Continue));
    assert_eq!(s.phase(), Phase::Resume);
    assert_eq!(drain(&mut s), snapshot());
    assert_eq!(s.phase(), Phase::Steady);
    assert!(matches!(s.step(SessionEvent::Live(Indication::Bell {})), SessionAction::Emit(Indication::Bell {})));
}

#[test]
fn sessions_end_when_the_arbiter_goes() {
    let mut s = Session::waiting();
    assert!(matches!(s.step(SessionEvent::SnapshotLost), SessionAction::End));
    assert_eq!(s.phase(), Phase::Closed);
    assert!(matches!(s.step(SessionEvent::PermitGranted), SessionAction::End));

    let mut s = Session::resuming(vec![]);
    drain(&mut s);
    s.step(SessionEvent::Lagged(1));
    assert!(matches!(s.step(SessionEvent::ChannelClosed), SessionAction::End));

    let mut s = Session::resuming(vec![]);
    drain(&mut s);
    assert!(matches!(s.step(SessionEvent::StreamEnded), SessionAction::End));
}

#[test]
fn events_of_another_phase_are_ignored() {
    let mut s = Session::waiting();
    assert!(matches!(s.step(SessionEvent::Live(Indication::Bell {})), SessionAction::Continue));
    assert_eq!(s.phase(), Phase::Wait);
}
