use lob_analytics::fsm::{
    ConnectorEvent, ConnectorFSM, ConnectorState, LobConnector, TradesConnector,
};

#[test]
fn test_fsm_transitions() {
    let mut fsm = ConnectorFSM::new();
    assert_eq!(fsm.get_state(), ConnectorState::Idle);
    assert!(!fsm.is_connected());

    fsm.transition(ConnectorEvent::Connect);
    assert_eq!(fsm.get_state(), ConnectorState::Connected);
    assert!(fsm.is_connected());

    // invalid transition is ignored
    fsm.transition(ConnectorEvent::Connect);
    assert_eq!(fsm.get_state(), ConnectorState::Connected);

    fsm.transition(ConnectorEvent::Disconnect);
    assert_eq!(fsm.get_state(), ConnectorState::Idle);
    assert!(!fsm.is_connected());

    // disconnect while idle is ignored
    fsm.transition(ConnectorEvent::Disconnect);
    assert_eq!(fsm.get_state(), ConnectorState::Idle);
}

#[test]
fn test_connectors_start_idle() {
    let lob = LobConnector::new("wss://example.invalid/depth".to_string());
    assert_eq!(lob.get_state(), ConnectorState::Idle);
    let mut trades = TradesConnector::new("wss://example.invalid/trade".to_string());
    assert_eq!(trades.get_state(), ConnectorState::Idle);
    trades.transition(ConnectorEvent::Connect);
    assert_eq!(trades.get_state(), ConnectorState::Connected);
}
