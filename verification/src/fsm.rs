//! Connection state machines for the feed connectors.
//!
//! A connector is either idle or connected; `Connect` and `Disconnect`
//! move between the two and any other pairing is ignored. The boolean
//! flag mirrors the state for cheap polling.

use vstd::prelude::*;

verus! {

/// The two possible connector states.
#[derive(Debug, Clone, Copy, PartialEq, Eq, Structural)]
pub enum ConnectorState {
    Idle,
    Connected,
}

/// Events that trigger state transitions.
#[derive(Debug, Clone, Copy, PartialEq, Eq, Structural)]
pub enum ConnectorEvent {
    Connect,
    Disconnect,
}

/// A minimal state machine with a connected flag.
pub struct ConnectorFSM {
    pub state: ConnectorState,
    pub connected_flag: bool,
}

/// The flag agrees with the state.
pub open spec fn fsm_wf(m: &ConnectorFSM) -> bool {
    m.connected_flag == (m.state is Connected)
}

impl ConnectorFSM {
    /// A fresh machine: idle, flag down.
    pub fn new() -> (r: ConnectorFSM)
        ensures
            fsm_wf(&r),
            r.state is Idle,
    {
        ConnectorFSM { state: ConnectorState::Idle, connected_flag: false }
    }

    /// Take a transition: `Idle -> Connected` on `Connect`,
    /// `Connected -> Idle` on `Disconnect`, anything else is ignored.
    pub fn transition(&mut self, event: ConnectorEvent)
        requires
            fsm_wf(old(self)),
        ensures
            fsm_wf(final(self)),
            final(self).state == (match (old(self).state, event) {
                (ConnectorState::Idle, ConnectorEvent::Connect) => ConnectorState::Connected,
                (ConnectorState::Connected, ConnectorEvent::Disconnect) => ConnectorState::Idle,
                _ => old(self).state,
            }),
    {
        match (self.state, event) {
            (ConnectorState::Idle, ConnectorEvent::Connect) => {
                self.state = ConnectorState::Connected;
                self.connected_flag = true;
            },
            (ConnectorState::Connected, ConnectorEvent::Disconnect) => {
                self.state = ConnectorState::Idle;
                self.connected_flag = false;
            },
            _ => {},
        }
    }

    /// The current state.
    pub fn get_state(&self) -> (r: ConnectorState)
        ensures
            r == self.state,
    {
        self.state
    }

    /// Whether the flag reports a live connection.
    pub fn is_connected(&self) -> (r: bool)
        ensures
            r == self.connected_flag,
    {
        self.connected_flag
    }
}

/// A connector for the order-book depth feed: its endpoint and its state
/// machine. The network loop around it lives outside the library.
pub struct LobConnector {
    pub lob_uri: String,
    pub fsm: ConnectorFSM,
}

impl LobConnector {
    /// A fresh, idle connector for the given endpoint.
    pub fn new(uri: String) -> (r: LobConnector)
        ensures
            fsm_wf(&r.fsm),
            r.fsm.state is Idle,
            r.lob_uri@ == uri@,
    {
        LobConnector { lob_uri: uri, fsm: ConnectorFSM::new() }
    }

    /// The connector's current state.
    pub fn get_state(&self) -> (r: ConnectorState)
        ensures
            r == self.fsm.state,
    {
        self.fsm.get_state()
    }

    /// Take a transition on the connector's state machine.
    pub fn transition(&mut self, event: ConnectorEvent)
        requires
            fsm_wf(&old(self).fsm),
        ensures
            fsm_wf(&final(self).fsm),
            final(self).lob_uri == old(self).lob_uri,
            final(self).fsm.state == (match (old(self).fsm.state, event) {
                (ConnectorState::Idle, ConnectorEvent::Connect) => ConnectorState::Connected,
                (ConnectorState::Connected, ConnectorEvent::Disconnect) => ConnectorState::Idle,
                _ => old(self).fsm.state,
            }),
    {
        self.fsm.transition(event);
    }
}

/// A connector for the trade feed.
pub struct TradesConnector {
    pub trades_uri: String,
    pub fsm: ConnectorFSM,
}

impl TradesConnector {
    /// A fresh, idle connector for the given endpoint.
    pub fn new(uri: String) -> (r: TradesConnector)
        ensures
            fsm_wf(&r.fsm),
            r.fsm.state is Idle,
            r.trades_uri@ == uri@,
    {
        TradesConnector { trades_uri: uri, fsm: ConnectorFSM::new() }
    }

    /// The connector's current state.
    pub fn get_state(&self) -> (r: ConnectorState)
        ensures
            r == self.fsm.state,
    {
        self.fsm.get_state()
    }

    /// Take a transition on the connector's state machine.
    pub fn transition(&mut self, event: ConnectorEvent)
        requires
            fsm_wf(&old(self).fsm),
        ensures
            fsm_wf(&final(self).fsm),
            final(self).trades_uri == old(self).trades_uri,
            final(self).fsm.state == (match (old(self).fsm.state, event) {
                (ConnectorState::Idle, ConnectorEvent::Connect) => ConnectorState::Connected,
                (ConnectorState::Connected, ConnectorEvent::Disconnect) => ConnectorState::Idle,
                _ => old(self).fsm.state,
            }),
    {
        self.fsm.transition(event);
    }
}

} // verus!
