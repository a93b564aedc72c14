//! The device link: one persistent connection, with a single reconnect and a
//! single retry when a send fails.
//!
//! The link itself is driven from outside. This module decides: the driver
//! reports what happened as an event and gets back what to do next.

use vstd::prelude::*;
use vstd::string::*;

verus! {

/// Where a send stands.
#[derive(Clone, Copy, Debug, PartialEq, Eq, Structural)]
pub enum Phase {
    /// No send is under way.
    Idle,
    /// The message was handed to the connection for the first time.
    Sending,
    /// The first transmission failed and the connection is being made anew.
    Reconnecting,
    /// The message was handed to the new connection.
    Retrying,
}

/// What the driver reports.
#[derive(Clone, Copy, Debug, PartialEq, Eq, Structural)]
pub enum LinkEvent {
    /// A message is to be sent.
    Begin,
    /// The transmission succeeded.
    Sent,
    /// The transmission failed.
    SendFailed,
    /// The connection was made.
    Connected,
    /// The connection could not be made.
    ConnectFailed,
}

/// Why a send, a connect or a close failed.
#[derive(Clone, Copy, Debug, PartialEq, Eq, Structural)]
pub enum LinkError {
    /// There is no connection to send on.
    NoConnection,
    /// The connection could not be made.
    ConnectFailed,
    /// The transmission failed and the connection could not be made anew.
    ReconnectFailed,
    /// The transmission failed again on the new connection.
    RetryFailed,
    /// The event does not answer what the link last asked for.
    OutOfTurn,
    /// There is no connection to close.
    AlreadyClosed,
}

/// What the driver is to do next.
#[derive(Clone, Copy, Debug, PartialEq, Eq, Structural)]
pub enum LinkAction {
    /// Hand the message to the connection and report `Sent` or `SendFailed`.
    Transmit,
    /// Connect to the stored address and report `Connected` or
    /// `ConnectFailed`.
    Reconnect,
    /// The message is sent; the send is over.
    Done,
    /// The send is over and has failed.
    Fail(LinkError),
}

/// The state of the link as the decisions see it.
pub struct LinkState {
    pub connected: bool,
    pub phase: Phase,
}

/// The state after an event, and what the driver is to do.
///
/// A send starts only on a connection. A failed transmission is answered by
/// one reconnect, and a reconnect that succeeds by one retry; any other
/// failure ends the send and leaves the link disconnected. An event that
/// does not answer what was asked ends the send as well.
pub open spec fn step(state: LinkState, event: LinkEvent) -> (LinkState, LinkAction) {
    match (state.phase, event) {
        (Phase::Idle, LinkEvent::Begin) => if state.connected {
            (LinkState { connected: true, phase: Phase::Sending }, LinkAction::Transmit)
        } else {
            (state, LinkAction::Fail(LinkError::NoConnection))
        },
        (Phase::Idle, _) => (state, LinkAction::Fail(LinkError::OutOfTurn)),
        (Phase::Sending, LinkEvent::Sent) => (
            LinkState { connected: true, phase: Phase::Idle },
            LinkAction::Done,
        ),
        (Phase::Sending, LinkEvent::SendFailed) => (
            LinkState { connected: false, phase: Phase::Reconnecting },
            LinkAction::Reconnect,
        ),
        (Phase::Reconnecting, LinkEvent::Connected) => (
            LinkState { connected: true, phase: Phase::Retrying },
            LinkAction::Transmit,
        ),
        (Phase::Reconnecting, LinkEvent::ConnectFailed) => (
            LinkState { connected: false, phase: Phase::Idle },
            LinkAction::Fail(LinkError::ReconnectFailed),
        ),
        (Phase::Retrying, LinkEvent::Sent) => (
            LinkState { connected: true, phase: Phase::Idle },
            LinkAction::Done,
        ),
        (Phase::Retrying, LinkEvent::SendFailed) => (
            LinkState { connected: false, phase: Phase::Idle },
            LinkAction::Fail(LinkError::RetryFailed),
        ),
        _ => (
            LinkState { connected: false, phase: Phase::Idle },
            LinkAction::Fail(LinkError::OutOfTurn),
        ),
    }
}

/// The client of the device link: the address it connects to, whether it is
/// connected, and where its current send stands.
#[derive(Debug)]
pub struct WebSocketClient {
    pub url: String,
    pub connected: bool,
    pub phase: Phase,
}

impl WebSocketClient {
    /// The state of the link.
    pub open spec fn state(&self) -> LinkState {
        LinkState { connected: self.connected, phase: self.phase }
    }

    /// A client for an address, not yet connected.
    pub fn new(url: &str) -> (client: WebSocketClient)
        ensures
            client.url@ == url@,
            client.state() == (LinkState { connected: false, phase: Phase::Idle }),
    {
        WebSocketClient { url: String::from_str(url), connected: false, phase: Phase::Idle }
    }

    /// Takes note of a connection attempt to an address, which is stored for
    /// later reconnects. The client is connected if the attempt succeeded and
    /// disconnected if not; a send that was under way is over.
    pub fn connect(&mut self, url: &str, established: bool) -> (result: Result<(), LinkError>)
        ensures
            final(self).url@ == url@,
            final(self).state() == (LinkState { connected: established, phase: Phase::Idle }),
            established ==> result is Ok,
            !established ==> result == Err::<(), LinkError>(LinkError::ConnectFailed),
    {
        self.url = String::from_str(url);
        self.connected = established;
        self.phase = Phase::Idle;
        if established {
            Ok(())
        } else {
            Err(LinkError::ConnectFailed)
        }
    }

    /// The client of a first connection attempt: connected to the address if
    /// the attempt succeeded, and none if not.
    pub fn create_new(url: &str, established: bool) -> (result: Result<WebSocketClient, LinkError>)
        ensures
            established ==> result is Ok && result->Ok_0.url@ == url@ && result->Ok_0.state() == (
            LinkState { connected: true, phase: Phase::Idle }),
            !established ==> result is Err && result->Err_0 == LinkError::ConnectFailed,
    {
        if established {
            Ok(WebSocketClient { url: String::from_str(url), connected: true, phase: Phase::Idle })
        } else {
            Err(LinkError::ConnectFailed)
        }
    }

    /// The one client of the process: the one that exists, untouched, or a
    /// new one from a first connection attempt.
    pub fn get_or_init_websocket_client(
        existing: Option<WebSocketClient>,
        url: &str,
        established: bool,
    ) -> (result: Result<WebSocketClient, LinkError>)
        ensures
            existing is Some ==> result == Ok::<WebSocketClient, LinkError>(existing->0),
            existing is None && established ==> result is Ok && result->Ok_0.url@ == url@
                && result->Ok_0.state() == (LinkState { connected: true, phase: Phase::Idle }),
            existing is None && !established ==> result is Err && result->Err_0
                == LinkError::ConnectFailed,
    {
        match existing {
            Some(client) => Ok(client),
            None => WebSocketClient::create_new(url, established),
        }
    }

    /// Advances a send by one event and says what to do next. The stored
    /// address is kept.
    pub fn send(&mut self, event: LinkEvent) -> (action: LinkAction)
        ensures
            (final(self).state(), action) == step(old(self).state(), event),
            final(self).url == old(self).url,
    {
        let (connected, phase, action) = match (self.phase, event) {
            (Phase::Idle, LinkEvent::Begin) => {
                if self.connected {
                    (true, Phase::Sending, LinkAction::Transmit)
                } else {
                    (false, Phase::Idle, LinkAction::Fail(LinkError::NoConnection))
                }
            },
            (Phase::Idle, _) => (self.connected, Phase::Idle, LinkAction::Fail(LinkError::OutOfTurn)),
            (Phase::Sending, LinkEvent::Sent) => (true, Phase::Idle, LinkAction::Done),
            (Phase::Sending, LinkEvent::SendFailed) => (
                false,
                Phase::Reconnecting,
                LinkAction::Reconnect,
            ),
            (Phase::Reconnecting, LinkEvent::Connected) => (
                true,
                Phase::Retrying,
                LinkAction::Transmit,
            ),
            (Phase::Reconnecting, LinkEvent::ConnectFailed) => (
                false,
                Phase::Idle,
                LinkAction::Fail(LinkError::ReconnectFailed),
            ),
            (Phase::Retrying, LinkEvent::Sent) => (true, Phase::Idle, LinkAction::Done),
            (Phase::Retrying, LinkEvent::SendFailed) => (
                false,
                Phase::Idle,
                LinkAction::Fail(LinkError::RetryFailed),
            ),
            _ => (false, Phase::Idle, LinkAction::Fail(LinkError::OutOfTurn)),
        };
        self.connected = connected;
        self.phase = phase;
        action
    }

    /// Whether there is a connection to receive from.
    pub fn receive(&self) -> (ready: bool)
        ensures
            ready == self.connected,
    {
        self.connected
    }

    /// Takes note that the connection is closed. Without a connection there
    /// is nothing to close.
    pub fn close(&mut self) -> (result: Result<(), LinkError>)
        ensures
            final(self).url == old(self).url,
            final(self).state() == (LinkState { connected: false, phase: Phase::Idle }),
            old(self).connected ==> result is Ok,
            !old(self).connected ==> result == Err::<(), LinkError>(LinkError::AlreadyClosed),
    {
        let was_connected = self.connected;
        self.connected = false;
        self.phase = Phase::Idle;
        if was_connected {
            Ok(())
        } else {
            Err(LinkError::AlreadyClosed)
        }
    }
}

/// A send on a connected link whose first transmission fails, whose
/// reconnect succeeds and whose retry succeeds: the message is transmitted
/// again after the reconnect, the send ends without an error, and the link
/// is connected.
pub proof fn lemma_retry_after_reconnect(state: LinkState)
    requires
        state.phase == Phase::Idle,
        state.connected,
    ensures
        ({
            let (s1, a1) = step(state, LinkEvent::Begin);
            let (s2, a2) = step(s1, LinkEvent::SendFailed);
            let (s3, a3) = step(s2, LinkEvent::Connected);
            let (s4, a4) = step(s3, LinkEvent::Sent);
            &&& a1 == LinkAction::Transmit
            &&& a2 == LinkAction::Reconnect
            &&& a3 == LinkAction::Transmit
            &&& a4 == LinkAction::Done
            &&& s4 == (LinkState { connected: true, phase: Phase::Idle })
        }),
{
}

/// A send whose first transmission fails and whose reconnect fails: the
/// error is reported, the send is over and the link is disconnected, so
/// that nothing is transmitted or connected again until a new connection is
/// reported from outside.
pub proof fn lemma_failed_reconnect_is_final(state: LinkState, later: LinkEvent)
    requires
        state.phase == Phase::Idle,
        state.connected,
    ensures
        ({
            let (s1, a1) = step(state, LinkEvent::Begin);
            let (s2, a2) = step(s1, LinkEvent::SendFailed);
            let (s3, a3) = step(s2, LinkEvent::ConnectFailed);
            let (s4, a4) = step(s3, later);
            &&& a1 == LinkAction::Transmit
            &&& a2 == LinkAction::Reconnect
            &&& a3 == LinkAction::Fail(LinkError::ReconnectFailed)
            &&& s3 == (LinkState { connected: false, phase: Phase::Idle })
            &&& a4 is Fail
            &&& s4 == s3
        }),
{
}

/// A retry that fails is not retried: the error is reported, the send is
/// over and the link is disconnected.
pub proof fn lemma_failed_retry_is_final(state: LinkState, later: LinkEvent)
    requires
        state.phase == Phase::Retrying,
    ensures
        ({
            let (s1, a1) = step(state, LinkEvent::SendFailed);
            let (s2, a2) = step(s1, later);
            &&& a1 == LinkAction::Fail(LinkError::RetryFailed)
            &&& s1 == (LinkState { connected: false, phase: Phase::Idle })
            &&& a2 is Fail
            &&& s2 == s1
        }),
{
}

/// No send goes on for ever: whatever is reported, a send that is under way
/// is over after three events at most. Once it is under way the link asks
/// for a reconnect only in answer to the first event, and does not ask for a
/// transmission twice in a row.
pub proof fn lemma_send_is_bounded(state: LinkState, e1: LinkEvent, e2: LinkEvent, e3: LinkEvent)
    requires
        state.phase != Phase::Idle,
    ensures
        ({
            let (s1, a1) = step(state, e1);
            let (s2, a2) = step(s1, e2);
            let (s3, a3) = step(s2, e3);
            &&& s1.phase == Phase::Idle || s2.phase == Phase::Idle || s3.phase == Phase::Idle
            &&& a2 != LinkAction::Reconnect
            &&& s1.phase != Phase::Idle && s2.phase != Phase::Idle ==> a3 != LinkAction::Reconnect
            &&& a1 == LinkAction::Transmit ==> a2 != LinkAction::Transmit
        }),
{
}

/// Without a connection a send fails at once and asks for nothing.
pub proof fn lemma_send_needs_connection(state: LinkState)
    requires
        state.phase == Phase::Idle,
        !state.connected,
    ensures
        step(state, LinkEvent::Begin) == (state, LinkAction::Fail(LinkError::NoConnection)),
{
}

} // verus!
