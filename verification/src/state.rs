//! The service state machine: `transition(state, event) -> (new_state, action)`.

use vstd::prelude::*;

use crate::protocol::{Cmd, Response, SubCmd};

verus! {

/// Service state.
#[derive(Debug, Clone, Copy, PartialEq, Eq, Structural)]
pub enum State {
    Idle,
    Connecting { retry: u8 },
    Connected,
    Running,
    Reconnecting { retry: u8 },
}

/// Event that drives a transition.
#[derive(Debug, Clone, Copy, PartialEq, Eq, Structural)]
pub enum Event {
    /// The serial port was opened.
    SerialOpened,
    /// Handshake succeeded (echoed CRC matches).
    HandshakeOk,
    /// Handshake failed (all-zero response / timeout).
    HandshakeFailed,
    /// The 1 s periodic timer fired.
    TimerTick,
    /// A screen sub-command arrived, with its parameter.
    SubCmdReceived(SubCmd, u32),
    /// Serial port error.
    SerialError,
    /// Service shutdown.
    Shutdown,
}

/// Action that comes with a transition.
#[derive(Debug, Clone, Copy, PartialEq, Eq, Structural)]
pub enum Action {
    Nothing,
    /// Send OnConnect.
    SendOnConnect,
    /// Send OnConnect again.
    ResendOnConnect,
    /// Start the 1 s timer.
    StartTimer,
    /// Send OnNormalInfo.
    SendNormalInfo,
    /// Back off for 5 s.
    Backoff,
    /// Switch the TDP preset (carries the mode id).
    SetTdp(u32),
    /// Reset the preset.
    ResetMode,
    /// Close the port and release resources.
    ShutdownPort,
}

/// The transition table.
pub open spec fn step(state: State, event: Event) -> (State, Action) {
    match (state, event) {
        (_, Event::Shutdown) => (State::Idle, Action::ShutdownPort),
        (State::Idle, Event::SerialOpened) => (State::Connecting { retry: 0 }, Action::SendOnConnect),
        (State::Connecting { .. }, Event::HandshakeOk) => (State::Connected, Action::StartTimer),
        (State::Connecting { retry }, Event::HandshakeFailed) => if retry < 3 {
            (State::Connecting { retry: (retry + 1) as u8 }, Action::ResendOnConnect)
        } else {
            (State::Reconnecting { retry: 0 }, Action::Backoff)
        },
        (State::Connected, Event::TimerTick) => (State::Running, Action::SendNormalInfo),
        (State::Running, Event::SubCmdReceived(SubCmd::Setting, mode_id)) => (
            State::Running,
            Action::SetTdp(mode_id),
        ),
        (State::Running, Event::SubCmdReceived(SubCmd::Reset, _)) => (
            State::Running,
            Action::ResetMode,
        ),
        (State::Running, Event::SerialError) => (
            State::Reconnecting { retry: 0 },
            Action::ResendOnConnect,
        ),
        (State::Reconnecting { .. }, Event::HandshakeOk) => (State::Connected, Action::StartTimer),
        (State::Reconnecting { retry }, Event::HandshakeFailed) => if retry < 3 {
            (State::Reconnecting { retry: (retry + 1) as u8 }, Action::ResendOnConnect)
        } else {
            (State::Reconnecting { retry: 0 }, Action::Backoff)
        },
        (s, _) => (s, Action::Nothing),
    }
}

/// Applies one event: returns the next state and the action to perform.
/// Combinations the table does not list keep the state and do nothing.
pub fn transition(state: State, event: Event) -> (r: (State, Action))
    ensures
        r == step(state, event),
{
    match (state, event) {
        (_, Event::Shutdown) => (State::Idle, Action::ShutdownPort),
        (State::Idle, Event::SerialOpened) => (State::Connecting { retry: 0 }, Action::SendOnConnect),
        (State::Connecting { retry: _ }, Event::HandshakeOk) => (State::Connected, Action::StartTimer),
        (State::Connecting { retry }, Event::HandshakeFailed) => {
            if retry < 3 {
                (State::Connecting { retry: retry + 1 }, Action::ResendOnConnect)
            } else {
                (State::Reconnecting { retry: 0 }, Action::Backoff)
            }
        },
        (State::Connected, Event::TimerTick) => (State::Running, Action::SendNormalInfo),
        (State::Running, Event::SubCmdReceived(SubCmd::Setting, mode_id)) => (
            State::Running,
            Action::SetTdp(mode_id),
        ),
        (State::Running, Event::SubCmdReceived(SubCmd::Reset, _)) => (
            State::Running,
            Action::ResetMode,
        ),
        (State::Running, Event::SerialError) => (
            State::Reconnecting { retry: 0 },
            Action::ResendOnConnect,
        ),
        (State::Reconnecting { retry: _ }, Event::HandshakeOk) => (
            State::Connected,
            Action::StartTimer,
        ),
        (State::Reconnecting { retry }, Event::HandshakeFailed) => {
            if retry < 3 {
                (State::Reconnecting { retry: retry + 1 }, Action::ResendOnConnect)
            } else {
                (State::Reconnecting { retry: 0 }, Action::Backoff)
            }
        },
        (s, _) => (s, Action::Nothing),
    }
}

/// Retry counters never exceed three.
pub open spec fn retries_bounded(s: State) -> bool {
    match s {
        State::Connecting { retry } => retry <= 3,
        State::Reconnecting { retry } => retry <= 3,
        _ => true,
    }
}

/// Every state reached from a state with bounded retries has bounded retries:
/// the handshake is retried at most three times before backing off.
pub proof fn lemma_retries_stay_bounded(s: State, e: Event)
    requires
        retries_bounded(s),
    ensures
        retries_bounded(step(s, e).0),
{
}

/// Shutdown from any state goes to Idle and closes the port; Idle is entered
/// only by Shutdown (or by staying Idle).
pub proof fn lemma_shutdown(s: State, e: Event)
    ensures
        step(s, Event::Shutdown) == (State::Idle, Action::ShutdownPort),
        step(s, e).0 == State::Idle ==> e == Event::Shutdown || s == State::Idle,
{
}

/// Running is left only on a serial error or shutdown; while running, a Set
/// command asks for its mode id and a Reset command asks for a preset reset.
pub proof fn lemma_running(e: Event, m: u32, p: u32)
    ensures
        step(State::Running, e).0 != State::Running ==> e == Event::SerialError || e
            == Event::Shutdown,
        step(State::Running, Event::SubCmdReceived(SubCmd::Setting, m)) == (
            State::Running,
            Action::SetTdp(m),
        ),
        step(State::Running, Event::SubCmdReceived(SubCmd::Reset, p)) == (
            State::Running,
            Action::ResetMode,
        ),
{
}

/// An OnConnect is (re)sent exactly when the next state is a connecting or
/// reconnecting state that counts the attempt.
pub proof fn lemma_on_connect_only_while_connecting(s: State, e: Event)
    ensures
        step(s, e).1 == Action::SendOnConnect || step(s, e).1 == Action::ResendOnConnect ==> (
        step(s, e).0 is Connecting || step(s, e).0 is Reconnecting),
{
}

/// A failed handshake is resent three times before backing off, while
/// connecting and while reconnecting alike: a failure with fewer than three
/// retries counts one more retry and resends OnConnect, a failure after three
/// retries backs off and starts reconnecting from zero, and a success from
/// either connecting state connects and starts the timer.
pub proof fn lemma_failed_handshake_retries(retry: u8)
    ensures
        retry < 3 ==> step(State::Connecting { retry }, Event::HandshakeFailed) == (
            State::Connecting { retry: (retry + 1) as u8 },
            Action::ResendOnConnect,
        ),
        retry < 3 ==> step(State::Reconnecting { retry }, Event::HandshakeFailed) == (
            State::Reconnecting { retry: (retry + 1) as u8 },
            Action::ResendOnConnect,
        ),
        retry >= 3 ==> step(State::Connecting { retry }, Event::HandshakeFailed) == (
            State::Reconnecting { retry: 0 },
            Action::Backoff,
        ),
        retry >= 3 ==> step(State::Reconnecting { retry }, Event::HandshakeFailed) == (
            State::Reconnecting { retry: 0 },
            Action::Backoff,
        ),
        step(State::Connecting { retry }, Event::HandshakeOk) == (State::Connected, Action::StartTimer),
        step(State::Reconnecting { retry }, Event::HandshakeOk) == (State::Connected, Action::StartTimer),
{
}

/// After a serial error, four failed handshakes in a row give three resends
/// and then a back-off.
pub proof fn lemma_reconnect_sequence()
    ensures
        ({
            let (s0, a0) = step(State::Running, Event::SerialError);
            let (s1, a1) = step(s0, Event::HandshakeFailed);
            let (s2, a2) = step(s1, Event::HandshakeFailed);
            let (s3, a3) = step(s2, Event::HandshakeFailed);
            let (s4, a4) = step(s3, Event::HandshakeFailed);
            &&& a0 == Action::ResendOnConnect
            &&& a1 == Action::ResendOnConnect
            &&& a2 == Action::ResendOnConnect
            &&& a3 == Action::ResendOnConnect
            &&& a4 == Action::Backoff
            &&& s4 == State::Reconnecting { retry: 0 }
        }),
{
}

/// OnConnect frames sent before the handshake gives up.
pub const HANDSHAKE_ATTEMPTS: u8 = 3;

/// What follows one handshake attempt.
#[derive(Debug, Clone, Copy, PartialEq, Eq, Structural)]
pub enum HandshakeStep {
    /// The screen echoed the OnConnect frame: connected.
    Connected,
    /// No valid answer (timeout, all zeros, wrong echo): send OnConnect again.
    Resend,
    /// No valid answer to the last allowed attempt: the handshake fails.
    GiveUp,
}

/// The outcome of attempt number `attempt` (counted from 0) whose OnConnect
/// frame had the CRC `sent_crc`, given the screen's answer (`None`: none in time).
pub open spec fn handshake_next(attempt: u8, reply: Option<Response>, sent_crc: u32) -> HandshakeStep {
    let valid = match reply {
        Some(r) => r.recv_crc32 == sent_crc && r.cmd == Cmd::OnConnect.code(),
        None => false,
    };
    if valid {
        HandshakeStep::Connected
    } else if attempt + 1 < HANDSHAKE_ATTEMPTS {
        HandshakeStep::Resend
    } else {
        HandshakeStep::GiveUp
    }
}

/// Decides what follows one handshake attempt.
pub fn handshake_step(attempt: u8, reply: Option<Response>, sent_crc: u32) -> (r: HandshakeStep)
    ensures
        r == handshake_next(attempt, reply, sent_crc),
{
    let valid = match reply {
        Some(resp) => resp.is_valid_handshake(sent_crc),
        None => false,
    };
    if valid {
        HandshakeStep::Connected
    } else if attempt < HANDSHAKE_ATTEMPTS - 1 {
        HandshakeStep::Resend
    } else {
        HandshakeStep::GiveUp
    }
}

/// The handshake sends at most three OnConnect frames: it connects exactly
/// when the reply echoes the CRC sent and the OnConnect command (1); without
/// such a reply the first two attempts are resent and the third gives up.
pub proof fn lemma_handshake_attempts_bounded(attempt: u8, reply: Option<Response>, sent_crc: u32)
    ensures
        handshake_next(attempt, reply, sent_crc) == HandshakeStep::Resend ==> attempt + 1
            < HANDSHAKE_ATTEMPTS,
        (reply matches Some(r) && r.recv_crc32 == sent_crc && r.cmd == Cmd::OnConnect.code())
            ==> handshake_next(attempt, reply, sent_crc) == HandshakeStep::Connected,
        attempt + 1 == HANDSHAKE_ATTEMPTS && handshake_next(attempt, reply, sent_crc)
            != HandshakeStep::Connected ==> handshake_next(attempt, reply, sent_crc)
            == HandshakeStep::GiveUp,
        handshake_next(attempt, reply, sent_crc) == HandshakeStep::Connected ==> reply is Some
            && reply->0.recv_crc32 == sent_crc && reply->0.cmd == 1,
        !(reply is Some && reply->0.recv_crc32 == sent_crc && reply->0.cmd == 1) && attempt < 2
            ==> handshake_next(attempt, reply, sent_crc) == HandshakeStep::Resend,
        !(reply is Some && reply->0.recv_crc32 == sent_crc && reply->0.cmd == 1) && attempt >= 2
            ==> handshake_next(attempt, reply, sent_crc) == HandshakeStep::GiveUp,
{
}

} // verus!
