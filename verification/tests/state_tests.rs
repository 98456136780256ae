use am02_service::power::tdp_limits;
use am02_service::protocol::{SubCmd, TdpMode};
use am02_service::protocol::Response;
use am02_service::state::{handshake_step, transition, Action, Event, HandshakeStep, State, HANDSHAKE_ATTEMPTS};

#[test]
fn handshake_path_to_running() {
    let (s, a) = transition(State::Idle, Event::SerialOpened);
    assert_eq!((s, a), (State::Connecting { retry: 0 }, Action::SendOnConnect));
    let (s, a) = transition(s, Event::HandshakeOk);
    assert_eq!((s, a), (State::Connected, Action::StartTimer));
    let (s, a) = transition(s, Event::TimerTick);
    assert_eq!((s, a), (State::Running, Action::SendNormalInfo));
    assert_eq!(
        transition(s, Event::SubCmdReceived(SubCmd::Setting, 2)),
        (State::Running, Action::SetTdp(2))
    );
    assert_eq!(
        transition(s, Event::SubCmdReceived(SubCmd::Reset, 9)),
        (State::Running, Action::ResetMode)
    );
    assert_eq!(
        transition(s, Event::SubCmdReceived(SubCmd::Compute, 1)),
        (State::Running, Action::Nothing)
    );
}

#[test]
fn three_retries_then_backoff() {
    let mut s = State::Connecting { retry: 0 };
    for r in 1..=3u8 {
        let (n, a) = transition(s, Event::HandshakeFailed);
        assert_eq!((n, a), (State::Connecting { retry: r }, Action::ResendOnConnect));
        s = n;
    }
    assert_eq!(
        transition(s, Event::HandshakeFailed),
        (State::Reconnecting { retry: 0 }, Action::Backoff)
    );
    let mut s = State::Reconnecting { retry: 2 };
    let (n, a) = transition(s, Event::HandshakeFailed);
    assert_eq!((n, a), (State::Reconnecting { retry: 3 }, Action::ResendOnConnect));
    s = n;
    assert_eq!(
        transition(s, Event::HandshakeFailed),
        (State::Reconnecting { retry: 0 }, Action::Backoff)
    );
    assert_eq!(transition(s, Event::HandshakeOk), (State::Connected, Action::StartTimer));
}

#[test]
fn serial_error_shutdown_and_ignored_events() {
    assert_eq!(
        transition(State::Running, Event::SerialError),
        (State::Reconnecting { retry: 0 }, Action::ResendOnConnect)
    );
    for s in [State::Idle, State::Connected, State::Running, State::Connecting { retry: 1 }, State::Reconnecting { retry: 3 }] {
        assert_eq!(transition(s, Event::Shutdown), (State::Idle, Action::ShutdownPort));
    }
    assert_eq!(transition(State::Idle, Event::TimerTick), (State::Idle, Action::Nothing));
    assert_eq!(transition(State::Connected, Event::SerialError), (State::Connected, Action::Nothing));
}

#[test]
fn tdp_limits_table() {
    let l = tdp_limits(TdpMode::ClassicGame);
    assert_eq!((l.stapm, l.fast, l.slow), (40_000, 45_000, 35_000));
    let l = tdp_limits(TdpMode::PcOffice);
    assert_eq!((l.stapm, l.fast, l.slow), (20_000, 25_000, 15_000));
    let l = tdp_limits(TdpMode::AaaGame);
    assert_eq!((l.stapm, l.fast, l.slow), (45_000, 50_000, 40_000));
    let l = tdp_limits(TdpMode::RetroGame);
    assert_eq!((l.stapm, l.fast, l.slow), (30_000, 35_000, 25_000));
}

#[test]
fn handshake_steps_connect_resend_and_give_up() {
    let echo = Response { recv_crc32: 0x1234_5678, cmd: 1, sub_cmd: 0, sub_param: 0, status: 0 };
    let zero = Response { recv_crc32: 0, cmd: 0, sub_cmd: 0, sub_param: 0, status: 0 };
    assert_eq!(HANDSHAKE_ATTEMPTS, 3);
    assert_eq!(handshake_step(0, Some(echo), 0x1234_5678), HandshakeStep::Connected);
    assert_eq!(handshake_step(2, Some(echo), 0x1234_5678), HandshakeStep::Connected);
    assert_eq!(handshake_step(0, None, 0x1234_5678), HandshakeStep::Resend);
    assert_eq!(handshake_step(1, Some(zero), 0x1234_5678), HandshakeStep::Resend);
    assert_eq!(handshake_step(1, Some(echo), 0x1234_5679), HandshakeStep::Resend);
    assert_eq!(handshake_step(2, None, 0x1234_5678), HandshakeStep::GiveUp);
    assert_eq!(handshake_step(2, Some(zero), 0x1234_5678), HandshakeStep::GiveUp);
}
