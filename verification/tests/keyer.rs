use cw_serial_keyer::keyer::{IdleWait, Reply};
use cw_serial_keyer::proxy::{
    proxy_client, run_server, ProxyAction, ProxyEvent, ServerAction, ServerEvent,
};
use cw_serial_keyer::worker::{Action, CommandKind};
use cw_serial_keyer::{Config, ControlLine, Error, SerialKeyer, Status};
use std::path::PathBuf;
use std::time::Duration;

fn keyer() -> SerialKeyer {
    SerialKeyer::open(PathBuf::from("/dev/null")).ok().unwrap().keyer
}

fn status(busy: bool) -> Status {
    Status { key_down: false, ptt_on: busy, busy, queued_messages: 0 }
}

#[test]
fn opens_on_dtr_without_ptt() {
    let opening = SerialKeyer::open(PathBuf::from("/dev/ttyS0")).ok().unwrap();
    assert_eq!(opening.config.path, PathBuf::from("/dev/ttyS0"));
    assert_eq!(opening.config.key_line, ControlLine::Dtr);
    assert_eq!(opening.config.ptt_line, None);
    assert!(matches!(
        opening.action,
        Action::SetLine { line: ControlLine::Dtr, on: false }
    ));
    assert_eq!(opening.keyer.timeout(), Duration::from_millis(500));
}

#[test]
fn refuses_an_invalid_configuration() {
    let config = Config::new(PathBuf::from("/dev/null")).weighting(9);
    let opening = SerialKeyer::open_with_config(config);
    assert!(matches!(opening, Err(Error::InvalidWeighting(9))));
}

#[test]
fn timeout_can_be_set() {
    let mut keyer = keyer();
    keyer.set_timeout(Duration::from_secs(2));
    assert_eq!(keyer.timeout(), Duration::from_secs(2));
}

#[test]
fn commands() {
    let keyer = keyer();
    assert!(matches!(keyer.send_text("CQ"), CommandKind::SendText(t) if t == "CQ"));
    assert!(matches!(keyer.clear_buffer(), CommandKind::ClearBuffer));
    assert!(matches!(keyer.status(), CommandKind::Status));
    assert!(matches!(keyer.close(), CommandKind::Close));
    let (lead, tail) = (Duration::from_millis(1), Duration::from_millis(2));
    assert!(matches!(
        keyer.set_ptt_lead_tail(lead, tail),
        CommandKind::SetPttLeadTail { lead: l, tail: t } if l == lead && t == tail
    ));
}

#[test]
fn speed_is_checked() {
    let keyer = keyer();
    assert!(matches!(keyer.set_wpm(5), Ok(CommandKind::SetWpm(5))));
    assert!(matches!(keyer.set_wpm(99), Ok(CommandKind::SetWpm(99))));
    assert!(matches!(keyer.set_wpm(4), Err(Error::InvalidWpm(4))));
    assert!(matches!(keyer.set_wpm(100), Err(Error::InvalidWpm(100))));
}

#[test]
fn weighting_is_checked() {
    let keyer = keyer();
    assert!(matches!(keyer.set_weighting(10), Ok(CommandKind::SetWeighting(10))));
    assert!(matches!(keyer.set_weighting(90), Ok(CommandKind::SetWeighting(90))));
    assert!(matches!(keyer.set_weighting(9), Err(Error::InvalidWeighting(9))));
    assert!(matches!(keyer.set_weighting(91), Err(Error::InvalidWeighting(91))));
}

#[test]
fn replies() {
    assert!(matches!(SerialKeyer::call_ack(Reply::Given(Ok(()))), Ok(())));
    assert!(matches!(
        SerialKeyer::call_ack(Reply::Given(Err(Error::ConflictingLines))),
        Err(Error::ConflictingLines)
    ));
    assert!(matches!(SerialKeyer::call_ack(Reply::NotTaken), Err(Error::Closed)));
    assert!(matches!(SerialKeyer::call_ack(Reply::Late), Err(Error::Timeout)));
    assert!(matches!(SerialKeyer::call_ack(Reply::Dropped), Err(Error::Closed)));
    assert!(matches!(SerialKeyer::settle(Reply::Given(7)), Ok(7)));
    assert!(matches!(SerialKeyer::settle::<u8>(Reply::Late), Err(Error::Timeout)));
}

#[test]
fn waits_until_the_keyer_is_not_busy() {
    assert!(matches!(
        SerialKeyer::wait_until_idle(Ok(status(true))),
        IdleWait::Again(delay) if delay == Duration::from_millis(20)
    ));
    assert!(matches!(
        SerialKeyer::wait_until_idle(Ok(status(false))),
        IdleWait::Done(Ok(()))
    ));
    assert!(matches!(
        SerialKeyer::wait_until_idle(Err(Error::Closed)),
        IdleWait::Done(Err(Error::Closed))
    ));
}

#[test]
fn waits_on_when_a_status_is_late() {
    let late = SerialKeyer::settle::<Status>(Reply::Late);
    assert!(matches!(
        SerialKeyer::wait_until_idle(late),
        IdleWait::Again(delay) if delay == Duration::from_millis(20)
    ));
    let dropped = SerialKeyer::settle::<Status>(Reply::Dropped);
    assert!(matches!(
        SerialKeyer::wait_until_idle(dropped),
        IdleWait::Done(Err(Error::Closed))
    ));
}

#[test]
fn proxy_passes_bytes_on() {
    assert!(matches!(
        proxy_client(ProxyEvent::FromClient(Ok(vec![1, 2]))),
        ProxyAction::ToSerial(bytes) if bytes == [1, 2]
    ));
    assert!(matches!(
        proxy_client(ProxyEvent::FromSerial(Ok(vec![3]))),
        ProxyAction::ToClient(bytes) if bytes == [3]
    ));
    assert!(matches!(
        proxy_client(ProxyEvent::Written(Ok(()))),
        ProxyAction::Listen
    ));
}

#[test]
fn proxy_ends_with_the_client_or_a_failure() {
    assert!(matches!(
        proxy_client(ProxyEvent::FromClient(Ok(vec![]))),
        ProxyAction::Finish(Ok(()))
    ));
    assert!(matches!(
        proxy_client(ProxyEvent::FromClient(Err(Error::Closed))),
        ProxyAction::Finish(Err(Error::Closed))
    ));
    assert!(matches!(
        proxy_client(ProxyEvent::FromSerial(Err(Error::Closed))),
        ProxyAction::Finish(Err(Error::Closed))
    ));
    assert!(matches!(
        proxy_client(ProxyEvent::Written(Err(Error::Closed))),
        ProxyAction::Finish(Err(Error::Closed))
    ));
}

#[test]
fn server_serves_until_it_can_accept_no_more() {
    assert_eq!(run_server(ServerEvent::Accepted(Ok(()))), ServerAction::Serve);
    assert_eq!(run_server(ServerEvent::Served(Ok(()))), ServerAction::Accept);
    assert_eq!(run_server(ServerEvent::Served(Err(Error::Closed))), ServerAction::Accept);
    assert_eq!(run_server(ServerEvent::Accepted(Err(Error::Closed))), ServerAction::Stop);
}

#[test]
fn a_session_hands_each_side_what_the_other_sends() {
    let mut from_client: Vec<Vec<u8>> = vec![vec![], vec![3], vec![1, 2]];
    let mut from_serial: Vec<Vec<u8>> = vec![vec![9], vec![], vec![7, 8]];
    let (mut to_serial, mut to_client) = (Vec::new(), Vec::new());
    let mut turn = 0;
    let mut action = ProxyAction::Listen;
    loop {
        let event = match action {
            ProxyAction::Listen => {
                turn += 1;
                if turn % 2 == 0 {
                    ProxyEvent::FromSerial(Ok(from_serial.pop().unwrap()))
                } else {
                    ProxyEvent::FromClient(Ok(from_client.pop().unwrap()))
                }
            }
            ProxyAction::ToSerial(bytes) => {
                to_serial.extend(bytes);
                ProxyEvent::Written(Ok(()))
            }
            ProxyAction::ToClient(bytes) => {
                to_client.extend(bytes);
                ProxyEvent::Written(Ok(()))
            }
            ProxyAction::Finish(result) => {
                assert!(result.is_ok());
                break;
            }
        };
        action = proxy_client(event);
    }
    assert_eq!(to_serial, vec![1, 2, 3]);
    assert_eq!(to_client, vec![7, 8]);
}
