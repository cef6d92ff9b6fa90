use cw_serial_keyer::worker::{Action, CommandKind, Event, Worker};
use cw_serial_keyer::{Config, ControlLine, Error, Status};
use std::collections::VecDeque;
use std::path::PathBuf;
use std::time::Duration;

const LEAD: Duration = Duration::from_millis(10);
const TAIL: Duration = Duration::from_millis(15);

/// A worker with the action it waits for and what has been done so far.
struct Rig {
    worker: Worker,
    action: Option<Action>,
    /// Commands that come in at the next poll, or are received when idle.
    commands: VecDeque<CommandKind>,
    /// How many polls find no command before the next one does.
    polls_before: usize,
    /// How long every command is waited for when idle.
    waited: Duration,
    /// Lines that fail to switch to the given side.
    broken: Option<(ControlLine, bool)>,
    log: Vec<String>,
    answers: usize,
    /// What commands were refused with.
    refusals: Vec<Error>,
    statuses: Vec<Status>,
    stopped: bool,
}

fn line_name(line: ControlLine) -> &'static str {
    match line {
        ControlLine::Dtr => "dtr",
        ControlLine::Rts => "rts",
    }
}

impl Rig {
    fn new(config: Config) -> Rig {
        let (worker, action) = Worker::start(&config).ok().unwrap();
        Rig {
            worker,
            action: Some(action),
            commands: VecDeque::new(),
            polls_before: 0,
            waited: Duration::ZERO,
            broken: None,
            log: Vec::new(),
            answers: 0,
            refusals: Vec::new(),
            statuses: Vec::new(),
            stopped: false,
        }
    }

    fn with_ptt() -> Rig {
        let mut rig = Rig::new(ptt_config());
        rig.run();
        rig.log.clear();
        rig
    }

    fn without_ptt() -> Rig {
        let mut rig = Rig::new(Config::new(PathBuf::from("/dev/null")).wpm(20));
        rig.run();
        rig.log.clear();
        rig
    }

    fn push(&mut self, command: CommandKind) {
        self.commands.push_back(command);
    }

    fn send(&mut self, text: &str) {
        self.push(CommandKind::SendText(text.to_string()));
    }

    /// Runs until the worker waits for a command that does not come, or stops.
    fn run(&mut self) {
        while let Some(action) = self.action.take() {
            let event = match action {
                Action::SetLine { line, on } => {
                    let result = if self.broken == Some((line, on)) {
                        self.log.push(format!("{} fails", line_name(line)));
                        Err(Error::Closed)
                    } else {
                        let side = if on { "on" } else { "off" };
                        self.log.push(format!("{} {}", line_name(line), side));
                        Ok(())
                    };
                    Event::LineSet(result)
                }
                Action::Announce(Ok(())) => {
                    self.log.push("ready".to_string());
                    Event::Delivered
                }
                Action::Announce(Err(error)) => {
                    self.log.push(error.to_string());
                    return;
                }
                Action::Receive => match self.commands.pop_front() {
                    Some(command) => {
                        let waited = self.waited;
                        Event::Received { command: Some(command), waited }
                    }
                    None => {
                        self.action = Some(Action::Receive);
                        return;
                    }
                },
                Action::Poll => {
                    if self.polls_before > 0 {
                        self.polls_before -= 1;
                        Event::Polled(None)
                    } else {
                        Event::Polled(self.commands.pop_front())
                    }
                }
                Action::Sleep(duration) => {
                    self.log.push(format!("{}", duration.as_nanos() / 1_000_000));
                    Event::Slept
                }
                Action::Answer { result, status } => {
                    self.answers += 1;
                    if let Err(error) = result {
                        self.refusals.push(error);
                    }
                    if let Some(status) = status {
                        self.statuses.push(status);
                    }
                    Event::Delivered
                }
                Action::Stop => {
                    self.stopped = true;
                    return;
                }
            };
            assert!(self.worker.expects(&event));
            self.action = Some(self.worker.step(event));
        }
    }

    fn log(&self) -> String {
        self.log.join(", ")
    }
}

fn received(command: Option<CommandKind>) -> Event {
    Event::Received { command, waited: Duration::ZERO }
}

fn ptt_config() -> Config {
    Config::new(PathBuf::from("/dev/null"))
        .wpm(20)
        .ptt_line(Some(ControlLine::Rts))
        .ptt_lead_tail(LEAD, TAIL)
}

fn total_millis(rig: &Rig) -> u64 {
    rig.log.iter().filter_map(|entry| entry.parse::<u64>().ok()).sum()
}

#[test]
fn opening_switches_lines_off() {
    let mut rig = Rig::new(ptt_config());
    rig.run();
    assert_eq!(rig.log(), "dtr off, rts off, ready");
    let mut rig = Rig::new(Config::new(PathBuf::from("/dev/null")).key_line(ControlLine::Rts));
    rig.run();
    assert_eq!(rig.log(), "rts off, ready");
}

#[test]
fn opening_fails_with_the_line() {
    let mut rig = Rig::new(ptt_config());
    rig.broken = Some((ControlLine::Dtr, false));
    rig.run();
    assert_eq!(rig.log(), "dtr fails, keyer worker thread stopped");
    let mut rig = Rig::new(ptt_config());
    rig.broken = Some((ControlLine::Rts, false));
    rig.run();
    assert_eq!(rig.log(), "dtr off, rts fails, keyer worker thread stopped");
}

#[test]
fn invalid_configuration_does_not_start() {
    let config = Config::new(PathBuf::from("/dev/null")).wpm(4);
    assert!(matches!(Worker::start(&config), Err(Error::InvalidWpm(4))));
    let config = Config::new(PathBuf::from("/dev/null")).weighting(91);
    assert!(matches!(Worker::start(&config), Err(Error::InvalidWeighting(91))));
    let config = Config::new(PathBuf::from("/dev/null")).ptt_line(Some(ControlLine::Dtr));
    assert!(matches!(Worker::start(&config), Err(Error::ConflictingLines)));
}

#[test]
fn sends_a_text_under_ptt() {
    let mut rig = Rig::with_ptt();
    rig.send("A T");
    rig.run();
    assert_eq!(
        rig.log(),
        "rts on, 10, dtr on, 60, dtr off, 60, dtr on, 180, dtr off, 420, \
         dtr on, 180, dtr off, 15, rts off"
    );
    assert_eq!(rig.answers, 1);
}

#[test]
fn sends_a_text_without_ptt() {
    let mut rig = Rig::without_ptt();
    rig.send("ee");
    rig.run();
    assert_eq!(rig.log(), "0, dtr on, 60, dtr off, 180, dtr on, 60, dtr off, 0");
    assert_eq!(
        rig.worker.status(),
        Status { key_down: false, ptt_on: false, busy: false, queued_messages: 0 }
    );
}

#[test]
fn paris_and_a_gap_take_fifty_units() {
    let mut rig = Rig::without_ptt();
    rig.send("PARIS ");
    rig.run();
    assert_eq!(total_millis(&rig), 60_000 / 20);
}

#[test]
fn weighting_applies_to_marks_and_spaces() {
    let mut rig = Rig::without_ptt();
    rig.push(CommandKind::SetWeighting(75));
    rig.send("A");
    rig.run();
    assert_eq!(rig.log(), "0, dtr on, 90, dtr off, 30, dtr on, 270, dtr off, 0");
}

#[test]
fn queued_texts_share_ptt() {
    let mut rig = Rig::with_ptt();
    rig.send("E");
    rig.send("T");
    rig.run();
    assert_eq!(
        rig.log(),
        "rts on, 10, dtr on, 60, dtr off, rts on, 10, 170, dtr on, 180, dtr off, 15, rts off"
    );
}

#[test]
fn texts_sent_one_by_one_are_kept_apart() {
    let mut rig = Rig::without_ptt();
    rig.send("E");
    rig.polls_before = 1;
    rig.send("T");
    rig.run();
    assert_eq!(rig.log(), "0, dtr on, 60, dtr off, 0, 0, 180, dtr on, 180, dtr off, 0");
}

#[test]
fn a_text_after_a_long_wait_begins_at_once() {
    let mut rig = Rig::without_ptt();
    rig.send("E");
    rig.run();
    rig.log.clear();
    rig.waited = Duration::from_millis(180);
    rig.send("E");
    rig.run();
    assert_eq!(rig.log(), "0, dtr on, 60, dtr off, 0");
}

#[test]
fn what_is_missing_of_a_gap_is_made_up() {
    let mut rig = Rig::with_ptt();
    rig.send("E");
    rig.run();
    rig.log.clear();
    rig.waited = Duration::from_millis(100);
    rig.send("T");
    rig.run();
    assert_eq!(rig.log(), "rts on, 10, 55, dtr on, 180, dtr off, 15, rts off");
}

#[test]
fn waiting_adds_up_over_commands() {
    let mut rig = Rig::without_ptt();
    rig.send("E");
    rig.run();
    rig.log.clear();
    rig.waited = Duration::from_millis(90);
    rig.push(CommandKind::Status);
    rig.send("E");
    rig.run();
    assert_eq!(rig.log(), "0, dtr on, 60, dtr off, 0");
    rig.waited = Duration::MAX;
    rig.push(CommandKind::Status);
    rig.push(CommandKind::Status);
    rig.send("E");
    rig.run();
    assert!(rig.log().ends_with("0, 0, dtr on, 60, dtr off, 0"));
}

#[test]
fn a_lead_as_long_as_the_gap_leaves_none_to_make_up() {
    let mut rig = Rig::with_ptt();
    rig.push(CommandKind::SetPttLeadTail { lead: Duration::from_millis(180), tail: TAIL });
    rig.send("E");
    rig.send("T");
    rig.run();
    assert_eq!(
        rig.log(),
        "rts on, 180, dtr on, 60, dtr off, rts on, 180, dtr on, 180, dtr off, 15, rts off"
    );
}

#[test]
fn every_paris_after_a_wait_takes_fifty_units() {
    let mut rig = Rig::without_ptt();
    rig.push(CommandKind::SetWpm(24));
    rig.run();
    rig.waited = Duration::from_millis(150);
    for text in ["PARIS ", "E", "PARIS ", "PARIS "] {
        rig.log.clear();
        rig.send(text);
        rig.run();
        let millis = if text == "E" { 50 } else { 2500 };
        assert_eq!(total_millis(&rig), millis);
    }
}

#[test]
fn settings_stay_in_force() {
    let mut rig = Rig::with_ptt();
    rig.waited = Duration::from_secs(1);
    rig.push(CommandKind::SetWpm(10));
    rig.push(CommandKind::SetWeighting(75));
    rig.push(CommandKind::SetPttLeadTail {
        lead: Duration::from_millis(1),
        tail: Duration::from_millis(2),
    });
    rig.run();
    for _ in 0..3 {
        rig.log.clear();
        rig.send("E");
        rig.push(CommandKind::ClearBuffer);
        rig.polls_before = 1;
        rig.run();
        assert_eq!(rig.log(), "rts on, 1, dtr on, 180, dtr off, 2, rts off, dtr off, rts off");
    }
}

#[test]
fn a_gap_that_was_kept_is_not_kept_twice() {
    let mut rig = Rig::without_ptt();
    rig.send("E ");
    rig.send("T");
    rig.run();
    assert_eq!(rig.log(), "0, dtr on, 60, dtr off, 420, 0, dtr on, 180, dtr off, 0");
    rig.log.clear();
    rig.send("#");
    rig.send("E");
    rig.run();
    assert_eq!(rig.log(), "0, 0, 0, 180, dtr on, 60, dtr off, 0");
}

#[test]
fn a_gap_is_kept_at_the_speed_of_the_moment() {
    let mut rig = Rig::without_ptt();
    rig.send("E");
    rig.polls_before = 1;
    rig.send("T");
    rig.push(CommandKind::SetWpm(10));
    rig.run();
    assert_eq!(rig.log(), "0, dtr on, 60, dtr off, 0, 0, 360, dtr on, 360, dtr off, 0");
}

#[test]
fn a_text_after_an_aborted_one_is_kept_apart() {
    let mut rig = Rig::with_ptt();
    rig.send("EE");
    rig.polls_before = 1;
    rig.push(CommandKind::ClearBuffer);
    rig.send("T");
    rig.run();
    assert_eq!(
        rig.log(),
        "rts on, 10, dtr on, 60, dtr off, dtr off, rts off, \
         rts on, 10, 170, dtr on, 180, dtr off, 15, rts off"
    );
}

#[test]
fn every_accepted_text_is_keyed_whatever_else_is_asked() {
    let marks = |rig: &Rig| -> Vec<String> {
        let mut marks: Vec<String> = Vec::new();
        let mut down = false;
        for entry in rig.log.iter() {
            if down && entry.parse::<u64>().is_ok() {
                marks.push(entry.clone());
            }
            match entry.as_str() {
                "dtr on" => down = true,
                "dtr off" => down = false,
                _ => {}
            }
        }
        marks
    };
    let mut calm = Rig::without_ptt();
    calm.send("ET A");
    calm.run();
    calm.send("N");
    calm.run();
    let mut disturbed = Rig::without_ptt();
    disturbed.send("ET A");
    for _ in 0..3 {
        disturbed.push(CommandKind::Status);
    }
    disturbed.send("N");
    disturbed.push(CommandKind::SetWpm(20));
    disturbed.push(CommandKind::SetWeighting(50));
    disturbed.push(CommandKind::Status);
    disturbed.run();
    assert_eq!(marks(&calm), ["60", "180", "60", "180", "180", "60"]);
    assert_eq!(marks(&calm), marks(&disturbed));
    assert_eq!(disturbed.answers, 8);
}

#[test]
fn texts_queue_up_during_a_message() {
    let mut rig = Rig::with_ptt();
    rig.send("EE");
    rig.send("T");
    rig.push(CommandKind::Status);
    rig.run();
    assert_eq!(
        rig.statuses,
        vec![Status { key_down: false, ptt_on: true, busy: true, queued_messages: 1 }]
    );
    assert_eq!(
        rig.log(),
        "rts on, 10, dtr on, 60, dtr off, 180, dtr on, 60, dtr off, \
         rts on, 10, 170, dtr on, 180, dtr off, 15, rts off"
    );
}

#[test]
fn a_blank_text_only_waits_for_the_tail() {
    let mut rig = Rig::with_ptt();
    rig.send("  ");
    rig.run();
    assert_eq!(rig.log(), "15, rts off");
    let mut rig = Rig::with_ptt();
    rig.send("");
    rig.send("");
    rig.send("E");
    rig.run();
    assert!(rig.log().ends_with("rts on, 10, dtr on, 60, dtr off, 15, rts off"));
}

#[test]
fn settings_change_between_characters() {
    let mut rig = Rig::without_ptt();
    rig.send("EE");
    rig.polls_before = 1;
    rig.push(CommandKind::SetWpm(10));
    rig.run();
    assert_eq!(rig.log(), "0, dtr on, 60, dtr off, 360, dtr on, 120, dtr off, 0");
}

#[test]
fn lead_and_tail_can_be_set() {
    let mut rig = Rig::with_ptt();
    rig.push(CommandKind::SetPttLeadTail {
        lead: Duration::from_millis(1),
        tail: Duration::from_millis(2),
    });
    rig.send("E");
    rig.run();
    assert_eq!(rig.log(), "rts on, 1, dtr on, 60, dtr off, 2, rts off");
}

#[test]
fn clearing_the_buffer_aborts_the_message() {
    let mut rig = Rig::with_ptt();
    rig.send("EEEE");
    rig.send("T");
    rig.push(CommandKind::ClearBuffer);
    rig.push(CommandKind::Status);
    rig.polls_before = 1;
    rig.run();
    assert_eq!(rig.log(), "rts on, 10, dtr on, 60, dtr off, dtr off, rts off, 15, rts off");
    assert_eq!(
        rig.statuses,
        vec![Status { key_down: false, ptt_on: false, busy: false, queued_messages: 0 }]
    );
    assert_eq!(rig.answers, 4);
}

#[test]
fn a_text_after_clearing_is_sent() {
    let mut rig = Rig::with_ptt();
    rig.send("EE");
    rig.push(CommandKind::ClearBuffer);
    rig.send("T");
    rig.run();
    assert_eq!(
        rig.log(),
        "rts on, 10, dtr off, rts off, rts on, 10, dtr on, 180, dtr off, 15, rts off"
    );
}

#[test]
fn clearing_when_idle() {
    let mut rig = Rig::without_ptt();
    rig.push(CommandKind::ClearBuffer);
    rig.run();
    assert_eq!(rig.log(), "dtr off");
    assert_eq!(rig.answers, 1);
}

#[test]
fn clearing_goes_on_when_a_line_fails() {
    let mut rig = Rig::with_ptt();
    rig.send("EE");
    rig.push(CommandKind::ClearBuffer);
    rig.push(CommandKind::Status);
    rig.broken = Some((ControlLine::Rts, false));
    rig.run();
    assert_eq!(
        rig.statuses,
        vec![Status { key_down: false, ptt_on: true, busy: true, queued_messages: 0 }]
    );
    assert_eq!(rig.log(), "rts on, 10, dtr off, rts fails, 15, rts fails");
    assert!(matches!(rig.refusals[..], [Error::Closed]));
}

#[test]
fn clearing_tells_the_first_fault() {
    let mut rig = Rig::with_ptt();
    rig.action = Some(rig.worker.step(received(Some(CommandKind::ClearBuffer))));
    let action = rig.worker.step(Event::LineSet(Err(Error::Closed)));
    assert!(matches!(action, Action::SetLine { line: ControlLine::Rts, on: false }));
    let action = rig.worker.step(Event::LineSet(Err(Error::Timeout)));
    assert!(matches!(action, Action::Answer { result: Err(Error::Closed), status: None }));
    rig.worker.step(Event::Delivered);
    rig.worker.step(received(Some(CommandKind::ClearBuffer)));
    rig.worker.step(Event::LineSet(Err(Error::Timeout)));
    let action = rig.worker.step(Event::LineSet(Ok(())));
    assert!(matches!(action, Action::Answer { result: Err(Error::Timeout), status: None }));
    rig.worker.step(Event::Delivered);
    rig.worker.step(received(Some(CommandKind::ClearBuffer)));
    rig.worker.step(Event::LineSet(Ok(())));
    let action = rig.worker.step(Event::LineSet(Ok(())));
    assert!(matches!(action, Action::Answer { result: Ok(()), status: None }));
}

#[test]
fn clearing_without_ptt_tells_the_fault_of_the_key() {
    let mut rig = Rig::without_ptt();
    rig.broken = Some((ControlLine::Dtr, false));
    rig.push(CommandKind::ClearBuffer);
    rig.run();
    assert!(matches!(rig.refusals[..], [Error::Closed]));
    assert_eq!(rig.log(), "dtr fails");
}

#[test]
fn a_cleared_buffer_switches_nothing_on() {
    let mut rig = Rig::with_ptt();
    rig.send("EEEE");
    rig.send("T");
    rig.push(CommandKind::ClearBuffer);
    rig.push(CommandKind::SetWpm(30));
    rig.run();
    let cleared = rig.log.iter().position(|entry| entry == "dtr off").unwrap();
    assert!(rig.log[cleared..].iter().all(|entry| !entry.ends_with(" on")));
    assert!(rig.refusals.is_empty());
}

#[test]
fn status_right_after_opening() {
    let mut rig = Rig::with_ptt();
    rig.push(CommandKind::Status);
    rig.run();
    assert_eq!(
        rig.statuses,
        vec![Status { key_down: false, ptt_on: false, busy: false, queued_messages: 0 }]
    );
}

#[test]
fn asking_for_the_status_changes_nothing() {
    let mut calm = Rig::with_ptt();
    calm.send("AN");
    calm.run();
    let mut asked = Rig::with_ptt();
    asked.send("AN");
    for _ in 0..3 {
        asked.push(CommandKind::Status);
    }
    asked.run();
    assert_eq!(calm.log(), asked.log());
    assert_eq!(asked.statuses.len(), 3);
    assert!(asked.statuses.iter().all(|status| status.busy && status.queued_messages == 0));
}

#[test]
fn busy_is_key_down_or_ptt_on_or_queued() {
    let mut rig = Rig::without_ptt();
    rig.send("EE");
    rig.send("T");
    rig.send("T");
    rig.push(CommandKind::Status);
    rig.run();
    assert_eq!(rig.statuses.len(), 1);
    assert_eq!(rig.statuses[0].queued_messages, 2);
    for status in rig.statuses.iter() {
        let working = status.key_down || status.ptt_on || status.queued_messages > 0;
        assert_eq!(status.busy, working);
    }
}

#[test]
fn a_keyer_that_is_not_busy_has_keyed_every_text() {
    let mut rig = Rig::with_ptt();
    rig.send("ET");
    rig.send("T");
    rig.run();
    rig.push(CommandKind::Status);
    rig.run();
    assert_eq!(
        rig.statuses,
        vec![Status { key_down: false, ptt_on: false, busy: false, queued_messages: 0 }]
    );
    assert_eq!(
        rig.log(),
        "rts on, 10, dtr on, 60, dtr off, 180, dtr on, 180, dtr off, \
         rts on, 10, 170, dtr on, 180, dtr off, 15, rts off"
    );
}

#[test]
fn texts_after_an_abort_are_keyed_in_order() {
    let mut rig = Rig::with_ptt();
    rig.send("EEEE");
    rig.polls_before = 1;
    rig.send("T");
    rig.push(CommandKind::ClearBuffer);
    rig.send("T");
    rig.push(CommandKind::Status);
    rig.send("A");
    rig.run();
    assert_eq!(
        rig.log(),
        "rts on, 10, dtr on, 60, dtr off, dtr off, rts off, \
         rts on, 10, 170, dtr on, 180, dtr off, \
         rts on, 10, 170, dtr on, 60, dtr off, 60, dtr on, 180, dtr off, 15, rts off"
    );
    rig.push(CommandKind::Status);
    rig.run();
    assert!(rig.statuses[0].busy);
    assert!(!rig.statuses[1].busy);
}

#[test]
fn texts_after_a_failure_are_keyed_in_order() {
    let mut rig = Rig::with_ptt();
    rig.broken = Some((ControlLine::Dtr, true));
    rig.send("E");
    rig.run();
    assert_eq!(rig.log(), "rts on, 10, dtr fails");
    rig.broken = None;
    rig.log.clear();
    rig.send("T");
    rig.send("E");
    rig.run();
    assert_eq!(
        rig.log(),
        "rts on, 10, dtr on, 180, dtr off, rts on, 10, 170, dtr on, 60, dtr off, 15, rts off"
    );
    assert!(!rig.worker.status().busy);
}

#[test]
fn a_worker_that_stops_leaves_off_what_it_can_switch() {
    let mut rig = Rig::with_ptt();
    rig.broken = Some((ControlLine::Dtr, false));
    rig.send("E");
    rig.run();
    assert!(rig.worker.status().key_down);
    rig.broken = None;
    rig.push(CommandKind::Close);
    rig.run();
    assert!(rig.stopped);
    assert!(!rig.worker.status().busy);
}

#[test]
fn a_stuck_key_goes_up_when_the_buffer_is_cleared() {
    let mut rig = Rig::with_ptt();
    rig.broken = Some((ControlLine::Dtr, false));
    rig.send("E");
    rig.run();
    rig.broken = None;
    rig.log.clear();
    rig.waited = Duration::from_secs(1);
    rig.push(CommandKind::ClearBuffer);
    rig.run();
    rig.waited = Duration::ZERO;
    rig.send("T");
    rig.run();
    assert_eq!(
        rig.log(),
        "dtr off, rts off, rts on, 10, 170, dtr on, 180, dtr off, 15, rts off"
    );
}

#[test]
fn stopping_asks_for_both_lines_off_though_they_fail() {
    let mut rig = Rig::with_ptt();
    rig.broken = Some((ControlLine::Dtr, false));
    rig.push(CommandKind::Close);
    rig.run();
    assert!(rig.stopped);
    assert_eq!(rig.log(), "dtr fails, rts off");
    let mut rig = Rig::with_ptt();
    rig.broken = Some((ControlLine::Rts, false));
    rig.push(CommandKind::Close);
    rig.run();
    assert!(rig.stopped);
    assert_eq!(rig.log(), "dtr off, rts fails");
}

#[test]
fn the_start_is_announced_once() {
    let mut rig = Rig::new(ptt_config());
    rig.send("E");
    rig.push(CommandKind::Close);
    rig.run();
    assert!(rig.stopped);
    assert_eq!(rig.log.iter().filter(|entry| *entry == "ready").count(), 1);
}

#[test]
fn ptt_that_fails_drops_the_message() {
    let mut rig = Rig::with_ptt();
    rig.broken = Some((ControlLine::Rts, true));
    rig.send("E");
    rig.run();
    assert_eq!(rig.log(), "rts fails");
    assert!(!rig.worker.status().busy);
}

#[test]
fn a_key_that_fails_drops_the_message() {
    let mut rig = Rig::with_ptt();
    rig.broken = Some((ControlLine::Dtr, true));
    rig.send("E");
    rig.run();
    assert_eq!(rig.log(), "rts on, 10, dtr fails");
    assert!(rig.worker.status().ptt_on);
}

#[test]
fn a_key_that_sticks_is_reported() {
    let mut rig = Rig::with_ptt();
    rig.broken = Some((ControlLine::Dtr, false));
    rig.send("E");
    rig.run();
    assert_eq!(rig.log(), "rts on, 10, dtr on, 60, dtr fails");
    assert_eq!(
        rig.worker.status(),
        Status { key_down: true, ptt_on: true, busy: true, queued_messages: 0 }
    );
}

#[test]
fn closing_when_idle() {
    let mut rig = Rig::with_ptt();
    rig.push(CommandKind::Close);
    rig.run();
    assert!(rig.stopped);
    assert_eq!(rig.log(), "dtr off, rts off");
    assert_eq!(rig.answers, 1);
}

#[test]
fn closing_ends_the_message() {
    let mut rig = Rig::with_ptt();
    rig.send("EEE");
    rig.push(CommandKind::Close);
    rig.polls_before = 1;
    rig.run();
    assert!(rig.stopped);
    assert_eq!(rig.log(), "rts on, 10, dtr on, 60, dtr off, 15, rts off, dtr off, rts off");
}

#[test]
fn closing_leaves_queued_texts_unsent() {
    let mut rig = Rig::with_ptt();
    rig.send("E");
    rig.send("T");
    rig.push(CommandKind::Close);
    rig.run();
    assert!(rig.stopped);
    assert_eq!(rig.log(), "rts on, 10, dtr off, rts off");
}

#[test]
fn a_worker_without_a_handle_stops() {
    let mut rig = Rig::without_ptt();
    let action = rig.worker.step(received(None));
    assert!(matches!(action, Action::SetLine { line: ControlLine::Dtr, on: false }));
    let action = rig.worker.step(Event::LineSet(Ok(())));
    assert!(matches!(action, Action::Stop));
    assert!(!rig.worker.expects(&Event::Delivered));
}

#[test]
fn unexpected_events_are_told_apart() {
    let rig = Rig::with_ptt();
    assert!(!rig.worker.expects(&Event::Slept));
    assert!(!rig.worker.expects(&Event::Delivered));
    assert!(!rig.worker.expects(&Event::LineSet(Ok(()))));
    assert!(!rig.worker.expects(&Event::Polled(None)));
    assert!(!rig.worker.expects(&received(Some(CommandKind::SetWpm(4)))));
    assert!(!rig.worker.expects(&received(Some(CommandKind::SetWeighting(91)))));
    assert!(rig.worker.expects(&received(Some(CommandKind::SetWpm(5)))));
    assert!(rig.worker.expects(&received(None)));
}
