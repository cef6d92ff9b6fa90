//! The worker that drives the lines: it decides, its owner acts.
//!
//! [`Worker::start`] and [`Worker::step`] say what to do next. The owner of the
//! serial port does it and hands back what became of it.
use crate::config::{
    check_weighting, check_wpm, config_verdict, validate_config, Config, ControlLine,
};
use crate::duration::nanos_of;
use crate::error::Error;
use crate::model::{
    answer, answer_cleared, expects, gap_missing, handle_command, key, key_off_tried, key_released,
    next_job, next_step, ptt_off_tried, rested, state_ok, status_of, step_action, step_nanos,
    step_taken, takes_nothing, transition, valid_command, ActionModel, CommandModel, EventModel,
    Phase, State, Status, StatusModel,
};
use crate::plan::{
    mark_ok, marks_are_at_most_dashes, marks_ok, message_steps, plan_message, Step, CHAR_GAP_UNITS,
};
use crate::timing::{
    lemma_unit_bounds, mark_duration, space_duration, unit, valid_weighting, valid_wpm,
};
use std::collections::VecDeque;
use std::time::Duration;
use vstd::prelude::*;

verus! {

/// A command to the worker.
#[derive(Debug)]
pub enum CommandKind {
    /// Queue a text.
    SendText(String),
    /// Drop the queued texts and the rest of the message being sent.
    ClearBuffer,
    SetWpm(u8),
    SetWeighting(u8),
    SetPttLeadTail { lead: Duration, tail: Duration },
    /// Report the status.
    Status,
    /// Stop working.
    Close,
}

impl View for CommandKind {
    type V = CommandModel;

    open spec fn view(&self) -> CommandModel {
        match self {
            CommandKind::SendText(text) => CommandModel::SendText(text@),
            CommandKind::ClearBuffer => CommandModel::ClearBuffer,
            CommandKind::SetWpm(wpm) => CommandModel::SetWpm(*wpm),
            CommandKind::SetWeighting(weighting) => CommandModel::SetWeighting(*weighting),
            CommandKind::SetPttLeadTail { lead, tail } => CommandModel::SetPttLeadTail {
                lead: nanos_of(*lead),
                tail: nanos_of(*tail),
            },
            CommandKind::Status => CommandModel::Status,
            CommandKind::Close => CommandModel::Close,
        }
    }
}

impl CommandKind {
    /// Whether the command carries only settings that a keyer may have.
    pub fn is_valid(&self) -> (valid: bool)
        ensures
            valid == valid_command(self@),
    {
        match self {
            CommandKind::SetWpm(wpm) => check_wpm(*wpm).is_ok(),
            CommandKind::SetWeighting(weighting) => check_weighting(*weighting).is_ok(),
            _ => true,
        }
    }
}

pub open spec fn command_model(command: Option<CommandKind>) -> Option<CommandModel> {
    match command {
        Some(command) => Some(command@),
        None => None,
    }
}

/// What became of the worker's last action.
#[derive(Debug)]
pub enum Event {
    /// The line was switched, or could not be.
    LineSet(Result<(), Error>),
    /// The time to sleep is over.
    Slept,
    /// The command at hand, or none.
    Polled(Option<CommandKind>),
    /// The command that came in, or none if there will be no more, and how long
    /// it was waited for.
    Received { command: Option<CommandKind>, waited: Duration },
    /// The announcement was made or the answer was given.
    Delivered,
}

impl View for Event {
    type V = EventModel;

    open spec fn view(&self) -> EventModel {
        match self {
            Event::LineSet(result) => EventModel::LineSet(*result),
            Event::Slept => EventModel::Slept,
            Event::Polled(command) => EventModel::Polled(command_model(*command)),
            Event::Received { command, waited } => EventModel::Received {
                command: command_model(*command),
                waited: nanos_of(*waited),
            },
            Event::Delivered => EventModel::Delivered,
        }
    }
}

/// What the worker wants done next.
#[derive(Debug)]
pub enum Action {
    /// Switch a line.
    SetLine { line: ControlLine, on: bool },
    /// Tell whether the worker has started. After an error, there is no more
    /// to do.
    Announce(Result<(), Error>),
    /// Wait for a command.
    Receive,
    /// Look for a command without waiting.
    Poll,
    Sleep(Duration),
    /// Tell what became of the command, and the status if it was asked for.
    Answer { result: Result<(), Error>, status: Option<Status> },
    /// There is no more to do.
    Stop,
}

impl View for Action {
    type V = ActionModel;

    open spec fn view(&self) -> ActionModel {
        match self {
            Action::SetLine { line, on } => ActionModel::SetLine { line: *line, on: *on },
            Action::Announce(result) => ActionModel::Announce(*result),
            Action::Receive => ActionModel::Receive,
            Action::Poll => ActionModel::Poll,
            Action::Sleep(duration) => ActionModel::Sleep(nanos_of(*duration) as nat),
            Action::Answer { result, status } => ActionModel::Answer {
                result: *result,
                status: status_model(*status),
            },
            Action::Stop => ActionModel::Stop,
        }
    }
}

pub open spec fn status_model(status: Option<Status>) -> Option<StatusModel> {
    match status {
        Some(status) => Some(status@),
        None => None,
    }
}

pub open spec fn texts(queue: Seq<String>) -> Seq<Seq<char>> {
    queue.map_values(|text: String| text@)
}

/// The keyer's settings, its queue and how far it has come.
pub struct Worker {
    key_line: ControlLine,
    ptt_line: Option<ControlLine>,
    wpm: u8,
    weighting: u8,
    ptt_lead: Duration,
    ptt_tail: Duration,
    queue: VecDeque<String>,
    key_down: bool,
    ptt_on: bool,
    closing: bool,
    silence: u128,
    fault: Option<Error>,
    phase: Phase,
    steps: Vec<Step>,
    next: usize,
}

impl View for Worker {
    type V = State;

    closed spec fn view(&self) -> State {
        State {
            key_line: self.key_line,
            ptt_line: self.ptt_line,
            wpm: self.wpm,
            weighting: self.weighting,
            ptt_lead: nanos_of(self.ptt_lead),
            ptt_tail: nanos_of(self.ptt_tail),
            queue: texts(self.queue@),
            key_down: self.key_down,
            ptt_on: self.ptt_on,
            closing: self.closing,
            silence: self.silence,
            fault: self.fault,
            phase: self.phase,
            todo: self.steps@.skip(self.next as int),
        }
    }
}

/// The state of a worker that starts with a configuration: nothing has been
/// keyed, so that no gap is missing.
pub open spec fn initial_state(config: Config) -> State {
    State {
        key_line: config.key_line,
        ptt_line: config.ptt_line,
        wpm: config.wpm,
        weighting: config.weighting,
        ptt_lead: nanos_of(config.ptt_lead),
        ptt_tail: nanos_of(config.ptt_tail),
        queue: seq![],
        key_down: false,
        ptt_on: false,
        closing: false,
        silence: u128::MAX,
        fault: None,
        phase: Phase::OpeningKey,
        todo: seq![],
    }
}

impl Worker {
    /// What holds of a worker between two steps.
    pub closed spec fn wf(&self) -> bool {
        &&& self.next <= self.steps@.len()
        &&& state_ok(self@)
    }

    /// What holds of a worker in the middle of a step, whatever its phase.
    spec fn settled(&self) -> bool {
        &&& self.next <= self.steps@.len()
        &&& valid_wpm(self.wpm)
        &&& valid_weighting(self.weighting)
        &&& self.ptt_line != Some(self.key_line)
        &&& marks_ok(self@.todo)
        &&& self.fault is None
    }

    /// A well-formed worker is in a consistent state.
    pub proof fn lemma_wf(&self)
        requires
            self.wf(),
        ensures
            state_ok(self@),
    {
    }

    /// A worker for a valid configuration, and the first thing to do: switch
    /// the key line off.
    pub fn start(config: &Config) -> (started: Result<(Worker, Action), Error>)
        ensures
            match started {
                Ok((worker, action)) => {
                    &&& config_verdict(*config) is Ok
                    &&& worker.wf()
                    &&& worker@ == initial_state(*config)
                    &&& action@ == key(worker@, false)
                },
                Err(error) => config_verdict(*config) == Err::<(), Error>(error),
            },
    {
        validate_config(config)?;
        let worker = Worker {
            key_line: config.key_line,
            ptt_line: config.ptt_line,
            wpm: config.wpm,
            weighting: config.weighting,
            ptt_lead: config.ptt_lead,
            ptt_tail: config.ptt_tail,
            queue: VecDeque::new(),
            key_down: false,
            ptt_on: false,
            closing: false,
            silence: u128::MAX,
            fault: None,
            phase: Phase::OpeningKey,
            steps: Vec::new(),
            next: 0,
        };
        assert(worker@.todo =~= seq![]);
        assert(worker@.queue =~= seq![]);
        let action = Action::SetLine { line: config.key_line, on: false };
        Ok((worker, action))
    }

    /// The status to report.
    pub fn status(&self) -> (status: Status)
        ensures
            status@ == status_of(self@),
            status.key_down == self@.key_down,
            status.ptt_on == self@.ptt_on,
            status.queued_messages == self@.queue.len(),
            status.busy == (status.key_down || status.ptt_on || status.queued_messages > 0),
    {
        Status {
            key_down: self.key_down,
            ptt_on: self.ptt_on,
            busy: self.key_down || self.ptt_on || self.queue.len() > 0,
            queued_messages: self.queue.len(),
        }
    }

    /// Whether an event answers the action that was last asked for.
    pub fn expects(&self, event: &Event) -> (expected: bool)
        requires
            self.wf(),
        ensures
            expected == expects(self@, event@),
    {
        match self.phase {
            Phase::OpeningKey
            | Phase::OpeningPtt
            | Phase::ClearingKey
            | Phase::ClearingPtt
            | Phase::Releasing
            | Phase::ClosingKey
            | Phase::ClosingPtt => matches!(event, Event::LineSet(_)),
            Phase::Announcing | Phase::Answering => matches!(event, Event::Delivered),
            Phase::Idle => match event {
                Event::Received { command: Some(command), .. } => command.is_valid(),
                Event::Received { command: None, .. } => true,
                _ => false,
            },
            Phase::Sending => {
                let step: Step = self.steps[self.next];
                assert(step == self@.todo[0]);
                match step {
                    Step::PttOn | Step::KeyDown | Step::KeyUp => matches!(event, Event::LineSet(_)),
                    Step::Poll => match event {
                        Event::Polled(Some(command)) => command.is_valid(),
                        Event::Polled(None) => true,
                        _ => false,
                    },
                    _ => matches!(event, Event::Slept),
                }
            },
            Phase::Tail => matches!(event, Event::Slept),
            Phase::Stopped => false,
        }
    }

    fn switch_key(&self, on: bool) -> (action: Action)
        ensures
            action@ == key(self@, on),
    {
        Action::SetLine { line: self.key_line, on }
    }
}

impl Worker {
    /// Finds the next thing to do, between two messages or inside one.
    fn advance(&mut self, in_message: bool) -> (action: Action)
        requires
            old(self).settled(),
            !in_message ==> old(self)@.todo.len() == 0,
        ensures
            final(self).wf(),
            (final(self)@, action@) == (if in_message {
                next_step(old(self)@)
            } else {
                next_job(old(self)@)
            }),
    {
        let mut sending: bool = in_message;
        loop
            invariant
                self.settled(),
                !sending ==> self@.todo.len() == 0,
                (if sending {
                    next_step(self@)
                } else {
                    next_job(self@)
                }) == (if in_message {
                    next_step(old(self)@)
                } else {
                    next_job(old(self)@)
                }),
            decreases self@.queue.len(), sending as int, self@.todo.len(),
        {
            if !sending {
                if self.closing {
                    self.phase = Phase::ClosingKey;
                    return self.switch_key(false);
                }
                let ghost before = self@;
                match self.queue.pop_front() {
                    Some(text) => {
                        proof {
                            marks_are_at_most_dashes(text@, true);
                        }
                        self.steps = plan_message(text.as_str());
                        self.next = 0;
                        sending = true;
                        assert(self@.todo =~= message_steps(before.queue[0], true));
                        assert(self@.queue =~= before.queue.drop_first());
                    },
                    None => {
                        self.phase = Phase::Idle;
                        return Action::Receive;
                    },
                }
            } else if self.next == self.steps.len() {
                assert(self@.todo.len() == 0);
                if self.queue.len() == 0 {
                    self.phase = Phase::Tail;
                    return Action::Sleep(self.ptt_tail);
                }
                sending = false;
            } else {
                let step: Step = self.steps[self.next];
                assert(step == self@.todo[0]);
                if !self.takes_nothing(step) {
                    self.phase = Phase::Sending;
                    return self.perform(step);
                }
                let ghost before = self@;
                self.finish_step(step);
                assert(self@.queue == before.queue && self@.todo.len() < before.todo.len());
            }
        }
    }

    /// What is missing of the gap to the character keyed before.
    fn gap_missing(&self) -> (nanos: u64)
        requires
            valid_wpm(self@.wpm),
        ensures
            nanos == gap_missing(self@),
    {
        proof {
            lemma_unit_bounds(self.wpm);
        }
        let gap: u64 = CHAR_GAP_UNITS as u64 * unit(self.wpm);
        if self.silence >= gap as u128 {
            0
        } else {
            gap - self.silence as u64
        }
    }

    /// Whether there is nothing to be done for a step.
    fn takes_nothing(&self, step: Step) -> (nothing: bool)
        requires
            valid_wpm(self@.wpm),
        ensures
            nothing == takes_nothing(self@, step),
    {
        match step {
            Step::PttOn => self.ptt_line.is_none(),
            Step::Gap => self.gap_missing() == 0,
            _ => false,
        }
    }

    /// How long a step of a message lasts at the moment.
    fn step_duration(&self, step: Step) -> (duration: Duration)
        requires
            self.settled(),
            mark_ok(step),
        ensures
            nanos_of(duration) == step_nanos(self@, step),
    {
        proof {
            lemma_unit_bounds(self.wpm);
        }
        let unit: u64 = unit(self.wpm);
        match step {
            Step::Lead => self.ptt_lead,
            Step::Gap => Duration::from_nanos(self.gap_missing()),
            Step::Rest(units) => {
                assert(units * unit <= 255 * 240_000_000) by (nonlinear_arith)
                    requires
                        units <= 255,
                        unit <= 240_000_000,
                ;
                Duration::from_nanos(units as u64 * unit)
            },
            Step::Mark(units) => {
                assert(units * unit <= 3 * 240_000_000) by (nonlinear_arith)
                    requires
                        units <= 3,
                        unit <= 240_000_000,
                ;
                Duration::from_nanos(mark_duration(units as u64 * unit, self.weighting))
            },
            Step::Space => Duration::from_nanos(space_duration(unit, self.wpm, self.weighting)),
            _ => Duration::from_nanos(0),
        }
    }

    /// What a step of a message takes at the moment.
    fn perform(&self, step: Step) -> (action: Action)
        requires
            self.settled(),
            mark_ok(step),
        ensures
            action@ == step_action(self@, step),
    {
        match step {
            Step::PttOn => match self.ptt_line {
                Some(line) => Action::SetLine { line, on: true },
                None => Action::Stop,
            },
            Step::Poll => Action::Poll,
            Step::KeyDown => self.switch_key(true),
            Step::KeyUp => self.switch_key(false),
            _ => Action::Sleep(self.step_duration(step)),
        }
    }

    /// Notes a time of sleeping or waiting.
    fn rest(&mut self, duration: Duration)
        ensures
            final(self)@ == rested(old(self)@, nanos_of(duration) as nat),
            old(self).settled() ==> final(self).settled(),
    {
        self.silence = self.silence.saturating_add(duration.as_nanos());
    }

    /// Notes that the key is up.
    fn release_key(&mut self)
        ensures
            final(self)@ == key_released(old(self)@),
            old(self).settled() ==> final(self).settled(),
    {
        if self.key_down {
            self.silence = 0;
        }
        self.key_down = false;
    }

    /// Notes that the first remaining step, which is `step`, has been taken.
    fn finish_step(&mut self, step: Step)
        requires
            old(self).settled(),
            old(self)@.todo.len() > 0,
            step == old(self)@.todo[0],
        ensures
            final(self)@ == step_taken(old(self)@),
            final(self).settled(),
    {
        assert(mark_ok(step));
        match step {
            Step::PttOn => {
                self.ptt_on = true;
            },
            Step::KeyDown => {
                self.key_down = true;
            },
            Step::Mark(_) => {
                self.silence = 0;
            },
            Step::KeyUp => {
                self.release_key();
            },
            Step::Poll => {},
            _ => {
                let duration: Duration = self.step_duration(step);
                self.rest(duration);
            },
        }
        assert(self.next < self.steps.len());
        self.next = self.next + 1;
        let ghost rest = self.steps@.skip(self.next as int);
        assert(rest =~= old(self)@.todo.drop_first());
        assert forall|i: int| 0 <= i < rest.len() implies mark_ok(#[trigger] rest[i]) by {
            assert(rest[i] == old(self)@.todo[i + 1]);
        }
    }

    /// Goes on to the answer to a command.
    fn answer(&mut self, status: Option<Status>) -> (action: Action)
        requires
            old(self).settled(),
            old(self)@.todo.len() > 0 ==> old(self)@.todo[0] == Step::Poll,
        ensures
            final(self).wf(),
            (final(self)@, action@) == answer(old(self)@, status_model(status)),
    {
        self.phase = Phase::Answering;
        Action::Answer { result: Ok(()), status }
    }

    /// Goes on to the answer to a command to clear the buffer.
    fn answer_cleared(&mut self, result: Result<(), Error>) -> (action: Action)
        requires
            old(self).settled(),
            old(self)@.todo.len() > 0 ==> old(self)@.todo[0] == Step::Poll,
        ensures
            final(self).wf(),
            (final(self)@, action@) == answer_cleared(old(self)@, result),
    {
        self.phase = Phase::Answering;
        Action::Answer { result, status: None }
    }

    /// Carries out a command.
    fn handle_command(&mut self, command: CommandKind) -> (action: Action)
        requires
            old(self).settled(),
            old(self)@.todo.len() > 0 ==> old(self)@.todo[0] == Step::Poll,
            valid_command(command@),
        ensures
            final(self).wf(),
            (final(self)@, action@) == handle_command(old(self)@, command@),
    {
        match command {
            CommandKind::SendText(text) => {
                self.queue.push_back(text);
                assert(self@.queue =~= old(self)@.queue.push(text@));
                self.answer(None)
            },
            CommandKind::ClearBuffer => {
                self.queue.clear();
                assert(self@.queue =~= seq![]);
                self.drop_message(self.next < self.steps.len());
                self.phase = Phase::ClearingKey;
                self.switch_key(false)
            },
            CommandKind::SetWpm(wpm) => {
                self.wpm = wpm;
                self.answer(None)
            },
            CommandKind::SetWeighting(weighting) => {
                self.weighting = weighting;
                self.answer(None)
            },
            CommandKind::SetPttLeadTail { lead, tail } => {
                self.ptt_lead = lead;
                self.ptt_tail = tail;
                self.answer(None)
            },
            CommandKind::Status => {
                let status: Status = self.status();
                self.answer(Some(status))
            },
            CommandKind::Close => {
                self.closing = true;
                self.answer(None)
            },
        }
    }

    /// Drops the steps of the message, or leaves only the commands at hand.
    fn drop_message(&mut self, keep_poll: bool)
        ensures
            final(self)@ == (State {
                todo: if keep_poll {
                    seq![Step::Poll]
                } else {
                    seq![]
                },
                ..old(self)@
            }),
            final(self).next <= final(self).steps@.len(),
    {
        self.steps = Vec::new();
        self.next = 0;
        if keep_poll {
            self.steps.push(Step::Poll);
        }
        assert(self@.todo =~= (if keep_poll {
            seq![Step::Poll]
        } else {
            seq![]
        }));
    }

    /// Notes what became of an attempt to switch the key off.
    fn key_off_tried(&mut self, result: &Result<(), Error>)
        ensures
            final(self)@ == key_off_tried(old(self)@, EventModel::LineSet(*result)),
            old(self).settled() ==> final(self).settled(),
    {
        if result.is_ok() {
            self.release_key();
        }
    }

    /// Notes what became of an attempt to switch PTT off.
    fn ptt_off_tried(&mut self, result: &Result<(), Error>)
        ensures
            final(self)@ == ptt_off_tried(old(self)@, EventModel::LineSet(*result)),
            old(self).settled() ==> final(self).settled(),
    {
        if result.is_ok() {
            self.ptt_on = false;
        }
    }

    /// Takes up what became of the last action and finds the next one.
    pub fn step(&mut self, event: Event) -> (action: Action)
        requires
            old(self).wf(),
            expects(old(self)@, event@),
        ensures
            final(self).wf(),
            (final(self)@, action@) == transition(old(self)@, event@),
    {
        match (self.phase, event) {
            (Phase::OpeningKey, Event::LineSet(Ok(_))) => match self.ptt_line {
                Some(line) => {
                    self.phase = Phase::OpeningPtt;
                    Action::SetLine { line, on: false }
                },
                None => {
                    self.phase = Phase::Announcing;
                    Action::Announce(Ok(()))
                },
            },
            (Phase::OpeningPtt, Event::LineSet(Ok(_))) => {
                self.phase = Phase::Announcing;
                Action::Announce(Ok(()))
            },
            (Phase::OpeningKey | Phase::OpeningPtt, Event::LineSet(Err(error))) => {
                self.phase = Phase::Stopped;
                Action::Announce(Err(error))
            },
            (Phase::Announcing, Event::Delivered) => self.advance(false),
            (Phase::Idle, Event::Received { command, waited }) => {
                self.rest(waited);
                match command {
                    Some(command) => self.handle_command(command),
                    None => {
                        self.closing = true;
                        self.advance(false)
                    },
                }
            },
            (Phase::Sending, event) => self.step_over(event),
            (Phase::ClearingKey, Event::LineSet(result)) => {
                self.key_off_tried(&result);
                match self.ptt_line {
                    Some(line) => {
                        self.phase = Phase::ClearingPtt;
                        self.fault = match result {
                            Ok(_) => None,
                            Err(error) => Some(error),
                        };
                        Action::SetLine { line, on: false }
                    },
                    None => {
                        self.ptt_on = false;
                        self.answer_cleared(result)
                    },
                }
            },
            (Phase::ClearingPtt, Event::LineSet(result)) => {
                let fault: Option<Error> = self.fault.take();
                self.ptt_off_tried(&result);
                match fault {
                    Some(error) => self.answer_cleared(Err(error)),
                    None => self.answer_cleared(result),
                }
            },
            (Phase::Answering, Event::Delivered) => {
                if self.next < self.steps.len() {
                    self.phase = Phase::Sending;
                    Action::Poll
                } else {
                    self.advance(false)
                }
            },
            (Phase::Tail, Event::Slept) => {
                self.rest(self.ptt_tail);
                match self.ptt_line {
                    Some(line) => {
                        self.phase = Phase::Releasing;
                        Action::SetLine { line, on: false }
                    },
                    None => {
                        self.ptt_on = false;
                        self.advance(false)
                    },
                }
            },
            (Phase::Releasing, Event::LineSet(result)) => {
                self.ptt_off_tried(&result);
                self.advance(false)
            },
            (Phase::ClosingKey, Event::LineSet(result)) => {
                self.key_off_tried(&result);
                match self.ptt_line {
                    Some(line) => {
                        self.phase = Phase::ClosingPtt;
                        Action::SetLine { line, on: false }
                    },
                    None => {
                        self.ptt_on = false;
                        self.phase = Phase::Stopped;
                        Action::Stop
                    },
                }
            },
            (Phase::ClosingPtt, Event::LineSet(result)) => {
                self.ptt_off_tried(&result);
                self.phase = Phase::Stopped;
                Action::Stop
            },
            _ => Action::Stop,
        }
    }

    /// Goes on after the first remaining step of a message.
    fn step_over(&mut self, event: Event) -> (action: Action)
        requires
            old(self).wf(),
            old(self)@.phase == Phase::Sending,
            expects(old(self)@, event@),
        ensures
            final(self).wf(),
            (final(self)@, action@) == transition(old(self)@, event@),
    {
        assert(self.next < self.steps.len());
        let step: Step = self.steps[self.next];
        assert(step == self@.todo[0]);
        match (step, event) {
            (Step::PttOn | Step::KeyDown | Step::KeyUp, Event::LineSet(Err(_))) => {
                self.drop_message(false);
                self.advance(false)
            },
            (Step::Poll, Event::Polled(Some(command))) => self.handle_command(command),
            (Step::Poll, Event::Polled(None)) if self.closing => {
                self.drop_message(false);
                self.advance(true)
            },
            _ => {
                self.finish_step(step);
                self.advance(true)
            },
        }
    }
}

} // verus!
