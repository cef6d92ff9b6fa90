//! The worker as a state machine on plain values: what it does next, given its
//! state and what became of its last action.
use crate::config::ControlLine;
use crate::error::Error;
use crate::plan::{marks_ok, message_steps, Step, CHAR_GAP_UNITS};
use crate::timing::{space_nanos, unit_nanos, valid_weighting, valid_wpm, weighted_nanos};
use vstd::prelude::*;

verus! {

/// Snapshot of the software keyer state.
#[derive(Debug, Clone, Copy, PartialEq, Eq, Structural)]
pub struct Status {
    pub key_down: bool,
    pub ptt_on: bool,
    pub busy: bool,
    pub queued_messages: usize,
}

/// What the worker is waiting for.
#[derive(Debug, Clone, Copy, PartialEq, Eq, Structural)]
pub enum Phase {
    /// The key line is being switched off on opening.
    OpeningKey,
    /// The PTT line is being switched off on opening.
    OpeningPtt,
    /// The worker's start is being announced.
    Announcing,
    /// The next command is awaited.
    Idle,
    /// The first remaining step of a message is under way.
    Sending,
    /// The key line is being switched off to clear the buffer.
    ClearingKey,
    /// The PTT line is being switched off to clear the buffer.
    ClearingPtt,
    /// The answer to a command is being delivered.
    Answering,
    /// The PTT tail time is running.
    Tail,
    /// The PTT line is being switched off after the tail time.
    Releasing,
    /// The key line is being switched off for good.
    ClosingKey,
    /// The PTT line is being switched off for good.
    ClosingPtt,
    /// The worker is done.
    Stopped,
}

/// A [`Status`] with the number of queued messages unbounded.
pub struct StatusModel {
    pub key_down: bool,
    pub ptt_on: bool,
    pub busy: bool,
    pub queued_messages: nat,
}

impl View for Status {
    type V = StatusModel;

    open spec fn view(&self) -> StatusModel {
        StatusModel {
            key_down: self.key_down,
            ptt_on: self.ptt_on,
            busy: self.busy,
            queued_messages: self.queued_messages as nat,
        }
    }
}

/// A command to the worker; times are in nanoseconds.
pub enum CommandModel {
    SendText(Seq<char>),
    ClearBuffer,
    SetWpm(u8),
    SetWeighting(u8),
    SetPttLeadTail { lead: u128, tail: u128 },
    Status,
    Close,
}

/// What became of the worker's last action.
pub enum EventModel {
    LineSet(Result<(), Error>),
    Slept,
    Polled(Option<CommandModel>),
    Received { command: Option<CommandModel>, waited: u128 },
    Delivered,
}

/// What the worker wants done next; times are in nanoseconds.
pub enum ActionModel {
    SetLine { line: ControlLine, on: bool },
    Announce(Result<(), Error>),
    Receive,
    Poll,
    Sleep(nat),
    Answer { result: Result<(), Error>, status: Option<StatusModel> },
    Stop,
}

/// The worker's state. `todo` is what remains of the message being sent.
/// `silence` is how long the worker has slept or waited since the last mark, in
/// nanoseconds, counted anew when a key that was down goes up. `fault` is what
/// went wrong with the key line while the buffer is being cleared.
pub struct State {
    pub key_line: ControlLine,
    pub ptt_line: Option<ControlLine>,
    pub wpm: u8,
    pub weighting: u8,
    pub ptt_lead: u128,
    pub ptt_tail: u128,
    pub queue: Seq<Seq<char>>,
    pub key_down: bool,
    pub ptt_on: bool,
    pub closing: bool,
    pub silence: u128,
    pub fault: Option<Error>,
    pub phase: Phase,
    pub todo: Seq<Step>,
}

/// The status that the worker reports.
pub open spec fn status_of(s: State) -> StatusModel {
    StatusModel {
        key_down: s.key_down,
        ptt_on: s.ptt_on,
        busy: s.key_down || s.ptt_on || s.queue.len() > 0,
        queued_messages: s.queue.len(),
    }
}

/// Switches the key line.
pub open spec fn key(s: State, on: bool) -> ActionModel {
    ActionModel::SetLine { line: s.key_line, on }
}

/// The state after a time of sleeping or waiting.
pub open spec fn rested(s: State, nanos: nat) -> State {
    State {
        silence: if s.silence + nanos > u128::MAX {
            u128::MAX
        } else {
            (s.silence + nanos) as u128
        },
        ..s
    }
}

/// The state once the key is up.
pub open spec fn key_released(s: State) -> State {
    State {
        key_down: false,
        silence: if s.key_down {
            0
        } else {
            s.silence
        },
        ..s
    }
}

/// How much is missing of the gap to the character keyed before.
pub open spec fn gap_missing(s: State) -> nat {
    let gap = CHAR_GAP_UNITS as nat * unit_nanos(s.wpm);
    if s.silence >= gap {
        0
    } else {
        (gap - s.silence) as nat
    }
}

/// How long a step of a message lasts under the settings of the moment.
pub open spec fn step_nanos(s: State, step: Step) -> nat {
    match step {
        Step::Lead => s.ptt_lead as nat,
        Step::Gap => gap_missing(s),
        Step::Rest(units) => units as nat * unit_nanos(s.wpm),
        Step::Mark(units) => weighted_nanos(units as nat * unit_nanos(s.wpm), s.weighting),
        Step::Space => space_nanos(unit_nanos(s.wpm), s.wpm, s.weighting),
        _ => 0,
    }
}

/// The state once a step has been taken.
pub open spec fn step_done(s: State, step: Step) -> State {
    match step {
        Step::PttOn => State { ptt_on: true, ..s },
        Step::KeyDown => State { key_down: true, ..s },
        Step::Mark(_) => State { silence: 0, ..s },
        Step::KeyUp => key_released(s),
        Step::Poll => s,
        _ => rested(s, step_nanos(s, step)),
    }
}

/// The state in which the message at the front of the queue is being sent.
pub open spec fn message_begun(s: State) -> State {
    State {
        queue: s.queue.drop_first(),
        todo: message_steps(s.queue[0], true),
        ..s
    }
}

/// The state once the first remaining step of a message has been taken.
pub open spec fn step_taken(s: State) -> State {
    step_done(State { todo: s.todo.drop_first(), ..s }, s.todo[0])
}

/// The state once the rest of a message is given up.
pub open spec fn message_dropped(s: State) -> State {
    State { todo: seq![], ..s }
}

/// Whether a step takes nothing: PTT without a PTT line, or a gap of which
/// nothing is missing.
pub open spec fn takes_nothing(s: State, step: Step) -> bool {
    match step {
        Step::PttOn => s.ptt_line is None,
        Step::Gap => gap_missing(s) == 0,
        _ => false,
    }
}

/// The next piece of work between two messages: closing down, else the
/// message at the front of the queue, else the next command.
pub open spec fn next_job(s: State) -> (State, ActionModel)
    decreases s.queue.len(), 0nat, 0nat,
{
    if s.closing {
        (State { phase: Phase::ClosingKey, ..s }, key(s, false))
    } else if s.queue.len() > 0 {
        next_step(message_begun(s))
    } else {
        (State { phase: Phase::Idle, ..s }, ActionModel::Receive)
    }
}

/// The next step of the message being sent. After the last one PTT is kept on
/// for a queued message, and for the tail time if there is none. A step that
/// takes nothing is passed over.
pub open spec fn next_step(s: State) -> (State, ActionModel)
    decreases s.queue.len(), 1nat, s.todo.len(),
{
    if s.todo.len() == 0 {
        if s.queue.len() == 0 {
            (State { phase: Phase::Tail, ..s }, ActionModel::Sleep(s.ptt_tail as nat))
        } else {
            next_job(s)
        }
    } else if takes_nothing(s, s.todo[0]) {
        next_step(step_taken(s))
    } else {
        (State { phase: Phase::Sending, ..s }, step_action(s, s.todo[0]))
    }
}

/// What a step of a message takes under the settings of the moment. A step
/// that takes nothing is passed over before it comes here.
pub open spec fn step_action(s: State, step: Step) -> ActionModel {
    match step {
        Step::PttOn => match s.ptt_line {
            Some(line) => ActionModel::SetLine { line, on: true },
            None => ActionModel::Stop,
        },
        Step::Poll => ActionModel::Poll,
        Step::KeyDown => key(s, true),
        Step::KeyUp => key(s, false),
        _ => ActionModel::Sleep(step_nanos(s, step)),
    }
}

/// Goes on to the answer to a command that was carried out.
pub open spec fn answer(s: State, status: Option<StatusModel>) -> (State, ActionModel) {
    (
        State { phase: Phase::Answering, ..s },
        ActionModel::Answer { result: Ok(()), status },
    )
}

/// Goes on to the answer to a command to clear the buffer.
pub open spec fn answer_cleared(s: State, result: Result<(), Error>) -> (State, ActionModel) {
    (
        State { fault: None, phase: Phase::Answering, ..s },
        ActionModel::Answer { result, status: None },
    )
}

/// The first fault of two attempts to switch a line.
pub open spec fn first_fault(fault: Option<Error>, result: Result<(), Error>) -> Result<
    (),
    Error,
> {
    match fault {
        Some(error) => Err(error),
        None => result,
    }
}

/// What a command does. Clearing the buffer drops the queued texts and what
/// remains of the message being sent, and switches both lines off.
pub open spec fn handle_command(s: State, command: CommandModel) -> (State, ActionModel) {
    match command {
        CommandModel::SendText(text) => answer(State { queue: s.queue.push(text), ..s }, None),
        CommandModel::ClearBuffer => (
            State {
                queue: seq![],
                todo: if s.todo.len() > 0 {
                    seq![Step::Poll]
                } else {
                    seq![]
                },
                phase: Phase::ClearingKey,
                ..s
            },
            key(s, false),
        ),
        CommandModel::SetWpm(wpm) => answer(State { wpm, ..s }, None),
        CommandModel::SetWeighting(weighting) => answer(State { weighting, ..s }, None),
        CommandModel::SetPttLeadTail { lead, tail } => answer(
            State { ptt_lead: lead, ptt_tail: tail, ..s },
            None,
        ),
        CommandModel::Status => answer(s, Some(status_of(s))),
        CommandModel::Close => answer(State { closing: true, ..s }, None),
    }
}

/// Switches PTT off: on the PTT line, waiting in `phase`, or `done` at once if
/// there is none.
pub open spec fn ptt_off(s: State, phase: Phase, done: (State, ActionModel)) -> (
    State,
    ActionModel,
) {
    match s.ptt_line {
        Some(line) => (State { phase, ..s }, ActionModel::SetLine { line, on: false }),
        None => done,
    }
}

/// The state after an attempt to switch the key off.
pub open spec fn key_off_tried(s: State, event: EventModel) -> State {
    if event is LineSet && event->LineSet_0 is Err {
        s
    } else {
        key_released(s)
    }
}

/// The state after an attempt to switch PTT off.
pub open spec fn ptt_off_tried(s: State, event: EventModel) -> State {
    State { ptt_on: s.ptt_on && event is LineSet && event->LineSet_0 is Err, ..s }
}

/// The state from which the worker looks for work when an event comes, and
/// whether it is inside a message then; `None` if the event leads elsewhere.
/// A line that cannot be switched ends the message being sent; so does
/// closing, once the commands at hand are handled.
pub open spec fn resumed(s: State, event: EventModel) -> Option<(State, bool)> {
    match s.phase {
        Phase::Announcing => Some((s, false)),
        Phase::Idle => match event->command {
            Some(_) => None,
            None => Some((State { closing: true, ..rested(s, event->waited as nat) }, false)),
        },
        Phase::Sending => match (s.todo[0], event) {
            (Step::PttOn | Step::KeyDown | Step::KeyUp, EventModel::LineSet(Err(_))) => Some(
                (message_dropped(s), false),
            ),
            (Step::Poll, EventModel::Polled(Some(_))) => None,
            (Step::Poll, EventModel::Polled(None)) if s.closing => Some((message_dropped(s), true)),
            _ => Some((step_taken(s), true)),
        },
        Phase::Answering => if s.todo.len() > 0 {
            None
        } else {
            Some((s, false))
        },
        Phase::Tail => if s.ptt_line is Some {
            None
        } else {
            Some((State { ptt_on: false, ..rested(s, s.ptt_tail as nat) }, false))
        },
        Phase::Releasing => Some((ptt_off_tried(s, event), false)),
        _ => None,
    }
}

/// The worker's next state and action.
pub open spec fn transition(s: State, event: EventModel) -> (State, ActionModel) {
    match resumed(s, event) {
        Some((t, in_message)) => if in_message {
            next_step(t)
        } else {
            next_job(t)
        },
        None => reaction(s, event),
    }
}

/// The next state and action if the worker does not look for work.
pub open spec fn reaction(s: State, event: EventModel) -> (State, ActionModel) {
    match s.phase {
        Phase::OpeningKey => match event->LineSet_0 {
            Ok(_) => ptt_off(
                s,
                Phase::OpeningPtt,
                (State { phase: Phase::Announcing, ..s }, ActionModel::Announce(Ok(()))),
            ),
            Err(error) => (
                State { phase: Phase::Stopped, ..s },
                ActionModel::Announce(Err(error)),
            ),
        },
        Phase::OpeningPtt => match event->LineSet_0 {
            Ok(_) => (State { phase: Phase::Announcing, ..s }, ActionModel::Announce(Ok(()))),
            Err(error) => (
                State { phase: Phase::Stopped, ..s },
                ActionModel::Announce(Err(error)),
            ),
        },
        Phase::Idle => handle_command(
            rested(s, event->waited as nat),
            event->command->Some_0,
        ),
        Phase::Sending => handle_command(s, event->Polled_0->Some_0),
        Phase::ClearingKey => {
            let after = State {
                fault: match event->LineSet_0 {
                    Ok(_) => None,
                    Err(error) => Some(error),
                },
                ..key_off_tried(s, event)
            };
            ptt_off(
                after,
                Phase::ClearingPtt,
                answer_cleared(State { ptt_on: false, ..after }, event->LineSet_0),
            )
        },
        Phase::ClearingPtt => answer_cleared(
            ptt_off_tried(s, event),
            first_fault(s.fault, event->LineSet_0),
        ),
        Phase::Answering => (State { phase: Phase::Sending, ..s }, ActionModel::Poll),
        Phase::Tail => (
            State { phase: Phase::Releasing, ..rested(s, s.ptt_tail as nat) },
            ActionModel::SetLine { line: s.ptt_line->Some_0, on: false },
        ),
        Phase::ClosingKey => {
            let after = key_off_tried(s, event);
            ptt_off(
                after,
                Phase::ClosingPtt,
                (State { ptt_on: false, phase: Phase::Stopped, ..after }, ActionModel::Stop),
            )
        },
        Phase::ClosingPtt => (
            State { phase: Phase::Stopped, ..ptt_off_tried(s, event) },
            ActionModel::Stop,
        ),
        _ => (s, ActionModel::Stop),
    }
}

/// Whether a command carries only settings that a keyer may have.
pub open spec fn valid_command(command: CommandModel) -> bool {
    match command {
        CommandModel::SetWpm(wpm) => valid_wpm(wpm),
        CommandModel::SetWeighting(weighting) => valid_weighting(weighting),
        _ => true,
    }
}

/// Whether an event answers the action that the worker last asked for.
pub open spec fn expects(s: State, event: EventModel) -> bool {
    match s.phase {
        Phase::OpeningKey
        | Phase::OpeningPtt
        | Phase::ClearingKey
        | Phase::ClearingPtt
        | Phase::Releasing
        | Phase::ClosingKey
        | Phase::ClosingPtt => event is LineSet,
        Phase::Announcing | Phase::Answering => event is Delivered,
        Phase::Idle => match event {
            EventModel::Received { command: Some(command), .. } => valid_command(command),
            EventModel::Received { command: None, .. } => true,
            _ => false,
        },
        Phase::Sending => match s.todo[0] {
            Step::PttOn | Step::KeyDown | Step::KeyUp => event is LineSet,
            Step::Poll => match event {
                EventModel::Polled(Some(command)) => valid_command(command),
                EventModel::Polled(None) => true,
                _ => false,
            },
            _ => event is Slept,
        },
        Phase::Tail => event is Slept,
        Phase::Stopped => false,
    }
}

/// What holds of the worker at all times.
pub open spec fn state_ok(s: State) -> bool {
    &&& valid_wpm(s.wpm)
    &&& valid_weighting(s.weighting)
    &&& s.ptt_line != Some(s.key_line)
    &&& marks_ok(s.todo)
    &&& s.fault is Some ==> s.phase == Phase::ClearingPtt
    &&& s.phase == Phase::ClearingPtt && s.fault is None ==> !s.key_down
    &&& s.phase == Phase::Idle ==> s.queue.len() == 0 && !s.closing
    &&& match s.phase {
        Phase::Sending => s.todo.len() > 0 && !takes_nothing(s, s.todo[0]),
        Phase::ClearingKey => s.todo.len() > 0 ==> s.todo == seq![Step::Poll],
        Phase::ClearingPtt => s.ptt_line is Some && (s.todo.len() > 0 ==> s.todo == seq![
            Step::Poll,
        ]),
        Phase::Answering => s.todo.len() > 0 ==> s.todo[0] == Step::Poll,
        Phase::OpeningPtt | Phase::Releasing | Phase::ClosingPtt => s.ptt_line is Some
            && s.todo.len() == 0,
        _ => s.todo.len() == 0,
    }
}

} // verus!
