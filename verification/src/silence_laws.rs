//! Laws of the commands that end the keying: clearing the buffer and closing.
use crate::config::{valid_config, Config};
use crate::error::Error;
use crate::model::{
    expects, handle_command, key, message_dropped, next_job, next_step, ptt_off_tried, rested,
    resumed, state_ok, status_of, step_taken, transition, ActionModel, CommandModel, EventModel,
    Phase, State,
};
use crate::plan::Step;
use crate::sending_laws::{lemma_run_joined, run};
use crate::worker_laws::{
    after, every_state_is_consistent, lemma_answers, line_is_on, pending_action_fits_the_phase,
    possible, status_follows_the_lines,
};
use vstd::prelude::*;

verus! {

/// The command that an event brings, if any.
pub open spec fn command_of(event: EventModel) -> Option<CommandModel> {
    match event {
        EventModel::Polled(command) => command,
        EventModel::Received { command, .. } => command,
        _ => None,
    }
}

/// Whether no event brings a text to send.
pub open spec fn no_new_text(events: Seq<EventModel>) -> bool {
    forall|i: int|
        0 <= i < events.len() ==> !(command_of(#[trigger] events[i]) matches Some(
            CommandModel::SendText(_),
        ))
}

/// Whether steps still switch a line on.
pub open spec fn switches_on(steps: Seq<Step>) -> bool {
    exists|i: int|
        0 <= i < steps.len() && (#[trigger] steps[i] == Step::KeyDown || steps[i] == Step::PttOn)
}

/// Whether an action switches a line on.
pub open spec fn is_switch_on(action: ActionModel) -> bool {
    action matches ActionModel::SetLine { on, .. } && on
}

/// Whether nothing is left to send.
pub open spec fn silent(s: State) -> bool {
    s.queue.len() == 0 && !switches_on(s.todo)
}

proof fn lemma_next_silent(s: State)
    requires
        silent(s),
    ensures
        silent(next_step(s).0),
        !is_switch_on(next_step(s).1),
        s.todo.len() == 0 ==> silent(next_job(s).0) && !is_switch_on(next_job(s).1),
    decreases s.todo.len(),
{
    if s.todo.len() > 0 {
        assert(s.todo[0] != Step::KeyDown && s.todo[0] != Step::PttOn);
        lemma_rest_is_silent(s.todo);
        lemma_next_silent(step_taken(s));
    }
}

proof fn lemma_rest_is_silent(steps: Seq<Step>)
    requires
        steps.len() > 0,
        !switches_on(steps),
    ensures
        !switches_on(steps.drop_first()),
{
    let rest = steps.drop_first();
    if switches_on(rest) {
        let i = choose|i: int|
            0 <= i < rest.len() && (#[trigger] rest[i] == Step::KeyDown || rest[i] == Step::PttOn);
        assert(steps[i + 1] == rest[i]);
    }
}

proof fn lemma_stays_silent(s: State, event: EventModel)
    requires
        state_ok(s),
        expects(s, event),
        silent(s),
        !(command_of(event) matches Some(CommandModel::SendText(_))),
    ensures
        silent(transition(s, event).0),
        !is_switch_on(transition(s, event).1),
{
    assert(!switches_on(seq![Step::Poll]));
    assert(!switches_on(Seq::<Step>::empty()));
    if s.todo.len() > 0 {
        lemma_rest_is_silent(s.todo);
    }
    if let Some((t, _)) = resumed(s, event) {
        lemma_next_silent(t);
    }
}

/// Clearing the buffer aborts the message being sent and drops those queued:
/// neither line is switched on again before a new text comes in.
pub proof fn cleared_buffer_keys_nothing(
    config: Config,
    events: Seq<EventModel>,
    more: Seq<EventModel>,
)
    requires
        valid_config(config),
        possible(config, events + more),
        events.len() > 0,
        command_of(events.last()) == Some(CommandModel::ClearBuffer),
        no_new_text(more),
    ensures
        silent(after(config, events + more).0),
        !is_switch_on(after(config, events + more).1),
    decreases more.len(),
{
    let all = events + more;
    let earlier = all.drop_last();
    every_state_is_consistent(config, earlier);
    let s = after(config, earlier).0;
    if more.len() == 0 {
        assert(all =~= events);
        assert(all.last() == events.last());
        assert(!switches_on(seq![Step::Poll]));
        assert(!switches_on(Seq::<Step>::empty()));
    } else {
        assert(earlier =~= events + more.drop_last());
        assert forall|i: int| 0 <= i < more.drop_last().len() implies !(command_of(
            #[trigger] more.drop_last()[i],
        ) matches Some(CommandModel::SendText(_))) by {
            assert(more.drop_last()[i] == more[i]);
        }
        cleared_buffer_keys_nothing(config, events, more.drop_last());
        assert(all.last() == more[more.len() - 1]);
        lemma_stays_silent(s, all.last());
    }
}

/// The end of clearing the buffer of a worker in state `s`, if switching the
/// key line off gave `keyed` and switching the PTT line off gave `released`.
pub open spec fn buffer_cleared(
    s: State,
    keyed: Result<(), Error>,
    released: Result<(), Error>,
) -> (State, ActionModel) {
    let told = handle_command(s, CommandModel::ClearBuffer).0;
    let next = transition(told, EventModel::LineSet(keyed));
    match s.ptt_line {
        Some(_) => transition(next.0, EventModel::LineSet(released)),
        None => next,
    }
}

/// Clearing the buffer tries both lines, the key line first, whatever becomes
/// of it. It is answered with the first fault, and with success only if every
/// line was switched off; a line that could not be keeps its state.
pub proof fn cleared_buffer_reports_its_faults(
    s: State,
    keyed: Result<(), Error>,
    released: Result<(), Error>,
)
    requires
        state_ok(s),
        s.phase == Phase::Idle || (s.phase == Phase::Sending && s.todo[0] == Step::Poll),
    ensures
        ({
            let (told, first) = handle_command(s, CommandModel::ClearBuffer);
            let (next, second) = transition(told, EventModel::LineSet(keyed));
            let (cleared, last) = buffer_cleared(s, keyed, released);
            let result = match (keyed, s.ptt_line) {
                (Err(error), _) => Err(error),
                (Ok(_), Some(_)) => released,
                (Ok(_), None) => keyed,
            };
            &&& first == key(s, false)
            &&& s.ptt_line matches Some(line) ==> second == (ActionModel::SetLine {
                line,
                on: false,
            })
            &&& last == (ActionModel::Answer { result, status: None })
            &&& result is Ok <==> keyed is Ok && (s.ptt_line is Some ==> released is Ok)
            &&& cleared.key_down == (s.key_down && keyed is Err)
            &&& cleared.ptt_on == (s.ptt_on && s.ptt_line is Some && released is Err)
            &&& cleared.queue.len() == 0
        }),
{
}

/// If the lines can be switched, clearing the buffer switches both off before
/// it is answered with success, and leaves a keyer that is not busy.
pub proof fn cleared_buffer_switches_lines_off(s: State)
    requires
        state_ok(s),
        s.phase == Phase::Idle || (s.phase == Phase::Sending && s.todo[0] == Step::Poll),
    ensures
        ({
            let (cleared, last) = buffer_cleared(s, Ok(()), Ok(()));
            &&& last == (ActionModel::Answer { result: Ok(()), status: None })
            &&& !cleared.key_down
            &&& !cleared.ptt_on
            &&& cleared.queue.len() == 0
            &&& !status_of(cleared).busy
        }),
{
    cleared_buffer_reports_its_faults(s, Ok(()), Ok(()));
}

/// When clearing the buffer is answered with success, both lines are off as
/// they were last switched; only clearing is ever answered with an error.
pub proof fn cleared_buffer_is_answered_truly(config: Config, events: Seq<EventModel>)
    requires
        valid_config(config),
        possible(config, events),
        events.len() > 0,
        after(config, events).1 is Answer,
    ensures
        ({
            let before = after(config, events.drop_last()).0;
            let clearing = before.phase == Phase::ClearingKey || before.phase == Phase::ClearingPtt;
            match after(config, events).1->result {
                Ok(_) => clearing ==> {
                    &&& !line_is_on(config, events, config.key_line)
                    &&& config.ptt_line matches Some(line) ==> !line_is_on(config, events, line)
                },
                Err(_) => clearing,
            }
        }),
{
    let earlier = events.drop_last();
    every_state_is_consistent(config, earlier);
    status_follows_the_lines(config, events);
    pending_action_fits_the_phase(config, events);
    pending_action_fits_the_phase(config, earlier);
    lemma_answers(after(config, earlier).0, events.last());
}

/// Whether the worker is closing and has no character under way.
pub open spec fn winding_down(s: State) -> bool {
    s.closing && (s.phase == Phase::Sending ==> s.todo[0] == Step::Poll)
}

proof fn lemma_winds_down(s: State, event: EventModel)
    requires
        state_ok(s),
        expects(s, event),
        winding_down(s) || command_of(event) == Some(CommandModel::Close),
    ensures
        winding_down(transition(s, event).0),
        transition(s, event).1 != key(transition(s, event).0, true),
{
    reveal_with_fuel(next_step, 2);
    reveal_with_fuel(next_job, 2);
}

/// Once the worker is told to close it finishes the character under way and
/// keys no other, whatever else comes in.
pub proof fn closing_keys_nothing_more(
    config: Config,
    events: Seq<EventModel>,
    more: Seq<EventModel>,
)
    requires
        valid_config(config),
        possible(config, events + more),
        events.len() > 0,
        command_of(events.last()) == Some(CommandModel::Close),
    ensures
        winding_down(after(config, events + more).0),
        after(config, events + more).1 != key(after(config, events + more).0, true),
    decreases more.len(),
{
    let all = events + more;
    let earlier = all.drop_last();
    every_state_is_consistent(config, earlier);
    if more.len() == 0 {
        assert(all =~= events);
        assert(all.last() == events.last());
    } else {
        assert(earlier =~= events + more.drop_last());
        closing_keys_nothing_more(config, events, more.drop_last());
    }
    lemma_winds_down(after(config, earlier).0, all.last());
}

/// An idle worker that is told to close answers, switches its lines off, the
/// key line first, and stops; if they can be switched, it takes both for off.
pub proof fn closing_switches_lines_off(s: State)
    requires
        state_ok(s),
        s.phase == Phase::Idle,
    ensures
        ({
            let done = EventModel::LineSet(Ok(()));
            let (told, first) = handle_command(s, CommandModel::Close);
            let (answered, second) = transition(told, EventModel::Delivered);
            let (keyed, third) = transition(answered, done);
            let (stopped, last) = match s.ptt_line {
                Some(_) => transition(keyed, done),
                None => (keyed, third),
            };
            &&& first == ActionModel::Answer { result: Ok(()), status: None }
            &&& second == key(s, false)
            &&& s.ptt_line matches Some(line) ==> third == (ActionModel::SetLine {
                line,
                on: false,
            })
            &&& last == ActionModel::Stop
            &&& stopped.phase == Phase::Stopped
            &&& !stopped.key_down
            &&& !stopped.ptt_on
        }),
{
}

/// How many actions a worker that is told to close still takes if nothing
/// else happens: the answer, the look for commands and the tail time of a
/// message under way, and the lines.
pub open spec fn actions_to_close(s: State) -> nat {
    let lines: nat = if s.ptt_line is Some {
        2
    } else {
        1
    };
    if s.todo.len() == 0 {
        1 + lines
    } else if s.queue.len() > 0 {
        2 + lines
    } else {
        2 + lines + lines
    }
}

/// A worker that is told to close, idle or in the middle of a message, stops
/// with both lines off, if nothing else comes in and the lines can be switched.
pub proof fn closing_stops_the_worker(s: State)
    requires
        state_ok(s),
        s.phase == Phase::Idle || (s.phase == Phase::Sending && s.todo[0] == Step::Poll),
    ensures
        ({
            let start = handle_command(s, CommandModel::Close);
            let (stopped, last) = run(start, actions_to_close(s));
            &&& last == ActionModel::Stop
            &&& stopped.phase == Phase::Stopped
            &&& !stopped.key_down
            &&& !stopped.ptt_on
        }),
{
    let told = handle_command(s, CommandModel::Close);
    let lines: nat = if s.ptt_line is Some {
        2
    } else {
        1
    };
    let before = (actions_to_close(s) - lines) as nat;
    lemma_closing_begins(s);
    lemma_run_joined(told, before, lines);
    reveal_with_fuel(run, 3);
}

/// Looking for work, a worker that closes keys nothing more.
proof fn lemma_next_when_closing(s: State)
    requires
        s.closing,
        s.todo.len() == 0,
    ensures
        next_job(s) == (State { phase: Phase::ClosingKey, ..s }, key(s, false)),
        next_step(s) == (if s.queue.len() == 0 {
            (State { phase: Phase::Tail, ..s }, ActionModel::Sleep(s.ptt_tail as nat))
        } else {
            next_job(s)
        }),
{
}

/// A worker that is told to close comes to switch its lines off for good.
proof fn lemma_closing_begins(s: State)
    requires
        state_ok(s),
        s.phase == Phase::Idle || (s.phase == Phase::Sending && s.todo[0] == Step::Poll),
    ensures
        ({
            let lines: nat = if s.ptt_line is Some {
                2
            } else {
                1
            };
            let told = handle_command(s, CommandModel::Close);
            let (closing, action) = run(told, (actions_to_close(s) - lines) as nat);
            &&& closing.phase == Phase::ClosingKey
            &&& closing.ptt_line == s.ptt_line
            &&& closing.key_line == s.key_line
            &&& action == key(s, false)
        }),
{
    let done = EventModel::LineSet(Ok(()));
    let told = handle_command(s, CommandModel::Close);
    let first = transition(told.0, EventModel::Delivered);
    if s.todo.len() == 0 {
        lemma_next_when_closing(told.0);
        reveal_with_fuel(run, 2);
    } else {
        let dropped = message_dropped(first.0);
        let second = transition(first.0, EventModel::Polled(None));
        lemma_next_when_closing(dropped);
        if s.queue.len() > 0 {
            reveal_with_fuel(run, 3);
        } else {
            let third = transition(second.0, EventModel::Slept);
            let slept = rested(second.0, second.0.ptt_tail as nat);
            lemma_next_when_closing(State { ptt_on: false, ..slept });
            if s.ptt_line is Some {
                lemma_next_when_closing(ptt_off_tried(third.0, done));
                reveal_with_fuel(run, 5);
            } else {
                reveal_with_fuel(run, 4);
            }
        }
    }
}

} // verus!
