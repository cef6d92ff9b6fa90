//! Laws of the status: what it reports, and that asking for it does nothing.
use crate::config::{valid_config, Config};
use crate::delivery_laws::accepted;
use crate::model::{
    expects, handle_command, message_begun, next_job, next_step, rested, resumed, state_ok,
    status_of, step_taken, takes_nothing, transition, ActionModel, CommandModel, EventModel, Phase,
    State, StatusModel,
};
use crate::plan::Step;
use crate::silence_laws::command_of;
use crate::worker_laws::{
    after, commands, every_state_is_consistent, is_command, lemma_answers, line_is_on, possible,
    status_follows_the_lines,
};
use vstd::prelude::*;

verus! {

/// The status of a keyer that has nothing to do.
pub open spec fn idle_status() -> StatusModel {
    StatusModel { key_down: false, ptt_on: false, busy: false, queued_messages: 0 }
}

/// A status is reported as it is at the time: the key and PTT as their lines
/// were last switched, the queued texts counted, and busy exactly if the key
/// is down, PTT is on or a text is queued.
pub proof fn reported_status_is_true(config: Config, events: Seq<EventModel>, status: StatusModel)
    requires
        valid_config(config),
        possible(config, events),
        after(config, events).1 matches ActionModel::Answer { status: Some(reported), .. }
            && reported == status,
    ensures
        ({
            let s = after(config, events).0;
            &&& status == status_of(s)
            &&& status.key_down == line_is_on(config, events, config.key_line)
            &&& config.ptt_line matches Some(line) ==> status.ptt_on == line_is_on(
                config,
                events,
                line,
            )
            &&& status.queued_messages == s.queue.len()
            &&& status.busy == (status.key_down || status.ptt_on || status.queued_messages > 0)
        }),
{
    status_follows_the_lines(config, events);
    let earlier = events.drop_last();
    every_state_is_consistent(config, earlier);
    lemma_answers(after(config, earlier).0, events.last());
}

/// Asking for the status changes nothing: once it is answered the worker is
/// where it was, waiting for the next command or in the middle of a message,
/// with the time that it had waited noted.
pub proof fn asking_for_status_changes_nothing(s: State, waited: u128)
    requires
        state_ok(s),
        s.phase == Phase::Idle || (s.phase == Phase::Sending && s.todo[0] == Step::Poll),
    ensures
        ({
            let command = Some(CommandModel::Status);
            let (event, same, next) = if s.phase == Phase::Idle {
                (
                    EventModel::Received { command, waited },
                    rested(s, waited as nat),
                    ActionModel::Receive,
                )
            } else {
                (EventModel::Polled(command), s, ActionModel::Poll)
            };
            let (asked, reply) = transition(s, event);
            let (back, pending) = transition(asked, EventModel::Delivered);
            &&& reply == (ActionModel::Answer { result: Ok(()), status: Some(status_of(s)) })
            &&& back == same
            &&& pending == next
        }),
{
}

/// As long as no command has come in, key and PTT are off and nothing is
/// queued: that is the status right after opening.
pub proof fn fresh_keyer_is_idle(config: Config, events: Seq<EventModel>)
    requires
        valid_config(config),
        possible(config, events),
        commands(events) == 0,
    ensures
        status_of(after(config, events).0) == idle_status(),
        after(config, events).0.todo.len() == 0,
        handle_command(after(config, events).0, CommandModel::Status).1 == (ActionModel::Answer {
            result: Ok(()),
            status: Some(idle_status()),
        }),
    decreases events.len(),
{
    if events.len() > 0 {
        let earlier = events.drop_last();
        fresh_keyer_is_idle(config, earlier);
        every_state_is_consistent(config, earlier);
        reveal_with_fuel(next_job, 2);
    }
}

/// Whether the queue of `t` is what is left of that of `s`, and if a message
/// is being sent, it was before or has left the queue.
spec fn queue_shrinks(s: State, t: State) -> bool {
    &&& t.queue.len() <= s.queue.len()
    &&& t.queue == s.queue.skip(s.queue.len() - t.queue.len())
    &&& t.todo.len() > 0 ==> s.todo.len() > 0 || t.queue.len() < s.queue.len()
}

proof fn lemma_next_queue(s: State)
    ensures
        queue_shrinks(s, next_step(s).0),
        s.todo.len() == 0 ==> queue_shrinks(s, next_job(s).0),
    decreases s.queue.len(), s.todo.len(),
{
    reveal_with_fuel(next_step, 2);
    reveal_with_fuel(next_job, 2);
    assert(s.queue.skip(0) =~= s.queue);
    if s.queue.len() > 0 && s.todo.len() == 0 {
        lemma_next_queue(message_begun(s));
        let rest = s.queue.drop_first();
        let left = next_step(message_begun(s)).0.queue;
        assert(rest.skip(rest.len() - left.len()) =~= s.queue.skip(s.queue.len() - left.len()));
    }
    if s.todo.len() > 0 && takes_nothing(s, s.todo[0]) {
        lemma_next_queue(step_taken(s));
    }
}

proof fn lemma_transition_queue(s: State, event: EventModel)
    requires
        state_ok(s),
        expects(s, event),
        !is_command(event),
    ensures
        queue_shrinks(s, transition(s, event).0),
{
    assert(s.queue.skip(0) =~= s.queue);
    if let Some((t, _)) = resumed(s, event) {
        lemma_next_queue(t);
    }
}

/// What a command does to the queue: a text joins it, a command to clear it
/// empties it, and others leave it; none begins a message.
proof fn lemma_command_queue(s: State, event: EventModel)
    requires
        state_ok(s),
        expects(s, event),
        is_command(event),
    ensures
        ({
            let t = transition(s, event).0;
            &&& t.queue == (match command_of(event)->Some_0 {
                CommandModel::SendText(text) => s.queue.push(text),
                CommandModel::ClearBuffer => seq![],
                _ => s.queue,
            })
            &&& t.todo.len() > 0 ==> s.todo.len() > 0
        }),
{
}

/// The queued texts are the last of those accepted, and the text under way is
/// not among them.
pub proof fn queued_messages_leave_out_the_text_under_way(config: Config, events: Seq<EventModel>)
    requires
        valid_config(config),
        possible(config, events),
    ensures
        ({
            let s = after(config, events).0;
            let texts = accepted(events);
            &&& s.queue.len() <= texts.len()
            &&& s.queue == texts.skip(texts.len() - s.queue.len())
            &&& s.todo.len() > 0 ==> s.queue.len() < texts.len()
        }),
    decreases events.len(),
{
    let texts = accepted(events);
    if events.len() == 0 {
        assert(after(config, events).0.queue =~= texts.skip(0));
    } else {
        let earlier = events.drop_last();
        let event = events.last();
        let before = accepted(earlier);
        queued_messages_leave_out_the_text_under_way(config, earlier);
        every_state_is_consistent(config, earlier);
        let s = after(config, earlier).0;
        let t = after(config, events).0;
        if is_command(event) {
            lemma_command_queue(s, event);
            match command_of(event)->Some_0 {
                CommandModel::SendText(text) => {
                    assert(s.queue.push(text) =~= before.push(text).skip(
                        before.len() - s.queue.len(),
                    ));
                },
                CommandModel::ClearBuffer => {
                    assert(t.queue =~= texts.skip(texts.len() as int));
                },
                _ => {},
            }
        } else {
            lemma_transition_queue(s, event);
            assert(t.queue =~= texts.skip(texts.len() - t.queue.len()));
        }
    }
}

/// On every run, every command but one to clear the buffer is answered at once
/// and with success, and the answer holds a status exactly if it was asked for.
pub proof fn commands_are_answered_at_once(config: Config, events: Seq<EventModel>)
    requires
        valid_config(config),
        possible(config, events),
        events.len() > 0,
        command_of(events.last()) is Some,
        command_of(events.last()) != Some(CommandModel::ClearBuffer),
    ensures
        after(config, events).1 matches ActionModel::Answer { result, status } && result is Ok && (
        status is Some <==> command_of(events.last()) == Some(CommandModel::Status)),
{
    every_state_is_consistent(config, events.drop_last());
}

} // verus!
