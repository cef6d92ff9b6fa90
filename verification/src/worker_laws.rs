//! Laws of the worker: what holds in every state that it can reach.
use crate::config::{valid_config, Config, ControlLine};
use crate::model::{
    expects, key, message_begun, next_job, next_step, resumed, state_ok, status_of, step_action,
    step_taken, takes_nothing, transition, ActionModel, EventModel, Phase, State,
};
use crate::morse::{is_blank, is_white_space, tokens_of, TokenModel};
use crate::plan::{
    gap_step, lead_steps, mark_ok, marks_are_at_most_dashes, marks_ok, message_steps,
    pattern_steps, symbol_steps, symbols_steps, token_steps, tokens_steps, Step,
};
use crate::timing::{valid_weighting, valid_wpm};
use crate::worker::initial_state;
use vstd::prelude::*;

verus! {

/// The state and the pending action of a worker after a sequence of events.
pub open spec fn after(config: Config, events: Seq<EventModel>) -> (State, ActionModel)
    decreases events.len(),
{
    if events.len() == 0 {
        (initial_state(config), key(initial_state(config), false))
    } else {
        transition(after(config, events.drop_last()).0, events.last())
    }
}

/// Whether each event answers the action that is pending when it comes.
pub open spec fn possible(config: Config, events: Seq<EventModel>) -> bool
    decreases events.len(),
{
    events.len() == 0 || {
        &&& possible(config, events.drop_last())
        &&& expects(after(config, events.drop_last()).0, events.last())
    }
}

/// Whether an attempt to switch a line failed.
pub open spec fn is_failure(event: EventModel) -> bool {
    event is LineSet && event->LineSet_0 is Err
}

/// What holds of a state whatever its phase.
spec fn settled(s: State) -> bool {
    &&& valid_wpm(s.wpm)
    &&& valid_weighting(s.weighting)
    &&& s.ptt_line != Some(s.key_line)
    &&& marks_ok(s.todo)
    &&& s.fault is None
}

/// Whether steps still hold a key press.
pub open spec fn presses_key(steps: Seq<Step>) -> bool {
    exists|i: int| 0 <= i < steps.len() && #[trigger] steps[i] == Step::KeyDown
}

/// Whether PTT is on, or about to go on, if a key press is still to come.
pub open spec fn ptt_covers(s: State) -> bool {
    presses_key(s.todo) ==> s.ptt_on || s.todo[0] == Step::PttOn
}

/// What a step leaves behind.
spec fn sound(next: (State, ActionModel)) -> bool {
    let (s, action) = next;
    &&& state_ok(s)
    &&& ptt_covers(s)
    &&& action == key(s, true) ==> s.phase == Phase::Sending && s.todo[0] == Step::KeyDown
        && s.ptt_on
}

proof fn lemma_blank_has_no_tokens(text: Seq<char>)
    requires
        is_blank(text),
    ensures
        tokens_of(text) == Seq::<TokenModel>::empty(),
    decreases text.len(),
{
    if text.len() > 0 {
        let shorter = text.drop_last();
        assert forall|i: int| 0 <= i < shorter.len() implies is_white_space(
            #[trigger] shorter[i],
        ) by {
            assert(shorter[i] == text[i]);
        }
        lemma_blank_has_no_tokens(shorter);
        assert(is_white_space(text[text.len() - 1]));
        if text.len() > 1 {
            assert(is_white_space(text[text.len() - 2]));
        }
        assert(tokens_of(text) =~= seq![]);
    }
}

/// A message that takes anything at all begins with PTT.
pub proof fn message_begins_with_ptt(text: Seq<char>, after_text: bool)
    ensures
        ({
            let steps = message_steps(text, after_text);
            steps.len() > 0 ==> steps[0] == Step::PttOn
        }),
{
    if is_blank(text) {
        lemma_blank_has_no_tokens(text);
        assert(message_steps(text, after_text) =~= seq![]);
    }
}

proof fn lemma_next_job(s: State)
    requires
        settled(s),
        s.todo.len() == 0,
    ensures
        sound(next_job(s)),
    decreases s.queue.len(), 0nat, 0nat,
{
    if !s.closing && s.queue.len() > 0 {
        let text = s.queue[0];
        marks_are_at_most_dashes(text, true);
        message_begins_with_ptt(text, true);
        lemma_next_step(message_begun(s));
    }
}

proof fn lemma_next_step(s: State)
    requires
        settled(s),
        ptt_covers(s),
    ensures
        sound(next_step(s)),
    decreases s.queue.len(), 1nat, s.todo.len(),
{
    if s.todo.len() == 0 {
        if s.queue.len() > 0 {
            lemma_next_job(s);
        }
    } else if takes_nothing(s, s.todo[0]) {
        lemma_rest(s);
        lemma_next_step(step_taken(s));
    } else if s.todo[0] == Step::KeyDown {
        assert(presses_key(s.todo));
    }
}

/// What the first step leaves is a part of the steps.
proof fn lemma_rest(s: State)
    requires
        marks_ok(s.todo),
        s.todo.len() > 0,
    ensures
        marks_ok(s.todo.drop_first()),
        presses_key(s.todo.drop_first()) ==> presses_key(s.todo),
{
    let rest = s.todo.drop_first();
    assert forall|i: int| 0 <= i < rest.len() implies mark_ok(#[trigger] rest[i]) by {
        assert(rest[i] == s.todo[i + 1]);
    }
    if presses_key(rest) {
        let i = choose|i: int| 0 <= i < rest.len() && #[trigger] rest[i] == Step::KeyDown;
        assert(s.todo[i + 1] == Step::KeyDown);
    }
}

proof fn lemma_transition(s: State, event: EventModel)
    requires
        state_ok(s),
        ptt_covers(s),
        expects(s, event),
    ensures
        sound(transition(s, event)),
{
    if s.todo.len() > 0 {
        lemma_rest(s);
    }
    if let Some((t, in_message)) = resumed(s, event) {
        if in_message {
            lemma_next_step(t);
        } else {
            lemma_next_job(t);
        }
    }
}

proof fn lemma_after(config: Config, events: Seq<EventModel>)
    requires
        valid_config(config),
        possible(config, events),
    ensures
        sound(after(config, events)),
    decreases events.len(),
{
    if events.len() > 0 {
        lemma_after(config, events.drop_last());
        lemma_transition(after(config, events.drop_last()).0, events.last());
    }
}

/// A worker that starts with a valid configuration stays in a consistent
/// state: speed and weighting in range, key and PTT on different lines, and
/// steps left of a message only while one is being sent.
pub proof fn every_state_is_consistent(config: Config, events: Seq<EventModel>)
    requires
        valid_config(config),
        possible(config, events),
    ensures
        state_ok(after(config, events).0),
{
    lemma_after(config, events);
}

/// The key is never pressed while PTT is off.
pub proof fn key_is_pressed_under_ptt(config: Config, events: Seq<EventModel>)
    requires
        valid_config(config),
        possible(config, events),
        after(config, events).1 == key(after(config, events).0, true),
    ensures
        after(config, events).0.ptt_on,
{
    lemma_after(config, events);
}

/// A keyer that reports that it is not busy has nothing left to key, neither
/// queued nor of the message being sent.
pub proof fn not_busy_means_nothing_left(config: Config, events: Seq<EventModel>)
    requires
        valid_config(config),
        possible(config, events),
        after(config, events).1 is Answer,
        !status_of(after(config, events).0).busy,
    ensures
        after(config, events).0.queue.len() == 0,
        !presses_key(after(config, events).0.todo),
{
    lemma_after(config, events);
    lemma_answer_phase(config, events);
}

/// An answer is pending exactly in the phase that is named after it.
proof fn lemma_answer_phase(config: Config, events: Seq<EventModel>)
    requires
        valid_config(config),
        possible(config, events),
    ensures
        after(config, events).1 is Answer <==> after(config, events).0.phase == Phase::Answering,
{
    if events.len() > 0 {
        let s = after(config, events.drop_last()).0;
        lemma_after(config, events.drop_last());
        lemma_answers(s, events.last());
    }
}

/// Looking for work never answers a command.
proof fn lemma_next_answers(s: State)
    ensures
        !(next_step(s).1 is Answer),
        !awaits_answer(next_step(s).0),
        s.todo.len() == 0 ==> !(next_job(s).1 is Answer) && !awaits_answer(next_job(s).0),
    decreases s.queue.len(), s.todo.len(),
{
    reveal_with_fuel(next_step, 2);
    reveal_with_fuel(next_job, 2);
    if s.queue.len() > 0 && s.todo.len() == 0 {
        lemma_next_answers(message_begun(s));
    }
    if s.todo.len() > 0 {
        lemma_next_answers(step_taken(s));
    }
}

/// Whether a command has come in that is not answered yet.
pub open spec fn awaits_answer(s: State) -> bool {
    s.phase == Phase::ClearingKey || s.phase == Phase::ClearingPtt || s.phase == Phase::Answering
}

/// Whether an event brings a command.
pub open spec fn is_command(event: EventModel) -> bool {
    ||| event is Polled && event->Polled_0 is Some
    ||| event is Received && event->command is Some
}

/// A command brings about an answer, and nothing else does.
pub proof fn lemma_answers(s: State, event: EventModel)
    requires
        state_ok(s),
        expects(s, event),
    ensures
        ({
            let (after, action) = transition(s, event);
            &&& action is Answer <==> after.phase == Phase::Answering
            &&& is_command(event) ==> !awaits_answer(s) && awaits_answer(after)
            &&& !is_command(event) && awaits_answer(after) ==> awaits_answer(s) && s.phase
                != Phase::Answering
            &&& s.phase == Phase::Answering ==> !awaits_answer(after)
            &&& awaits_answer(s) && s.phase != Phase::Answering ==> awaits_answer(after)
        }),
{
    if let Some((t, _)) = resumed(s, event) {
        lemma_next_answers(t);
    }
}

/// How many commands have come in.
pub open spec fn commands(events: Seq<EventModel>) -> nat
    decreases events.len(),
{
    if events.len() == 0 {
        0
    } else {
        commands(events.drop_last()) + (if is_command(events.last()) {
            1nat
        } else {
            0
        })
    }
}

/// How many answers the worker has asked for.
pub open spec fn answers(config: Config, events: Seq<EventModel>) -> nat
    decreases events.len(),
{
    if events.len() == 0 {
        0
    } else {
        answers(config, events.drop_last()) + (if after(config, events).1 is Answer {
            1nat
        } else {
            0
        })
    }
}

/// Every command is answered once, and only while its lines are being switched
/// off is the answer to a cleared buffer still to come.
pub proof fn every_command_is_answered_once(config: Config, events: Seq<EventModel>)
    requires
        valid_config(config),
        possible(config, events),
    ensures
        ({
            let s = after(config, events).0;
            let clearing = s.phase == Phase::ClearingKey || s.phase == Phase::ClearingPtt;
            commands(events) == answers(config, events) + (if clearing {
                1nat
            } else {
                0
            })
        }),
    decreases events.len(),
{
    if events.len() > 0 {
        let earlier = events.drop_last();
        every_command_is_answered_once(config, earlier);
        lemma_after(config, earlier);
        lemma_answers(after(config, earlier).0, events.last());
    }
}

/// Where the key is once the steps are over, if it is `down` before them, or
/// `None` if the key is pressed twice, or down in anything but a mark.
pub open spec fn key_after(steps: Seq<Step>, down: bool) -> Option<bool>
    decreases steps.len(),
{
    if steps.len() == 0 {
        Some(down)
    } else {
        let rest = steps.drop_first();
        match steps[0] {
            Step::KeyDown => if down {
                None
            } else {
                key_after(rest, true)
            },
            Step::Mark(_) => if down {
                key_after(rest, true)
            } else {
                None
            },
            Step::KeyUp => if down {
                key_after(rest, false)
            } else {
                None
            },
            _ => if down {
                None
            } else {
                key_after(rest, false)
            },
        }
    }
}

proof fn lemma_key_after_joined(first: Seq<Step>, second: Seq<Step>, down: bool)
    ensures
        key_after(first + second, down) == (match key_after(first, down) {
            Some(between) => key_after(second, between),
            None => None,
        }),
    decreases first.len(),
{
    if first.len() == 0 {
        assert(first + second =~= second);
    } else {
        assert((first + second).drop_first() =~= first.drop_first() + second);
        let between = match first[0] {
            Step::KeyDown | Step::Mark(_) => true,
            _ => false,
        };
        lemma_key_after_joined(first.drop_first(), second, between);
    }
}

/// A message presses and releases the key in turns, is silent between marks
/// and leaves the key up.
pub proof fn message_leaves_key_up(text: Seq<char>, after_text: bool)
    ensures
        key_after(message_steps(text, after_text), false) == Some(false),
{
    let tokens = tokens_of(text);
    let steps = tokens_steps(tokens, tokens.len(), after_text);
    lemma_key_after_tokens(tokens, tokens.len(), after_text);
    lemma_key_after_joined(lead_steps(text), steps, false);
    reveal_with_fuel(key_after, 3);
}

proof fn lemma_key_after_tokens(tokens: Seq<TokenModel>, count: nat, after_text: bool)
    ensures
        key_after(tokens_steps(tokens, count, after_text), false) == Some(false),
    decreases count,
{
    if count > 0 {
        let first = tokens_steps(tokens, (count - 1) as nat, after_text);
        let last = token_steps(tokens, count - 1, after_text);
        lemma_key_after_tokens(tokens, (count - 1) as nat, after_text);
        lemma_key_after_joined(first, last, false);
        reveal_with_fuel(key_after, 3);
        if let TokenModel::Char(pattern) = tokens[count - 1] {
            lemma_key_after_symbols(pattern, pattern.len());
            lemma_key_after_joined(seq![Step::Poll], pattern_steps(pattern), false);
            if let Some(gap) = gap_step(tokens, count - 1, after_text) {
                lemma_key_after_joined(seq![Step::Poll, gap], pattern_steps(pattern), false);
            }
        }
    }
}

proof fn lemma_key_after_symbols(pattern: Seq<char>, count: nat)
    ensures
        key_after(symbols_steps(pattern, count), false) == Some(false),
    decreases count,
{
    if count > 0 {
        let last = symbol_steps(pattern, count - 1);
        lemma_key_after_symbols(pattern, (count - 1) as nat);
        lemma_key_after_joined(symbols_steps(pattern, (count - 1) as nat), last, false);
        reveal_with_fuel(key_after, 5);
    }
}

/// Whether the key is where the steps that are left expect it.
pub open spec fn key_in_place(s: State) -> bool {
    key_after(s.todo, s.key_down) == Some(false)
}

/// Whether the key is in place, or down where it should be up.
spec fn key_known(s: State) -> bool {
    key_in_place(s) || (s.key_down && key_after(s.todo, false) == Some(false))
}

proof fn lemma_next_key(s: State)
    requires
        key_known(s),
    ensures
        key_known(next_step(s).0),
        key_in_place(s) ==> key_in_place(next_step(s).0),
        s.todo.len() == 0 ==> key_known(next_job(s).0) && (key_in_place(s) ==> key_in_place(
            next_job(s).0,
        )),
    decreases s.queue.len(), s.todo.len(),
{
    reveal_with_fuel(next_step, 2);
    reveal_with_fuel(next_job, 2);
    if s.queue.len() > 0 && s.todo.len() == 0 {
        message_leaves_key_up(s.queue[0], true);
        lemma_next_key(message_begun(s));
    }
    if s.todo.len() > 0 && takes_nothing(s, s.todo[0]) {
        lemma_next_key(step_taken(s));
    }
}

/// Whether an event says that the key could not be released after a mark.
pub open spec fn release_fails(s: State, event: EventModel) -> bool {
    s.phase == Phase::Sending && s.todo[0] == Step::KeyUp && is_failure(event)
}

proof fn lemma_transition_key(s: State, event: EventModel)
    requires
        state_ok(s),
        expects(s, event),
        key_known(s),
    ensures
        key_known(transition(s, event).0),
        key_in_place(s) && !release_fails(s, event) ==> key_in_place(transition(s, event).0),
{
    reveal_with_fuel(key_after, 2);
    if let Some((t, _)) = resumed(s, event) {
        lemma_next_key(t);
    }
}

/// Whether the key is stuck: it could not be released after a mark, and has
/// not gone up since.
pub open spec fn key_is_stuck(config: Config, events: Seq<EventModel>) -> bool
    decreases events.len(),
{
    &&& events.len() > 0
    &&& after(config, events).0.key_down
    &&& {
        ||| key_is_stuck(config, events.drop_last())
        ||| release_fails(after(config, events.drop_last()).0, events.last())
    }
}

proof fn lemma_key(config: Config, events: Seq<EventModel>)
    requires
        valid_config(config),
        possible(config, events),
    ensures
        key_known(after(config, events).0),
        !key_is_stuck(config, events) ==> key_in_place(after(config, events).0),
    decreases events.len(),
{
    if events.len() > 0 {
        let earlier = events.drop_last();
        lemma_key(config, earlier);
        lemma_after(config, earlier);
        lemma_transition_key(after(config, earlier).0, events.last());
    }
}

/// Unless it is stuck, the key is down only during a mark: it is up whenever
/// the worker rests, waits, takes commands or is idle.
pub proof fn key_is_down_only_in_marks(config: Config, events: Seq<EventModel>)
    requires
        valid_config(config),
        possible(config, events),
        !key_is_stuck(config, events),
    ensures
        key_in_place(after(config, events).0),
        after(config, events).0.key_down ==> {
            let s = after(config, events).0;
            &&& s.phase == Phase::Sending
            &&& s.todo[0] is Mark || s.todo[0] == Step::KeyUp
        },
{
    lemma_key(config, events);
    lemma_after(config, events);
}

/// Whether the pending action is the one that belongs to the phase; while a
/// message is being sent, to its first remaining step.
pub open spec fn action_fits(s: State, action: ActionModel) -> bool {
    match s.phase {
        Phase::OpeningKey | Phase::ClearingKey | Phase::ClosingKey => action == key(s, false),
        Phase::OpeningPtt | Phase::ClearingPtt | Phase::Releasing | Phase::ClosingPtt => {
            s.ptt_line is Some && action == (ActionModel::SetLine {
                line: s.ptt_line->Some_0,
                on: false,
            })
        },
        Phase::Sending => s.todo.len() > 0 && !takes_nothing(s, s.todo[0]) && action
            == step_action(s, s.todo[0]),
        Phase::Announcing => action == ActionModel::Announce(Ok(())),
        Phase::Idle => action == ActionModel::Receive,
        Phase::Answering => action is Answer,
        Phase::Tail => action == ActionModel::Sleep(s.ptt_tail as nat),
        Phase::Stopped => action == ActionModel::Stop || (action is Announce
            && action->Announce_0 is Err),
    }
}

/// Whether two states agree on the lines and on what is known of them.
spec fn same_lines(s: State, t: State) -> bool {
    &&& s.key_line == t.key_line
    &&& s.ptt_line == t.ptt_line
    &&& s.key_down == t.key_down
    &&& s.ptt_line is Some ==> s.ptt_on == t.ptt_on
}

proof fn lemma_next_lines(s: State)
    ensures
        same_lines(s, next_step(s).0),
        action_fits(next_step(s).0, next_step(s).1),
        s.todo.len() == 0 ==> same_lines(s, next_job(s).0) && action_fits(
            next_job(s).0,
            next_job(s).1,
        ),
    decreases s.queue.len(), s.todo.len(),
{
    reveal_with_fuel(next_step, 2);
    reveal_with_fuel(next_job, 2);
    if s.queue.len() > 0 && s.todo.len() == 0 {
        lemma_next_lines(message_begun(s));
    }
    if s.todo.len() > 0 && takes_nothing(s, s.todo[0]) {
        lemma_next_lines(step_taken(s));
    }
}

/// Where a line is after the pending action, if it was at `before`.
spec fn switched(action: ActionModel, event: EventModel, line: ControlLine, before: bool) -> bool {
    match (action, event) {
        (ActionModel::SetLine { line: switched, on }, EventModel::LineSet(Ok(_))) => if switched
            == line {
            on
        } else {
            before
        },
        _ => before,
    }
}

/// Whether `t` differs from `s`, as far as the lines are concerned, in just
/// what the pending action did.
spec fn notes_lines(s: State, action: ActionModel, event: EventModel, t: State) -> bool {
    &&& t.key_line == s.key_line
    &&& t.ptt_line == s.ptt_line
    &&& t.key_down == switched(action, event, s.key_line, s.key_down)
    &&& s.ptt_line matches Some(line) ==> t.ptt_on == switched(action, event, line, s.ptt_on)
}

proof fn lemma_transition_lines(s: State, action: ActionModel, event: EventModel)
    requires
        state_ok(s),
        expects(s, event),
        action_fits(s, action),
        s.phase == Phase::OpeningKey || s.phase == Phase::OpeningPtt ==> !s.key_down && !s.ptt_on,
    ensures
        action_fits(transition(s, event).0, transition(s, event).1),
        notes_lines(s, action, event, transition(s, event).0),
{
    if let Some((t, _)) = resumed(s, event) {
        lemma_next_lines(t);
    }
}

/// Whether a line is on: what it was last switched to, with success.
pub open spec fn line_is_on(config: Config, events: Seq<EventModel>, line: ControlLine) -> bool
    decreases events.len(),
{
    if events.len() == 0 {
        false
    } else {
        let earlier = events.drop_last();
        match (after(config, earlier).1, events.last()) {
            (
                ActionModel::SetLine { line: switched, on },
                EventModel::LineSet(Ok(_)),
            ) => if switched == line {
                on
            } else {
                line_is_on(config, earlier, line)
            },
            _ => line_is_on(config, earlier, line),
        }
    }
}

/// The pending action is always the one that belongs to the phase. So while a
/// message is being sent, each of its steps is asked for in turn, under the
/// settings of the moment, and the lines are those of the configuration.
pub proof fn pending_action_fits_the_phase(config: Config, events: Seq<EventModel>)
    requires
        valid_config(config),
        possible(config, events),
    ensures
        action_fits(after(config, events).0, after(config, events).1),
        after(config, events).0.key_line == config.key_line,
        after(config, events).0.ptt_line == config.ptt_line,
{
    lemma_lines(config, events);
}

/// The worker knows its lines: it takes the key for down exactly if the key
/// line was last switched on, and PTT for on exactly if the PTT line was.
pub proof fn status_follows_the_lines(config: Config, events: Seq<EventModel>)
    requires
        valid_config(config),
        possible(config, events),
    ensures
        after(config, events).0.key_down == line_is_on(config, events, config.key_line),
        config.ptt_line matches Some(line) ==> after(config, events).0.ptt_on == line_is_on(
            config,
            events,
            line,
        ),
{
    lemma_lines(config, events);
}

proof fn lemma_lines(config: Config, events: Seq<EventModel>)
    requires
        valid_config(config),
        possible(config, events),
    ensures
        ({
            let (s, action) = after(config, events);
            &&& action_fits(s, action)
            &&& s.key_line == config.key_line
            &&& s.ptt_line == config.ptt_line
            &&& s.key_down == line_is_on(config, events, config.key_line)
            &&& config.ptt_line matches Some(line) ==> s.ptt_on == line_is_on(config, events, line)
            &&& s.phase == Phase::OpeningKey || s.phase == Phase::OpeningPtt ==> !s.key_down
                && !s.ptt_on
        }),
    decreases events.len(),
{
    if events.len() > 0 {
        let earlier = events.drop_last();
        lemma_lines(config, earlier);
        lemma_after(config, earlier);
        let (s, action) = after(config, earlier);
        lemma_transition_lines(s, action, events.last());
        lemma_opening_is_over(s, events.last());
    }
}

/// The worker does not go back to opening.
proof fn lemma_opening_is_over(s: State, event: EventModel)
    requires
        state_ok(s),
        expects(s, event),
    ensures
        ({
            let t = transition(s, event).0;
            &&& t.phase != Phase::OpeningKey
            &&& t.phase == Phase::OpeningPtt ==> s.phase == Phase::OpeningKey
        }),
{
    if let Some((t, _)) = resumed(s, event) {
        lemma_next_phase(t);
    }
}

/// Whether a phase is one that looking for work leads to.
pub open spec fn is_work(phase: Phase) -> bool {
    phase == Phase::Idle || phase == Phase::Sending || phase == Phase::Tail || phase
        == Phase::ClosingKey
}

/// Looking for work leads to a message, to closing or to waiting.
pub proof fn lemma_next_phase(s: State)
    ensures
        is_work(next_step(s).0.phase),
        !(next_step(s).1 is Announce),
        s.todo.len() == 0 ==> is_work(next_job(s).0.phase) && !(next_job(s).1 is Announce),
    decreases s.queue.len(), s.todo.len(),
{
    reveal_with_fuel(next_step, 2);
    reveal_with_fuel(next_job, 2);
    if s.queue.len() > 0 && s.todo.len() == 0 {
        lemma_next_phase(message_begun(s));
    }
    if s.todo.len() > 0 && takes_nothing(s, s.todo[0]) {
        lemma_next_phase(step_taken(s));
    }
}

} // verus!
