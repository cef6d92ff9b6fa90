//! Laws of undisturbed sending: which actions a queue of texts leads to, in
//! which order, and how long they take.
use crate::model::{
    gap_missing, handle_command, message_begun, next_job, next_step, rested, state_ok, step_action,
    step_done, step_taken, takes_nothing, transition, ActionModel, CommandModel, EventModel, Phase,
    State,
};
use crate::morse::{is_blank, tokens_of, TokenModel};
use crate::plan::{
    lead_steps, mark_ok, marks_are_at_most_dashes, marks_ok, message_steps,
    only_the_first_gap_is_made_up, symbols_steps, tokens_steps, Step, CHAR_GAP_UNITS,
};
use crate::timing::{
    lemma_unit_bounds, nominal_elements, nominal_weighting_keeps_marks, unit_nanos, valid_wpm,
    NOMINAL_WEIGHTING,
};
use crate::worker_laws::{key_after, message_leaves_key_up};
use vstd::prelude::*;

verus! {

/// The event that follows an action when no line fails and no command comes.
pub open spec fn undisturbed(action: ActionModel) -> EventModel {
    match action {
        ActionModel::SetLine { .. } => EventModel::LineSet(Ok(())),
        ActionModel::Sleep(_) => EventModel::Slept,
        ActionModel::Poll => EventModel::Polled(None),
        ActionModel::Receive => EventModel::Received { command: None, waited: 0 },
        _ => EventModel::Delivered,
    }
}

/// The state and the pending action after `count` undisturbed actions.
pub open spec fn run(start: (State, ActionModel), count: nat) -> (State, ActionModel)
    decreases count,
{
    if count == 0 {
        start
    } else {
        run(transition(start.0, undisturbed(start.1)), (count - 1) as nat)
    }
}

/// The next `count` undisturbed actions.
pub open spec fn trace(start: (State, ActionModel), count: nat) -> Seq<ActionModel>
    decreases count,
{
    if count == 0 {
        seq![]
    } else {
        seq![start.1] + trace(transition(start.0, undisturbed(start.1)), (count - 1) as nat)
    }
}

/// The actions that a step takes, if any.
pub open spec fn actions_of_step(s: State, step: Step) -> Seq<ActionModel> {
    if takes_nothing(s, step) {
        seq![]
    } else {
        seq![step_action(s, step)]
    }
}

/// The actions that steps take, in order.
pub open spec fn actions_of_steps(s: State, steps: Seq<Step>) -> Seq<ActionModel>
    decreases steps.len(),
{
    if steps.len() == 0 {
        seq![]
    } else {
        actions_of_step(s, steps[0]) + actions_of_steps(
            step_done(s, steps[0]),
            steps.drop_first(),
        )
    }
}

/// The state once steps have been taken.
pub open spec fn after_steps(s: State, steps: Seq<Step>) -> State
    decreases steps.len(),
{
    if steps.len() == 0 {
        s
    } else {
        after_steps(step_done(s, steps[0]), steps.drop_first())
    }
}

/// The end of sending: the PTT tail time, then PTT off.
pub open spec fn closing_actions(s: State) -> Seq<ActionModel> {
    match s.ptt_line {
        Some(line) => seq![
            ActionModel::Sleep(s.ptt_tail as nat),
            ActionModel::SetLine { line, on: false },
        ],
        None => seq![ActionModel::Sleep(s.ptt_tail as nat)],
    }
}

/// The actions that a queue of texts takes: each message in turn, and after
/// the last one the end of sending.
pub open spec fn actions_of_queue(s: State, queue: Seq<Seq<char>>) -> Seq<ActionModel>
    decreases queue.len(),
{
    if queue.len() == 0 {
        seq![]
    } else {
        let steps = message_steps(queue[0], true);
        actions_of_steps(s, steps) + (if queue.len() == 1 {
            closing_actions(s)
        } else {
            actions_of_queue(after_steps(s, steps), queue.drop_first())
        })
    }
}

/// Whether two states have the same lines and settings.
spec fn same_settings(s: State, t: State) -> bool {
    &&& s.key_line == t.key_line
    &&& s.ptt_line == t.ptt_line
    &&& s.wpm == t.wpm
    &&& s.weighting == t.weighting
    &&& s.ptt_lead == t.ptt_lead
    &&& s.ptt_tail == t.ptt_tail
}

/// Whether steps take the same from two states.
spec fn alike(s: State, t: State) -> bool {
    same_settings(s, t) && s.key_down == t.key_down && s.silence == t.silence
}

proof fn lemma_alike_steps(s: State, t: State, steps: Seq<Step>)
    requires
        alike(s, t),
    ensures
        actions_of_steps(s, steps) == actions_of_steps(t, steps),
        alike(after_steps(s, steps), after_steps(t, steps)),
    decreases steps.len(),
{
    if steps.len() > 0 {
        lemma_alike_steps(step_done(s, steps[0]), step_done(t, steps[0]), steps.drop_first());
    }
}

proof fn lemma_alike_queue(s: State, t: State, queue: Seq<Seq<char>>)
    requires
        alike(s, t),
    ensures
        actions_of_queue(s, queue) == actions_of_queue(t, queue),
    decreases queue.len(),
{
    if queue.len() > 0 {
        let steps = message_steps(queue[0], true);
        lemma_alike_steps(s, t, steps);
        lemma_alike_queue(after_steps(s, steps), after_steps(t, steps), queue.drop_first());
    }
}

proof fn lemma_steps_keep_settings(s: State, steps: Seq<Step>)
    ensures
        same_settings(s, after_steps(s, steps)),
    decreases steps.len(),
{
    if steps.len() > 0 {
        lemma_steps_keep_settings(step_done(s, steps[0]), steps.drop_first());
    }
}

proof fn lemma_steps_joined(s: State, first: Seq<Step>, second: Seq<Step>)
    ensures
        actions_of_steps(s, first + second) == actions_of_steps(s, first) + actions_of_steps(
            after_steps(s, first),
            second,
        ),
    decreases first.len(),
{
    if first.len() == 0 {
        assert(first + second =~= second);
        assert(actions_of_steps(s, first) + actions_of_steps(s, second) =~= actions_of_steps(
            s,
            second,
        ));
    } else {
        let next = step_done(s, first[0]);
        assert((first + second).drop_first() =~= first.drop_first() + second);
        lemma_steps_joined(next, first.drop_first(), second);
        assert(actions_of_steps(s, first + second) =~= actions_of_steps(s, first)
            + actions_of_steps(after_steps(s, first), second));
    }
}

/// Whether no gap to an earlier text is among the steps.
pub open spec fn gapless(steps: Seq<Step>) -> bool {
    forall|i: int| 0 <= i < steps.len() ==> #[trigger] steps[i] != Step::Gap
}

proof fn lemma_gapless_steps(s: State, t: State, steps: Seq<Step>)
    requires
        same_settings(s, t),
        gapless(steps),
    ensures
        actions_of_steps(s, steps) == actions_of_steps(t, steps),
    decreases steps.len(),
{
    if steps.len() > 0 {
        let rest = steps.drop_first();
        assert(steps[0] != Step::Gap);
        assert forall|i: int| 0 <= i < rest.len() implies #[trigger] rest[i] != Step::Gap by {
            assert(rest[i] == steps[i + 1]);
        }
        lemma_gapless_steps(step_done(s, steps[0]), step_done(t, steps[0]), rest);
    }
}

proof fn lemma_gapless_message(text: Seq<char>)
    ensures
        gapless(message_steps(text, false)),
{
    let tokens = tokens_of(text);
    lemma_gapless_tokens(tokens, tokens.len());
}

proof fn lemma_gapless_tokens(tokens: Seq<TokenModel>, count: nat)
    ensures
        gapless(tokens_steps(tokens, count, false)),
    decreases count,
{
    if count > 0 {
        lemma_gapless_tokens(tokens, (count - 1) as nat);
        if let TokenModel::Char(pattern) = tokens[count - 1] {
            lemma_gapless_symbols(pattern, pattern.len());
        }
    }
}

proof fn lemma_gapless_symbols(pattern: Seq<char>, count: nat)
    ensures
        gapless(symbols_steps(pattern, count)),
    decreases count,
{
    if count > 0 {
        lemma_gapless_symbols(pattern, (count - 1) as nat);
    }
}

/// What precedes the first mark of a message does not end a silence.
proof fn lemma_lead_keeps_silence(s: State, text: Seq<char>)
    requires
        s.silence >= CHAR_GAP_UNITS * unit_nanos(s.wpm),
    ensures
        gap_missing(after_steps(s, lead_steps(text) + seq![Step::Poll])) == 0,
{
    let start = lead_steps(text) + seq![Step::Poll];
    reveal_with_fuel(after_steps, 4);
    if is_blank(text) {
        assert(start =~= seq![Step::Poll]);
    } else {
        assert(start =~= seq![Step::PttOn, Step::Lead, Step::Poll]);
        assert(start.drop_first() =~= seq![Step::Lead, Step::Poll]);
        assert(start.drop_first().drop_first() =~= seq![Step::Poll]);
    }
}

/// A gap of which nothing is missing takes nothing.
proof fn lemma_kept_gap(s: State)
    requires
        gap_missing(s) == 0,
    ensures
        actions_of_steps(s, seq![Step::Gap]) == Seq::<ActionModel>::empty(),
        alike(after_steps(s, seq![Step::Gap]), s),
{
    reveal_with_fuel(after_steps, 2);
    reveal_with_fuel(actions_of_steps, 2);
    assert(actions_of_steps(s, seq![Step::Gap]) =~= seq![]);
}

/// After a silence of three units, a message takes the same whether or not
/// the gap to an earlier text is seen to.
proof fn lemma_nothing_is_missing(s: State, text: Seq<char>)
    requires
        s.silence >= CHAR_GAP_UNITS * unit_nanos(s.wpm),
    ensures
        actions_of_steps(s, message_steps(text, true)) == actions_of_steps(
            s,
            message_steps(text, false),
        ),
{
    let tokens = tokens_of(text);
    only_the_first_gap_is_made_up(text);
    if tokens.len() > 0 && tokens[0] is Char {
        let start = lead_steps(text) + seq![Step::Poll];
        let rest = message_steps(text, false).skip(start.len() as int);
        let begun = after_steps(s, start);
        let gap = seq![Step::Gap];
        lemma_lead_keeps_silence(s, text);
        lemma_steps_joined(s, start, rest);
        lemma_steps_joined(s, start, gap + rest);
        lemma_steps_joined(begun, gap, rest);
        assert(start + gap + rest =~= start + (gap + rest));
        lemma_kept_gap(begun);
        lemma_alike_steps(after_steps(begun, gap), begun, rest);
        assert(actions_of_steps(begun, gap + rest) =~= actions_of_steps(begun, rest));
    }
}

/// A run is made of its parts.
pub proof fn lemma_run_joined(start: (State, ActionModel), first: nat, second: nat)
    ensures
        run(start, first + second) == run(run(start, first), second),
        trace(start, first + second) == trace(start, first) + trace(run(start, first), second),
    decreases first,
{
    if first == 0 {
        assert(trace(start, first) + trace(run(start, first), second) =~= trace(start, second));
    } else {
        let next = transition(start.0, undisturbed(start.1));
        lemma_run_joined(next, (first - 1) as nat, second);
        assert(first + second - 1 == (first - 1) + second);
        assert(trace(start, first + second) =~= trace(start, first) + trace(
            run(start, first),
            second,
        ));
    }
}

/// The state after the first remaining step.
spec fn first_done(s: State) -> State {
    if takes_nothing(s, s.todo[0]) {
        step_taken(s)
    } else {
        State { phase: Phase::Sending, ..step_taken(s) }
    }
}

/// The state after all remaining steps.
spec fn steps_done(s: State) -> State
    decreases s.todo.len(),
{
    if s.todo.len() == 0 {
        s
    } else {
        steps_done(first_done(s))
    }
}

proof fn lemma_steps_done(s: State)
    requires
        key_after(s.todo, s.key_down) is Some,
    ensures
        steps_done(s).todo.len() == 0,
        alike(steps_done(s), after_steps(s, s.todo)),
        steps_done(s).queue == s.queue,
        steps_done(s).closing == s.closing,
        key_after(s.todo, s.key_down) == Some(steps_done(s).key_down),
    decreases s.todo.len(),
{
    if s.todo.len() > 0 {
        let rest = first_done(s);
        lemma_steps_done(rest);
        lemma_alike_steps(rest, step_done(s, s.todo[0]), rest.todo);
    }
}

/// Undisturbed, the steps that are left take their actions in order.
proof fn lemma_steps_are_taken(s: State)
    requires
        !s.closing,
    ensures
        ({
            let actions = actions_of_steps(s, s.todo);
            &&& trace(next_step(s), actions.len()) == actions
            &&& run(next_step(s), actions.len()) == next_step(steps_done(s))
        }),
    decreases s.todo.len(),
{
    if s.todo.len() > 0 {
        let rest = first_done(s);
        lemma_steps_are_taken(rest);
        lemma_alike_steps(step_done(s, s.todo[0]), rest, rest.todo);
        let actions = actions_of_steps(s, s.todo);
        let later = actions_of_steps(rest, rest.todo);
        if takes_nothing(s, s.todo[0]) {
            assert(actions =~= later);
            assert(next_step(s) == next_step(rest));
        } else {
            let (sending, action) = next_step(s);
            assert(transition(sending, undisturbed(action)) == next_step(rest));
            assert(actions =~= seq![action] + later);
            assert(actions.len() - 1 == later.len());
        }
    }
}

/// Undisturbed, the worker sends the queued texts in the order in which they
/// came, each as its text demands, and switches PTT off only after the tail
/// time of the last; then it waits for commands, with nothing left to send.
pub proof fn queue_is_sent_in_order(s: State)
    requires
        !s.closing,
        !s.key_down,
        s.todo.len() == 0,
    ensures
        ({
            let actions = actions_of_queue(s, s.queue);
            let (idle, pending) = run(next_job(s), actions.len());
            &&& trace(next_job(s), actions.len()) == actions
            &&& pending == ActionModel::Receive
            &&& idle.phase == Phase::Idle
            &&& idle.queue.len() == 0
            &&& idle.todo.len() == 0
            &&& !idle.key_down
            &&& idle.ptt_on == (s.queue.len() == 0 && s.ptt_on)
        }),
    decreases s.queue.len(),
{
    reveal_with_fuel(next_step, 2);
    reveal_with_fuel(next_job, 2);
    if s.queue.len() > 0 {
        let text = s.queue[0];
        let later = s.queue.drop_first();
        let sending = message_begun(s);
        let steps = message_steps(text, true);
        let first = actions_of_steps(s, steps);
        message_leaves_key_up(text, true);
        lemma_alike_steps(s, sending, steps);
        lemma_steps_are_taken(sending);
        lemma_steps_done(sending);
        lemma_steps_keep_settings(s, steps);
        let sent = steps_done(sending);
        if later.len() == 0 {
            let second = closing_actions(s);
            lemma_run_joined(next_job(s), first.len(), second.len());
            lemma_tail(sent);
            assert(actions_of_queue(s, s.queue) == first + second);
        } else {
            let second = actions_of_queue(after_steps(s, steps), later);
            queue_is_sent_in_order(sent);
            lemma_alike_queue(after_steps(s, steps), sent, later);
            lemma_run_joined(next_job(s), first.len(), second.len());
            assert(next_step(sent) == next_job(sent));
            assert(actions_of_queue(s, s.queue) == first + second);
        }
    }
}

/// Undisturbed, the last message is followed by the end of sending.
proof fn lemma_tail(s: State)
    requires
        !s.closing,
        s.todo.len() == 0,
        s.queue.len() == 0,
    ensures
        ({
            let actions = closing_actions(s);
            let (idle, pending) = run(next_step(s), actions.len());
            &&& trace(next_step(s), actions.len()) == actions
            &&& pending == ActionModel::Receive
            &&& idle == (State {
                phase: Phase::Idle,
                ptt_on: false,
                ..rested(s, s.ptt_tail as nat)
            })
        }),
{
    reveal_with_fuel(run, 3);
    reveal_with_fuel(trace, 3);
    assert(trace(next_step(s), closing_actions(s).len()) =~= closing_actions(s));
}

/// A text that reaches an idle keyer is answered at once and then sent as its
/// characters demand: PTT and its lead time, the marks and gaps, the tail time
/// and PTT off. Before the first mark, what is still missing of the gap to an
/// earlier text is made up.
pub proof fn idle_keyer_sends_a_text(s: State, text: Seq<char>, waited: u128)
    requires
        state_ok(s),
        s.phase == Phase::Idle,
        !s.key_down,
    ensures
        ({
            let command = Some(CommandModel::SendText(text));
            let (told, first) = transition(s, EventModel::Received { command, waited });
            let start = transition(told, EventModel::Delivered);
            let steps = message_steps(text, true);
            let actions = actions_of_steps(rested(s, waited as nat), steps) + closing_actions(s);
            &&& first == ActionModel::Answer { result: Ok(()), status: None }
            &&& trace(start, actions.len()) == actions
            &&& run(start, actions.len()).1 == ActionModel::Receive
        }),
{
    let after = rested(s, waited as nat);
    let told = handle_command(after, CommandModel::SendText(text)).0;
    assert(told.queue =~= seq![text]);
    queue_is_sent_in_order(told);
    lemma_alike_queue(after, told, told.queue);
    assert(actions_of_queue(after, told.queue) =~= actions_of_steps(
        after,
        message_steps(text, true),
    ) + closing_actions(s));
}

/// A text that reaches an idle keyer after a silence of three units or more is
/// sent as if it were the first: it begins without a gap.
pub proof fn text_after_a_silence_begins_at_once(s: State, text: Seq<char>, waited: u128)
    requires
        state_ok(s),
        s.phase == Phase::Idle,
        !s.key_down,
        s.silence + waited >= 3 * unit_nanos(s.wpm),
    ensures
        ({
            let command = Some(CommandModel::SendText(text));
            let told = transition(s, EventModel::Received { command, waited }).0;
            let start = transition(told, EventModel::Delivered);
            let actions = actions_of_steps(s, message_steps(text, false)) + closing_actions(s);
            &&& trace(start, actions.len()) == actions
            &&& run(start, actions.len()).1 == ActionModel::Receive
        }),
{
    let after = rested(s, waited as nat);
    lemma_unit_bounds(s.wpm);
    idle_keyer_sends_a_text(s, text, waited);
    lemma_nothing_is_missing(after, text);
    lemma_gapless_message(text);
    lemma_gapless_steps(s, after, message_steps(text, false));
}

/// How long actions sleep in all, in nanoseconds.
pub open spec fn sleeping_time(actions: Seq<ActionModel>) -> nat
    decreases actions.len(),
{
    if actions.len() == 0 {
        0
    } else {
        (match actions[0] {
            ActionModel::Sleep(nanos) => nanos,
            _ => 0,
        }) + sleeping_time(actions.drop_first())
    }
}

/// How many units steps last.
pub open spec fn units_of(steps: Seq<Step>) -> nat
    decreases steps.len(),
{
    if steps.len() == 0 {
        0
    } else {
        (match steps[0] {
            Step::Rest(units) => units as nat,
            Step::Mark(units) => units as nat,
            Step::Space => 1,
            _ => 0,
        }) + units_of(steps.drop_first())
    }
}

/// How many lead times steps hold.
pub open spec fn leads_of(steps: Seq<Step>) -> nat
    decreases steps.len(),
{
    if steps.len() == 0 {
        0
    } else {
        (if steps[0] == Step::Lead {
            1nat
        } else {
            0
        }) + leads_of(steps.drop_first())
    }
}

/// At nominal weighting steps take their units, at `1200 / wpm` milliseconds
/// each, and the lead time, if no gap to an earlier text is made up.
pub proof fn steps_take_their_units(s: State, steps: Seq<Step>)
    requires
        valid_wpm(s.wpm),
        s.weighting == NOMINAL_WEIGHTING,
        marks_ok(steps),
        gapless(steps),
    ensures
        sleeping_time(actions_of_steps(s, steps)) == units_of(steps) * unit_nanos(s.wpm) + leads_of(
            steps,
        ) * s.ptt_lead,
    decreases steps.len(),
{
    let unit = unit_nanos(s.wpm);
    if steps.len() == 0 {
        assert(units_of(steps) * unit == 0) by (nonlinear_arith)
            requires
                units_of(steps) == 0,
        ;
        assert(leads_of(steps) * s.ptt_lead == 0) by (nonlinear_arith)
            requires
                leads_of(steps) == 0,
        ;
    } else {
        let rest = steps.drop_first();
        assert forall|i: int| 0 <= i < rest.len() implies mark_ok(#[trigger] rest[i]) by {
            assert(rest[i] == steps[i + 1]);
        }
        assert(steps[0] != Step::Gap);
        assert forall|i: int| 0 <= i < rest.len() implies #[trigger] rest[i] != Step::Gap by {
            assert(rest[i] == steps[i + 1]);
        }
        let next = step_done(s, steps[0]);
        steps_take_their_units(next, rest);
        let later = actions_of_steps(next, rest);
        let actions = actions_of_steps(s, steps);
        if takes_nothing(s, steps[0]) {
            assert(actions =~= later);
        } else {
            assert(actions.drop_first() =~= later);
        }
        let first = units_of(steps) - units_of(rest);
        assert(mark_ok(steps[0]));
        lemma_unit_bounds(s.wpm);
        nominal_elements(s.wpm);
        if let Step::Mark(units) = steps[0] {
            assert(units as nat * unit <= 3 * 240_000_000) by (nonlinear_arith)
                requires
                    units <= 3,
                    unit <= 240_000_000,
            ;
            nominal_weighting_keeps_marks(units as nat * unit);
        }
        assert(units_of(steps) * unit == first * unit + units_of(rest) * unit) by (nonlinear_arith)
            requires
                units_of(steps) == first + units_of(rest),
        ;
        let lead = leads_of(steps) - leads_of(rest);
        assert(leads_of(steps) * s.ptt_lead == lead * s.ptt_lead + leads_of(rest) * s.ptt_lead)
            by (nonlinear_arith)
            requires
                leads_of(steps) == lead + leads_of(rest),
        ;
        assert(first == 0 ==> first * unit == 0) by (nonlinear_arith);
        assert(first == 1 ==> first * unit == unit) by (nonlinear_arith);
        assert(lead == 0 ==> lead * s.ptt_lead == 0) by (nonlinear_arith);
        assert(lead == 1 ==> lead * s.ptt_lead == s.ptt_lead) by (nonlinear_arith);
    }
}

proof fn lemma_sleeping_joined(first: Seq<ActionModel>, second: Seq<ActionModel>)
    ensures
        sleeping_time(first + second) == sleeping_time(first) + sleeping_time(second),
    decreases first.len(),
{
    if first.len() == 0 {
        assert(first + second =~= second);
    } else {
        assert((first + second).drop_first() =~= first.drop_first() + second);
        lemma_sleeping_joined(first.drop_first(), second);
    }
}

/// At nominal weighting, a text that reaches an idle keyer after a silence of
/// three units or more takes the units of its characters and gaps, besides
/// the lead and tail times.
pub proof fn text_after_a_silence_takes_its_units(s: State, text: Seq<char>, waited: u128)
    requires
        state_ok(s),
        s.phase == Phase::Idle,
        !s.key_down,
        s.silence + waited >= 3 * unit_nanos(s.wpm),
        s.weighting == NOMINAL_WEIGHTING,
    ensures
        ({
            let command = Some(CommandModel::SendText(text));
            let told = transition(s, EventModel::Received { command, waited }).0;
            let start = transition(told, EventModel::Delivered);
            let steps = message_steps(text, false);
            let count = (actions_of_steps(s, steps) + closing_actions(s)).len();
            &&& sleeping_time(trace(start, count)) == units_of(steps) * unit_nanos(s.wpm)
                + leads_of(steps) * s.ptt_lead + s.ptt_tail
            &&& run(start, count).1 == ActionModel::Receive
        }),
{
    let steps = message_steps(text, false);
    text_after_a_silence_begins_at_once(s, text, waited);
    marks_are_at_most_dashes(text, false);
    lemma_gapless_message(text);
    steps_take_their_units(s, steps);
    lemma_sleeping_joined(actions_of_steps(s, steps), closing_actions(s));
    reveal_with_fuel(sleeping_time, 3);
}

} // verus!
