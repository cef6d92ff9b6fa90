//! Laws of the gaps: how long the worker rests between two characters.
use crate::config::{valid_config, Config};
use crate::model::{
    expects, key, message_begun, next_job, next_step, resumed, state_ok, step_taken,
    takes_nothing, transition, ActionModel, CommandModel, EventModel, Phase, State,
};
use crate::morse::{tokens_of, TokenModel};
use crate::plan::{
    gap_step, lead_steps, message_steps, pattern_steps, symbol_steps, symbols_steps, token_steps,
    tokens_steps, Step, CHAR_GAP_UNITS,
};
use crate::settings_laws::settings_stay_in_force;
use crate::silence_laws::command_of;
use crate::timing::{lemma_unit_bounds, unit_nanos};
use crate::worker_laws::{
    action_fits, after, every_state_is_consistent, key_is_down_only_in_marks, key_is_stuck,
    pending_action_fits_the_phase, possible,
};
use vstd::prelude::*;

verus! {

/// Whether steps keep characters apart: every rest lasts at least the gap
/// between two characters, and the key is pressed only after such a rest, or
/// right after the gap to an earlier text or the space between two marks of a
/// character. `rested` and `ready` say whether that is so before the steps.
pub open spec fn keeps_apart(steps: Seq<Step>, rested: bool, ready: bool) -> bool
    decreases steps.len(),
{
    steps.len() == 0 || {
        let rest = steps.drop_first();
        match steps[0] {
            Step::KeyDown => (rested || ready) && keeps_apart(rest, false, false),
            Step::Mark(_) | Step::KeyUp => keeps_apart(rest, false, false),
            Step::Rest(units) => units >= CHAR_GAP_UNITS && keeps_apart(rest, true, false),
            Step::Space | Step::Gap => keeps_apart(rest, rested, true),
            _ => keeps_apart(rest, rested, false),
        }
    }
}

/// Whether a rest has come since the last mark once steps are over.
spec fn rested_after(steps: Seq<Step>, rested: bool) -> bool
    decreases steps.len(),
{
    if steps.len() == 0 {
        rested
    } else {
        rested_after(
            steps.drop_first(),
            match steps[0] {
                Step::KeyDown | Step::Mark(_) | Step::KeyUp => false,
                Step::Rest(_) => true,
                _ => rested,
            },
        )
    }
}

/// Whether steps end in a space or a gap to an earlier text, or if there are
/// none, whether one precedes.
spec fn ready_after(steps: Seq<Step>, ready: bool) -> bool {
    if steps.len() == 0 {
        ready
    } else {
        steps.last() == Step::Space || steps.last() == Step::Gap
    }
}

proof fn lemma_apart_joined(first: Seq<Step>, second: Seq<Step>, rested: bool, ready: bool)
    ensures
        keeps_apart(first + second, rested, ready) == (keeps_apart(first, rested, ready)
            && keeps_apart(second, rested_after(first, rested), ready_after(first, ready))),
        rested_after(first + second, rested) == rested_after(second, rested_after(first, rested)),
    decreases first.len(),
{
    if first.len() == 0 {
        assert(first + second =~= second);
    } else {
        assert((first + second).drop_first() =~= first.drop_first() + second);
        let next = match first[0] {
            Step::KeyDown | Step::Mark(_) | Step::KeyUp => false,
            Step::Rest(_) => true,
            _ => rested,
        };
        lemma_apart_joined(
            first.drop_first(),
            second,
            next,
            first[0] == Step::Space || first[0] == Step::Gap,
        );
    }
}

/// What keeps characters apart does so all the more after a rest.
proof fn lemma_apart_after_more(steps: Seq<Step>, before: (bool, bool), after: (bool, bool))
    requires
        keeps_apart(steps, before.0, before.1),
        before.0 ==> after.0,
        before.1 ==> after.1,
    ensures
        keeps_apart(steps, after.0, after.1),
    decreases steps.len(),
{
    if steps.len() > 0 {
        let rest = steps.drop_first();
        match steps[0] {
            Step::KeyDown | Step::Mark(_) | Step::KeyUp | Step::Rest(_) => {},
            Step::Space | Step::Gap => {
                lemma_apart_after_more(rest, (before.0, true), (after.0, true));
            },
            _ => lemma_apart_after_more(rest, (before.0, false), (after.0, false)),
        }
    }
}

proof fn lemma_symbols_apart(pattern: Seq<char>, count: nat, rested: bool, ready: bool)
    requires
        count <= pattern.len(),
        rested || ready,
    ensures
        keeps_apart(symbols_steps(pattern, count), rested, ready),
        0 < count < pattern.len() ==> ready_after(symbols_steps(pattern, count), ready),
    decreases count,
{
    if count > 0 {
        let first = symbols_steps(pattern, (count - 1) as nat);
        let last = symbol_steps(pattern, count - 1);
        lemma_symbols_apart(pattern, (count - 1) as nat, rested, ready);
        lemma_apart_joined(first, last, rested, ready);
        reveal_with_fuel(keeps_apart, 5);
        assert((first + last).last() == last.last());
    }
}

/// Whether the character at `i` may follow without a gap of its own.
spec fn may_follow(tokens: Seq<TokenModel>, i: int) -> bool {
    i > 0 && tokens[i - 1] is WordGap
}

proof fn lemma_tokens_apart(tokens: Seq<TokenModel>, count: nat)
    requires
        count <= tokens.len(),
    ensures
        keeps_apart(tokens_steps(tokens, count, true), false, false),
        may_follow(tokens, count as int) ==> rested_after(
            tokens_steps(tokens, count, true),
            false,
        ),
    decreases count,
{
    if count > 0 {
        let first = tokens_steps(tokens, (count - 1) as nat, true);
        let last = token_steps(tokens, count - 1, true);
        let rested = rested_after(first, false);
        let ready = ready_after(first, false);
        lemma_tokens_apart(tokens, (count - 1) as nat);
        lemma_apart_joined(first, last, false, false);
        reveal_with_fuel(keeps_apart, 3);
        reveal_with_fuel(rested_after, 3);
        if let TokenModel::Char(pattern) = tokens[count - 1] {
            let keyed = pattern_steps(pattern);
            match gap_step(tokens, count - 1, true) {
                Some(gap) => {
                    let start = seq![Step::Poll, gap];
                    lemma_apart_joined(start, keyed, rested, ready);
                    lemma_symbols_apart(
                        pattern,
                        pattern.len(),
                        rested_after(start, rested),
                        ready_after(start, ready),
                    );
                },
                None => {
                    lemma_apart_joined(seq![Step::Poll], keyed, rested, ready);
                    lemma_symbols_apart(pattern, pattern.len(), rested, false);
                },
            }
        }
    }
}

/// The steps of a message keep its characters apart, and its first character
/// from one that was keyed before.
pub proof fn message_keeps_characters_apart(text: Seq<char>, rested: bool, ready: bool)
    ensures
        keeps_apart(message_steps(text, true), rested, ready),
{
    let tokens = tokens_of(text);
    let steps = tokens_steps(tokens, tokens.len(), true);
    lemma_tokens_apart(tokens, tokens.len());
    lemma_apart_joined(lead_steps(text), steps, false, false);
    reveal_with_fuel(keeps_apart, 3);
    reveal_with_fuel(rested_after, 3);
    lemma_apart_after_more(message_steps(text, true), (false, false), (rested, ready));
}

/// Whether the space between two marks of a character has just ended.
pub open spec fn just_spaced(config: Config, events: Seq<EventModel>) -> bool {
    events.len() > 0 && step_under_way(after(config, events.drop_last()).0, Step::Space)
}

/// Whether `step` is the step of a message that is under way.
pub open spec fn step_under_way(s: State, step: Step) -> bool {
    s.phase == Phase::Sending && s.todo[0] == step
}

/// Whether a mark is under way.
pub open spec fn mark_under_way(s: State) -> bool {
    s.phase == Phase::Sending && s.todo[0] is Mark
}

/// Whether a mark has been keyed.
pub open spec fn mark_keyed(config: Config, events: Seq<EventModel>) -> bool
    decreases events.len(),
{
    events.len() > 0 && {
        ||| mark_keyed(config, events.drop_last())
        ||| mark_under_way(after(config, events.drop_last()).0)
    }
}

/// How long an action took that an event ends, as far as it is a time of
/// sleeping or waiting, in nanoseconds.
pub open spec fn time_passed(action: ActionModel, event: EventModel) -> nat {
    match (action, event) {
        (ActionModel::Sleep(nanos), _) => nanos,
        (ActionModel::Receive, EventModel::Received { waited, .. }) => waited as nat,
        _ => 0,
    }
}

/// Whether the last event ended a mark, or a time in which the key was down.
pub open spec fn silence_begins(config: Config, events: Seq<EventModel>) -> bool {
    let s = after(config, events.drop_last()).0;
    mark_under_way(s) || (s.key_down && !after(config, events).0.key_down)
}

/// How long the worker has slept or waited since the last mark and since the
/// key last went up, in nanoseconds.
pub open spec fn silence(config: Config, events: Seq<EventModel>) -> nat
    decreases events.len(),
{
    if events.len() == 0 || silence_begins(config, events) {
        0
    } else {
        let action = after(config, events.drop_last()).1;
        silence(config, events.drop_last()) + time_passed(action, events.last())
    }
}

/// How much of that silence passed with the key up.
pub open spec fn silence_with_key_up(config: Config, events: Seq<EventModel>) -> nat
    decreases events.len(),
{
    if events.len() == 0 || silence_begins(config, events) {
        0
    } else {
        let (s, action) = after(config, events.drop_last());
        silence_with_key_up(config, events.drop_last()) + (if s.key_down {
            0
        } else {
            time_passed(action, events.last())
        })
    }
}

/// The speed at which the last rest of that silence was kept, if there was one
/// inside a text.
pub open spec fn rest_speed(config: Config, events: Seq<EventModel>) -> Option<u8>
    decreases events.len(),
{
    if events.len() == 0 || silence_begins(config, events) {
        None
    } else {
        let s = after(config, events.drop_last()).0;
        if s.phase == Phase::Sending && s.todo[0] is Rest {
            Some(s.wpm)
        } else {
            rest_speed(config, events.drop_last())
        }
    }
}

/// Whether nothing is missing of the gap to the character keyed before.
spec fn gap_is_kept(s: State) -> bool {
    s.silence >= 3 * unit_nanos(s.wpm)
}

/// Looking for work keeps characters apart.
proof fn lemma_next_apart(s: State, rested: bool, spaced: bool)
    requires
        keeps_apart(s.todo, rested, spaced || gap_is_kept(s)),
    ensures
        ({
            let t = next_step(s).0;
            keeps_apart(t.todo, rested, spaced || gap_is_kept(t))
        }),
        s.todo.len() == 0 ==> {
            let t = next_job(s).0;
            keeps_apart(t.todo, rested, spaced || gap_is_kept(t))
        },
    decreases s.queue.len(), s.todo.len(),
{
    reveal_with_fuel(next_step, 2);
    reveal_with_fuel(next_job, 2);
    if s.queue.len() > 0 && s.todo.len() == 0 {
        message_keeps_characters_apart(s.queue[0], rested, spaced || gap_is_kept(s));
        lemma_next_apart(message_begun(s), rested, spaced);
    }
    if s.todo.len() > 0 && takes_nothing(s, s.todo[0]) {
        let t = step_taken(s);
        if s.todo[0] == Step::PttOn {
            lemma_apart_after_more(t.todo, (rested, false), (rested, spaced || gap_is_kept(t)));
        }
        lemma_next_apart(t, rested, spaced);
    }
}

proof fn lemma_transition_apart(s: State, event: EventModel, rested: bool, spaced: bool)
    requires
        state_ok(s),
        expects(s, event),
        keeps_apart(s.todo, rested, spaced || gap_is_kept(s)),
    ensures
        ({
            let t = transition(s, event).0;
            let rests = s.phase == Phase::Sending && s.todo[0] is Rest;
            let begins = mark_under_way(s) || (s.key_down && !t.key_down);
            keeps_apart(
                t.todo,
                !begins && (rested || rests),
                step_under_way(s, Step::Space) || gap_is_kept(t),
            )
        }),
{
    reveal_with_fuel(keeps_apart, 2);
    lemma_unit_bounds(s.wpm);
    let space = step_under_way(s, Step::Space);
    if let Some((next, _)) = resumed(s, event) {
        let rests = s.phase == Phase::Sending && s.todo[0] is Rest;
        let begins = mark_under_way(s) || (s.key_down && !next.key_down);
        let after = (!begins && (rested || rests), space || gap_is_kept(next));
        if next.todo.len() > 0 {
            let before = match s.todo[0] {
                Step::KeyDown | Step::Mark(_) | Step::KeyUp => (false, false),
                Step::Rest(_) => (true, false),
                Step::Space | Step::Gap => (rested, true),
                _ => (rested, false),
            };
            lemma_apart_after_more(next.todo, before, after);
        }
        lemma_next_apart(next, after.0, space);
        lemma_next_silence(next);
    }
}

proof fn lemma_gaps(config: Config, events: Seq<EventModel>)
    requires
        valid_config(config),
        possible(config, events),
    ensures
        ({
            let s = after(config, events).0;
            let rested = rest_speed(config, events) is Some;
            &&& keeps_apart(s.todo, rested, just_spaced(config, events) || gap_is_kept(s))
            &&& mark_keyed(config, events) ==> s.silence == capped(silence(config, events))
            &&& rest_speed(config, events) matches Some(wpm) ==> silence(config, events) >= 3
                * unit_nanos(wpm)
        }),
    decreases events.len(),
{
    if events.len() > 0 {
        let earlier = events.drop_last();
        lemma_gaps(config, earlier);
        every_state_is_consistent(config, earlier);
        pending_action_fits_the_phase(config, earlier);
        let (s, action) = after(config, earlier);
        let rested = rest_speed(config, earlier) is Some;
        lemma_transition_apart(s, events.last(), rested, just_spaced(config, earlier));
        lemma_transition_silence(s, action, events.last());
        if s.phase == Phase::Sending {
            if let Step::Rest(units) = s.todo[0] {
                assert(units as nat * unit_nanos(s.wpm) >= 3 * unit_nanos(s.wpm))
                    by (nonlinear_arith)
                    requires
                        units >= 3,
                ;
            }
        }
    }
}

/// A time as far as the worker can count it.
spec fn capped(nanos: nat) -> nat {
    if nanos > u128::MAX {
        u128::MAX as nat
    } else {
        nanos
    }
}

/// The worker counts its silence.
proof fn lemma_transition_silence(s: State, action: ActionModel, event: EventModel)
    requires
        state_ok(s),
        expects(s, event),
        action_fits(s, action),
    ensures
        ({
            let t = transition(s, event).0;
            t.silence == (if mark_under_way(s) || (s.key_down && !t.key_down) {
                0
            } else {
                capped(s.silence as nat + time_passed(action, event))
            })
        }),
{
    if let Some((next, _)) = resumed(s, event) {
        lemma_next_silence(next);
    }
}

/// Looking for work takes no time.
pub proof fn lemma_next_silence(s: State)
    ensures
        next_step(s).0.silence == s.silence && next_step(s).0.key_down == s.key_down,
        s.todo.len() == 0 ==> next_job(s).0.silence == s.silence && next_job(s).0.key_down
            == s.key_down,
    decreases s.queue.len(), s.todo.len(),
{
    reveal_with_fuel(next_step, 2);
    reveal_with_fuel(next_job, 2);
    if s.queue.len() > 0 && s.todo.len() == 0 {
        lemma_next_silence(message_begun(s));
    }
    if s.todo.len() > 0 && takes_nothing(s, s.todo[0]) {
        lemma_next_silence(step_taken(s));
    }
}

/// The worker counts its silence: once a mark has been keyed, it knows how long
/// it has slept and waited since, as far as it can count.
pub proof fn worker_counts_its_silence(config: Config, events: Seq<EventModel>)
    requires
        valid_config(config),
        possible(config, events),
        mark_keyed(config, events),
    ensures
        after(config, events).0.silence == (if silence(config, events) > u128::MAX {
            u128::MAX as nat
        } else {
            silence(config, events)
        }),
{
    lemma_gaps(config, events);
}

/// If the key is up, it was so all through the silence.
pub proof fn key_is_up_in_silence(config: Config, events: Seq<EventModel>)
    requires
        !after(config, events).0.key_down,
    ensures
        silence_with_key_up(config, events) == silence(config, events),
    decreases events.len(),
{
    if events.len() > 0 && !silence_begins(config, events) {
        key_is_up_in_silence(config, events.drop_last());
    }
}

/// Two characters are kept apart, in a text and from one text to the next,
/// whatever commands come in and whatever becomes of the lines: when the key
/// is about to be pressed for the first mark of a character and a mark was
/// keyed before, the worker has slept and waited since then for at least
/// three units. That is at the present speed, or at that of the last rest
/// inside a text, and with the key up all the while unless it is stuck.
pub proof fn characters_are_kept_apart(config: Config, events: Seq<EventModel>)
    requires
        valid_config(config),
        possible(config, events),
        after(config, events).1 == key(after(config, events).0, true),
        !just_spaced(config, events),
        mark_keyed(config, events),
    ensures
        silence(config, events) >= 3 * unit_nanos(
            match rest_speed(config, events) {
                Some(wpm) => wpm,
                None => after(config, events).0.wpm,
            },
        ),
        !key_is_stuck(config, events) ==> silence_with_key_up(config, events) == silence(
            config,
            events,
        ),
{
    lemma_gaps(config, events);
    every_state_is_consistent(config, events);
    pending_action_fits_the_phase(config, events);
    if !key_is_stuck(config, events) {
        key_is_down_only_in_marks(config, events);
        key_is_up_in_silence(config, events);
    }
}

/// Whether no event brings a new speed.
pub open spec fn no_new_speed(events: Seq<EventModel>) -> bool {
    forall|i: int|
        0 <= i < events.len() ==> !(command_of(#[trigger] events[i]) matches Some(
            CommandModel::SetWpm(_),
        ))
}

proof fn lemma_one_speed(config: Config, events: Seq<EventModel>)
    requires
        valid_config(config),
        possible(config, events),
        no_new_speed(events),
    ensures
        after(config, events).0.wpm == config.wpm,
        rest_speed(config, events) matches Some(wpm) ==> wpm == config.wpm,
    decreases events.len(),
{
    if events.len() > 0 {
        let earlier = events.drop_last();
        assert forall|i: int| 0 <= i < earlier.len() implies !(command_of(
            #[trigger] earlier[i],
        ) matches Some(CommandModel::SetWpm(_))) by {
            assert(earlier[i] == events[i]);
        }
        assert(events.last() == events[events.len() - 1]);
        lemma_one_speed(config, earlier);
        settings_stay_in_force(config, events);
        settings_stay_in_force(config, earlier);
    }
}

/// At one speed, two characters are at least three units of it apart.
pub proof fn characters_are_kept_apart_at_one_speed(config: Config, events: Seq<EventModel>)
    requires
        valid_config(config),
        possible(config, events),
        no_new_speed(events),
        after(config, events).1 == key(after(config, events).0, true),
        !just_spaced(config, events),
        mark_keyed(config, events),
    ensures
        silence(config, events) >= 3 * unit_nanos(config.wpm),
        !key_is_stuck(config, events) ==> silence_with_key_up(config, events) >= 3 * unit_nanos(
            config.wpm,
        ),
{
    characters_are_kept_apart(config, events);
    lemma_one_speed(config, events);
}

} // verus!
