//! Laws of the steps: what each takes on the wire, and for how long.
use crate::config::{valid_config, Config};
use crate::gap_laws::{
    lemma_next_silence, mark_keyed, mark_under_way, silence, step_under_way,
    worker_counts_its_silence,
};
use crate::model::{
    expects, key, message_begun, next_job, next_step, resumed, state_ok, step_action, step_taken,
    takes_nothing, transition, ActionModel, EventModel, Phase, State,
};
use crate::morse::morse_code;
use crate::morse_laws::codes_are_dots_and_dashes;
use crate::plan::{mark_ok, message_steps, pattern_steps, symbol_steps, symbols_steps, Step};
use crate::plan_laws::{
    character_steps, dots_and_dashes, gap_steps, lead_of_character, message_grows_by_a_character,
};
use crate::settings_laws::{last_lead_tail, last_weighting, last_wpm, settings_stay_in_force};
use crate::timing::{
    dit_and_space_last_two_units, lemma_unit_bounds, unit_nanos, valid_weighting, valid_wpm,
    weighted_mark_is_nearest,
};
use crate::worker_laws::{
    after, every_state_is_consistent, pending_action_fits_the_phase, possible,
};
use vstd::prelude::*;

verus! {

/// Whether a time is that of `units` units weighted, to the nearest
/// nanosecond: `units * unit * weighting / 50`.
pub open spec fn is_weighted(nanos: int, units: nat, unit: nat, weighting: u8) -> bool {
    &&& 50 * nanos <= units * unit * weighting + 25
    &&& units * unit * weighting <= 50 * nanos + 25
}

/// What a step takes, whatever speed and weighting are in force. A rest lasts
/// its units and does not depend on the weighting; a mark lasts its units
/// times `weighting / 50`, to the nearest nanosecond; the space inside a
/// character lasts what a dit leaves of two units; the lead time is the one
/// that is set; and a gap to an earlier text lasts what is missing of three
/// units.
pub proof fn each_step_takes_its_time(s: State, step: Step)
    requires
        valid_wpm(s.wpm),
        valid_weighting(s.weighting),
        mark_ok(step),
    ensures
        ({
            let unit = unit_nanos(s.wpm);
            let action = step_action(s, step);
            match step {
                Step::PttOn => s.ptt_line matches Some(line) ==> action == (ActionModel::SetLine {
                    line,
                    on: true,
                }),
                Step::Lead => action == ActionModel::Sleep(s.ptt_lead as nat),
                Step::Poll => action == ActionModel::Poll,
                Step::Gap => s.silence < 3 * unit ==> {
                    action matches ActionModel::Sleep(nanos) && s.silence + nanos == 3 * unit
                },
                Step::Rest(units) => action == ActionModel::Sleep(units as nat * unit),
                Step::KeyDown => action == (ActionModel::SetLine { line: s.key_line, on: true }),
                Step::Mark(units) => action matches ActionModel::Sleep(nanos) && is_weighted(
                    nanos as int,
                    units as nat,
                    unit,
                    s.weighting,
                ),
                Step::KeyUp => action == (ActionModel::SetLine { line: s.key_line, on: false }),
                Step::Space => action matches ActionModel::Sleep(nanos) && nanos <= 2 * unit
                    && is_weighted(2 * unit - nanos, 1, unit, s.weighting),
            }
        }),
{
    let unit = unit_nanos(s.wpm);
    lemma_unit_bounds(s.wpm);
    match step {
        Step::Mark(units) => {
            assert(units as nat * unit < 1_000_000_000) by (nonlinear_arith)
                requires
                    units <= 3,
                    unit <= 240_000_000,
            ;
            weighted_mark_is_nearest(units as nat * unit, s.weighting);
        },
        Step::Space => {
            weighted_mark_is_nearest(unit, s.weighting);
            dit_and_space_last_two_units(s.wpm, s.weighting);
            assert(1 * unit * s.weighting == unit * s.weighting);
        },
        _ => {},
    }
}

/// Only PTT without a PTT line, and a gap to an earlier text when three units
/// of silence have passed, are passed over. Every other step is taken.
pub proof fn only_what_is_not_needed_is_passed_over(s: State, step: Step)
    ensures
        takes_nothing(s, step) <==> {
            ||| step == Step::PttOn && s.ptt_line is None
            ||| step == Step::Gap && s.silence >= 3 * unit_nanos(s.wpm)
        },
        s.todo.len() > 0 && s.todo[0] == step && !(step == Step::PttOn && s.ptt_line is None) && !(
        step == Step::Gap && s.silence >= 3 * unit_nanos(s.wpm)) ==> {
            &&& next_step(s).0.phase == Phase::Sending
            &&& next_step(s).0.todo == s.todo
            &&& next_step(s).1 == step_action(s, step)
        },
{
}

/// On every run, the step under way takes its time at the speed, weighting and
/// lead time that were last set, on the lines of the configuration.
pub proof fn step_under_way_takes_its_time(config: Config, events: Seq<EventModel>)
    requires
        valid_config(config),
        possible(config, events),
        after(config, events).0.phase == Phase::Sending,
    ensures
        ({
            let (s, action) = after(config, events);
            let unit = unit_nanos(last_wpm(config, events));
            let weighting = last_weighting(config, events);
            let lead = last_lead_tail(config, events).0;
            match s.todo[0] {
                Step::PttOn => config.ptt_line matches Some(line) && action
                    == (ActionModel::SetLine { line, on: true }),
                Step::Lead => action == ActionModel::Sleep(lead as nat),
                Step::Poll => action == ActionModel::Poll,
                Step::Gap => mark_keyed(config, events) ==> {
                    action matches ActionModel::Sleep(nanos) && silence(config, events) + nanos
                        == 3 * unit
                },
                Step::Rest(units) => action == ActionModel::Sleep(units as nat * unit),
                Step::KeyDown => action == (ActionModel::SetLine {
                    line: config.key_line,
                    on: true,
                }),
                Step::Mark(units) => action matches ActionModel::Sleep(nanos) && is_weighted(
                    nanos as int,
                    units as nat,
                    unit,
                    weighting,
                ),
                Step::KeyUp => action == (ActionModel::SetLine {
                    line: config.key_line,
                    on: false,
                }),
                Step::Space => action matches ActionModel::Sleep(nanos) && nanos <= 2 * unit
                    && is_weighted(2 * unit - nanos, 1, unit, weighting),
            }
        }),
{
    let s = after(config, events).0;
    every_state_is_consistent(config, events);
    pending_action_fits_the_phase(config, events);
    settings_stay_in_force(config, events);
    assert(mark_ok(s.todo[0]));
    each_step_takes_its_time(s, s.todo[0]);
    lemma_unit_bounds(s.wpm);
    if mark_keyed(config, events) {
        worker_counts_its_silence(config, events);
    }
}

/// On every run, PTT is held after the last message for the tail time that was
/// last set.
pub proof fn tail_takes_its_time(config: Config, events: Seq<EventModel>)
    requires
        valid_config(config),
        possible(config, events),
        after(config, events).0.phase == Phase::Tail,
    ensures
        after(config, events).1 == ActionModel::Sleep(last_lead_tail(config, events).1 as nat),
{
    pending_action_fits_the_phase(config, events);
    settings_stay_in_force(config, events);
}

/// Whether every key press among steps is followed by a mark of one or three
/// units and the release of the key.
pub open spec fn marks_are_whole(steps: Seq<Step>) -> bool {
    forall|i: int|
        0 <= i < steps.len() && #[trigger] steps[i] == Step::KeyDown ==> {
            &&& i + 2 < steps.len()
            &&& steps[i + 1] == Step::Mark(1) || steps[i + 1] == Step::Mark(3)
            &&& steps[i + 2] == Step::KeyUp
        }
}

proof fn lemma_whole_joined(first: Seq<Step>, second: Seq<Step>)
    requires
        marks_are_whole(first),
        marks_are_whole(second),
    ensures
        marks_are_whole(first + second),
{
    let all = first + second;
    assert forall|i: int| 0 <= i < all.len() && #[trigger] all[i] == Step::KeyDown implies {
        &&& i + 2 < all.len()
        &&& all[i + 1] == Step::Mark(1) || all[i + 1] == Step::Mark(3)
        &&& all[i + 2] == Step::KeyUp
    } by {
        if i < first.len() {
            assert(first[i] == Step::KeyDown);
        } else {
            assert(second[i - first.len()] == Step::KeyDown);
            assert(all[i + 1] == second[i + 1 - first.len()]);
            assert(all[i + 2] == second[i + 2 - first.len()]);
        }
    }
}

proof fn lemma_whole_symbols(pattern: Seq<char>, count: nat)
    requires
        count <= pattern.len(),
        dots_and_dashes(pattern),
    ensures
        marks_are_whole(symbols_steps(pattern, count)),
    decreases count,
{
    if count > 0 {
        let last = symbol_steps(pattern, count - 1);
        lemma_whole_symbols(pattern, (count - 1) as nat);
        assert(pattern[count - 1] == '.' || pattern[count - 1] == '-');
        assert(marks_are_whole(last));
        lemma_whole_joined(symbols_steps(pattern, (count - 1) as nat), last);
    }
}

proof fn lemma_whole_character(text: Seq<char>, c: char)
    ensures
        marks_are_whole(character_steps(text, c, true)),
{
    codes_are_dots_and_dashes(c);
    lemma_whole_code(gap_steps(text, true), morse_code(c));
}

proof fn lemma_whole_code(gap: Seq<Step>, code: Option<Seq<char>>)
    requires
        marks_are_whole(gap),
        code matches Some(pattern) ==> dots_and_dashes(pattern),
    ensures
        code matches Some(pattern) ==> marks_are_whole(gap + pattern_steps(pattern)),
{
    if let Some(pattern) = code {
        lemma_whole_symbols(pattern, pattern.len());
        lemma_whole_joined(gap, pattern_steps(pattern));
    }
}

/// In the steps of a message, every key press is followed by a mark of one or
/// three units and the release of the key.
pub proof fn message_keys_whole_marks(text: Seq<char>)
    ensures
        marks_are_whole(message_steps(text, true)),
    decreases text.len(),
{
    if text.len() == 0 {
        message_grows_by_a_character(text, ' ', true);
        assert(text =~= Seq::empty());
    } else {
        let shorter = text.drop_last();
        let c = text.last();
        let before = message_steps(shorter, true);
        let lead = lead_of_character(shorter, c);
        message_keys_whole_marks(shorter);
        assert(text =~= shorter.push(c));
        message_grows_by_a_character(shorter, c, true);
        lemma_whole_character(shorter, c);
        lemma_whole_joined(before, lead);
        lemma_whole_joined(before + lead, character_steps(shorter, c, true));
    }
}

proof fn lemma_whole_rest(steps: Seq<Step>)
    requires
        steps.len() > 0,
        marks_are_whole(steps),
    ensures
        marks_are_whole(steps.drop_first()),
{
    let rest = steps.drop_first();
    assert forall|i: int| 0 <= i < rest.len() && #[trigger] rest[i] == Step::KeyDown implies {
        &&& i + 2 < rest.len()
        &&& rest[i + 1] == Step::Mark(1) || rest[i + 1] == Step::Mark(3)
        &&& rest[i + 2] == Step::KeyUp
    } by {
        assert(steps[i + 1] == Step::KeyDown);
        assert(rest[i + 1] == steps[i + 2] && rest[i + 2] == steps[i + 3]);
    }
}

proof fn lemma_next_whole(s: State)
    requires
        marks_are_whole(s.todo),
    ensures
        marks_are_whole(next_step(s).0.todo),
        s.todo.len() == 0 ==> marks_are_whole(next_job(s).0.todo),
    decreases s.queue.len(), s.todo.len(),
{
    reveal_with_fuel(next_step, 2);
    reveal_with_fuel(next_job, 2);
    if s.queue.len() > 0 && s.todo.len() == 0 {
        message_keys_whole_marks(s.queue[0]);
        lemma_next_whole(message_begun(s));
    }
    if s.todo.len() > 0 && takes_nothing(s, s.todo[0]) {
        lemma_whole_rest(s.todo);
        lemma_next_whole(step_taken(s));
    }
}

proof fn lemma_transition_whole(s: State, event: EventModel)
    requires
        state_ok(s),
        expects(s, event),
        marks_are_whole(s.todo),
    ensures
        marks_are_whole(transition(s, event).0.todo),
{
    assert(marks_are_whole(seq![Step::Poll]));
    if s.todo.len() > 0 {
        lemma_whole_rest(s.todo);
    }
    if let Some((t, _)) = resumed(s, event) {
        lemma_next_whole(t);
    }
}

proof fn lemma_whole(config: Config, events: Seq<EventModel>)
    requires
        valid_config(config),
        possible(config, events),
    ensures
        marks_are_whole(after(config, events).0.todo),
    decreases events.len(),
{
    if events.len() > 0 {
        let earlier = events.drop_last();
        lemma_whole(config, earlier);
        every_state_is_consistent(config, earlier);
        lemma_transition_whole(after(config, earlier).0, events.last());
    }
}

/// What holds as long as no mark has been keyed.
spec fn nothing_keyed(s: State) -> bool {
    s.silence == u128::MAX && (s.key_down ==> mark_under_way(s))
}

proof fn lemma_transition_nothing_keyed(s: State, event: EventModel)
    requires
        state_ok(s),
        expects(s, event),
        marks_are_whole(s.todo),
        nothing_keyed(s),
        !mark_under_way(s),
    ensures
        nothing_keyed(transition(s, event).0),
{
    if let Some((t, _)) = resumed(s, event) {
        lemma_next_silence(t);
        if s.phase == Phase::Sending && s.todo[0] == Step::KeyDown {
            assert(s.todo.drop_first()[0] == s.todo[1]);
        }
    }
}

/// The first text begins without a gap: as long as no mark has been keyed,
/// nothing is missing of one.
pub proof fn nothing_is_missing_before_the_first_mark(config: Config, events: Seq<EventModel>)
    requires
        valid_config(config),
        possible(config, events),
        !mark_keyed(config, events),
    ensures
        after(config, events).0.silence >= 3 * unit_nanos(last_wpm(config, events)),
        !step_under_way(after(config, events).0, Step::Gap),
{
    lemma_nothing_keyed(config, events);
    every_state_is_consistent(config, events);
    settings_stay_in_force(config, events);
    lemma_unit_bounds(last_wpm(config, events));
}

proof fn lemma_nothing_keyed(config: Config, events: Seq<EventModel>)
    requires
        valid_config(config),
        possible(config, events),
        !mark_keyed(config, events),
    ensures
        nothing_keyed(after(config, events).0),
    decreases events.len(),
{
    if events.len() > 0 {
        let earlier = events.drop_last();
        lemma_nothing_keyed(config, earlier);
        lemma_whole(config, earlier);
        every_state_is_consistent(config, earlier);
        lemma_transition_nothing_keyed(after(config, earlier).0, events.last());
    }
}

/// On every run, once the key is pressed it is held for one mark and then
/// released: a mark of one or three units, weighted, at the speed and the
/// weighting that were last set. Nothing comes between.
pub proof fn key_is_held_for_one_mark(config: Config, events: Seq<EventModel>)
    requires
        valid_config(config),
        possible(config, events),
        after(config, events).1 == key(after(config, events).0, true),
    ensures
        ({
            let s = after(config, events).0;
            let unit = unit_nanos(last_wpm(config, events));
            let (held, holding) = transition(s, EventModel::LineSet(Ok(())));
            let (marked, releasing) = transition(held, EventModel::Slept);
            let units: nat = if s.todo[1] == Step::Mark(1) {
                1
            } else {
                3
            };
            &&& s.todo[1] == Step::Mark(1) || s.todo[1] == Step::Mark(3)
            &&& holding matches ActionModel::Sleep(nanos) && is_weighted(
                nanos as int,
                units,
                unit,
                last_weighting(config, events),
            )
            &&& releasing == (ActionModel::SetLine { line: config.key_line, on: false })
        }),
{
    let s = after(config, events).0;
    every_state_is_consistent(config, events);
    pending_action_fits_the_phase(config, events);
    settings_stay_in_force(config, events);
    lemma_whole(config, events);
    assert(s.todo[0] == Step::KeyDown);
    let held = step_taken(s);
    assert(held.todo[0] == s.todo[1]);
    let marked = step_taken(held);
    assert(marked.todo[0] == s.todo[2]);
    each_step_takes_its_time(s, s.todo[1]);
}

} // verus!
