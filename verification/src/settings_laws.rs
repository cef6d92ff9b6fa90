//! Laws of the settings: each stays in force until it is set anew.
use crate::config::{valid_config, Config};
use crate::duration::nanos_of;
use crate::model::{
    expects, message_begun, next_job, next_step, resumed, state_ok, step_taken, takes_nothing,
    transition, CommandModel, EventModel, State,
};
use crate::silence_laws::command_of;
use crate::worker_laws::{after, every_state_is_consistent, possible};
use vstd::prelude::*;

verus! {

/// The speed that was last set.
pub open spec fn last_wpm(config: Config, events: Seq<EventModel>) -> u8
    decreases events.len(),
{
    if events.len() == 0 {
        config.wpm
    } else {
        match command_of(events.last()) {
            Some(CommandModel::SetWpm(wpm)) => wpm,
            _ => last_wpm(config, events.drop_last()),
        }
    }
}

/// The weighting that was last set.
pub open spec fn last_weighting(config: Config, events: Seq<EventModel>) -> u8
    decreases events.len(),
{
    if events.len() == 0 {
        config.weighting
    } else {
        match command_of(events.last()) {
            Some(CommandModel::SetWeighting(weighting)) => weighting,
            _ => last_weighting(config, events.drop_last()),
        }
    }
}

/// The PTT lead and tail times that were last set, in nanoseconds.
pub open spec fn last_lead_tail(config: Config, events: Seq<EventModel>) -> (u128, u128)
    decreases events.len(),
{
    if events.len() == 0 {
        (nanos_of(config.ptt_lead), nanos_of(config.ptt_tail))
    } else {
        match command_of(events.last()) {
            Some(CommandModel::SetPttLeadTail { lead, tail }) => (lead, tail),
            _ => last_lead_tail(config, events.drop_last()),
        }
    }
}

/// Whether two states have the same settings.
spec fn same_settings(s: State, t: State) -> bool {
    &&& s.wpm == t.wpm
    &&& s.weighting == t.weighting
    &&& s.ptt_lead == t.ptt_lead
    &&& s.ptt_tail == t.ptt_tail
}

proof fn lemma_next_settings(s: State)
    ensures
        same_settings(s, next_step(s).0),
        s.todo.len() == 0 ==> same_settings(s, next_job(s).0),
    decreases s.queue.len(), s.todo.len(),
{
    reveal_with_fuel(next_step, 2);
    reveal_with_fuel(next_job, 2);
    if s.queue.len() > 0 && s.todo.len() == 0 {
        lemma_next_settings(message_begun(s));
    }
    if s.todo.len() > 0 && takes_nothing(s, s.todo[0]) {
        lemma_next_settings(step_taken(s));
    }
}

proof fn lemma_transition_settings(s: State, event: EventModel)
    requires
        state_ok(s),
        expects(s, event),
        command_of(event) is None,
    ensures
        same_settings(s, transition(s, event).0),
{
    if let Some((t, _)) = resumed(s, event) {
        lemma_next_settings(t);
    }
}

/// Speed, weighting, lead and tail times are at all times those that were last
/// set, or those of the configuration if none were.
pub proof fn settings_stay_in_force(config: Config, events: Seq<EventModel>)
    requires
        valid_config(config),
        possible(config, events),
    ensures
        ({
            let s = after(config, events).0;
            &&& s.wpm == last_wpm(config, events)
            &&& s.weighting == last_weighting(config, events)
            &&& (s.ptt_lead, s.ptt_tail) == last_lead_tail(config, events)
        }),
    decreases events.len(),
{
    if events.len() > 0 {
        let earlier = events.drop_last();
        settings_stay_in_force(config, earlier);
        every_state_is_consistent(config, earlier);
        if command_of(events.last()) is None {
            lemma_transition_settings(after(config, earlier).0, events.last());
        }
    }
}

} // verus!
