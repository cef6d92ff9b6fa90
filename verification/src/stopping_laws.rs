//! Laws of the worker's life: how it starts, which lines it touches, and how it
//! leaves them, whether or not they could be switched.
use crate::config::{valid_config, Config, ControlLine};
use crate::error::Error;
use crate::model::{
    expects, resumed, state_ok, transition, ActionModel, CommandModel, EventModel, Phase, State,
};
use crate::worker_laws::{
    after, every_state_is_consistent, is_failure, lemma_next_phase, line_is_on,
    pending_action_fits_the_phase, possible, status_follows_the_lines,
};
use vstd::prelude::*;

verus! {

/// What a line was last asked to be, the pending action included.
pub open spec fn last_asked(config: Config, events: Seq<EventModel>, line: ControlLine) -> Option<
    bool,
>
    decreases events.len(),
{
    match after(config, events).1 {
        ActionModel::SetLine { line: asked, on } if asked == line => Some(on),
        _ => if events.len() == 0 {
            None
        } else {
            last_asked(config, events.drop_last(), line)
        },
    }
}

/// How often the start was announced, the pending action included.
pub open spec fn announcements(config: Config, events: Seq<EventModel>) -> nat
    decreases events.len(),
{
    let earlier: nat = if events.len() == 0 {
        0
    } else {
        announcements(config, events.drop_last())
    };
    if after(config, events).1 is Announce {
        earlier + 1
    } else {
        earlier
    }
}

pub open spec fn is_opening(s: State) -> bool {
    s.phase == Phase::OpeningKey || s.phase == Phase::OpeningPtt
}

/// How the worker comes to be where it is.
proof fn lemma_comes_from(s: State, event: EventModel)
    requires
        state_ok(s),
        expects(s, event),
    ensures
        ({
            let (t, action) = transition(s, event);
            &&& is_opening(t) ==> is_opening(s)
            &&& action is Announce ==> is_opening(s)
            &&& is_opening(s) && !is_opening(t) ==> action is Announce
            &&& t.phase == Phase::ClosingPtt ==> s.phase == Phase::ClosingKey
            &&& t.phase == Phase::Stopped && !(action is Announce) ==> {
                ||| s.phase == Phase::ClosingPtt
                ||| s.phase == Phase::ClosingKey && s.ptt_line is None
            }
        }),
{
    if let Some((t, _)) = resumed(s, event) {
        lemma_next_phase(t);
    }
}

/// The start is announced once: not before the lines have been tried, and
/// never again.
pub proof fn start_is_announced_once(config: Config, events: Seq<EventModel>)
    requires
        valid_config(config),
        possible(config, events),
    ensures
        announcements(config, events) == (if is_opening(after(config, events).0) {
            0nat
        } else {
            1
        }),
    decreases events.len(),
{
    if events.len() > 0 {
        let earlier = events.drop_last();
        start_is_announced_once(config, earlier);
        every_state_is_consistent(config, earlier);
        every_state_is_consistent(config, events);
        pending_action_fits_the_phase(config, events);
        lemma_comes_from(after(config, earlier).0, events.last());
    }
}

/// The worker never switches a line that is not configured for key or PTT.
pub proof fn only_configured_lines_are_switched(config: Config, events: Seq<EventModel>)
    requires
        valid_config(config),
        possible(config, events),
    ensures
        after(config, events).1 matches ActionModel::SetLine { line, .. } ==> line
            == config.key_line || Some(line) == config.ptt_line,
{
    pending_action_fits_the_phase(config, events);
}

/// A worker that stops after a good start has last asked for both lines to be
/// off, whether or not they could be switched.
pub proof fn stopping_worker_asks_lines_off(config: Config, events: Seq<EventModel>)
    requires
        valid_config(config),
        possible(config, events),
        after(config, events).1 == ActionModel::Stop,
    ensures
        last_asked(config, events, config.key_line) == Some(false),
        config.ptt_line matches Some(line) ==> last_asked(config, events, line) == Some(false),
{
    lemma_asked_off(config, events);
    pending_action_fits_the_phase(config, events);
}

proof fn lemma_asked_off(config: Config, events: Seq<EventModel>)
    requires
        valid_config(config),
        possible(config, events),
    ensures
        ({
            let (s, action) = after(config, events);
            let stopped = s.phase == Phase::Stopped && action == ActionModel::Stop;
            &&& s.phase == Phase::ClosingKey || s.phase == Phase::ClosingPtt || stopped
                ==> last_asked(config, events, config.key_line) == Some(false)
            &&& s.phase == Phase::ClosingPtt || stopped ==> (config.ptt_line matches Some(line)
                ==> last_asked(config, events, line) == Some(false))
        }),
    decreases events.len(),
{
    pending_action_fits_the_phase(config, events);
    if events.len() > 0 {
        let earlier = events.drop_last();
        lemma_asked_off(config, earlier);
        every_state_is_consistent(config, earlier);
        pending_action_fits_the_phase(config, earlier);
        lemma_comes_from(after(config, earlier).0, events.last());
    }
}

/// What a line was last tried to be switched to, and whether it was.
pub open spec fn last_tried(config: Config, events: Seq<EventModel>, line: ControlLine) -> Option<
    (bool, bool),
>
    decreases events.len(),
{
    if events.len() == 0 {
        None
    } else {
        match after(config, events.drop_last()).1 {
            ActionModel::SetLine { line: tried, on } if tried == line => Some(
                (on, !is_failure(events.last())),
            ),
            _ => last_tried(config, events.drop_last(), line),
        }
    }
}

/// Whether the last attempt to switch a line succeeded.
pub open spec fn last_try_succeeded(
    config: Config,
    events: Seq<EventModel>,
    line: ControlLine,
) -> bool {
    last_tried(config, events, line) matches Some((_, succeeded)) && succeeded
}

/// A line is where the last attempt to switch it put it, if that succeeded.
proof fn lemma_last_tried(config: Config, events: Seq<EventModel>, line: ControlLine)
    requires
        valid_config(config),
        possible(config, events),
    ensures
        last_tried(config, events, line) matches Some((on, succeeded)) ==> {
            succeeded ==> line_is_on(config, events, line) == on
        },
    decreases events.len(),
{
    if events.len() > 0 {
        let earlier = events.drop_last();
        lemma_last_tried(config, earlier, line);
        pending_action_fits_the_phase(config, earlier);
    }
}

/// What is asked of a line is tried, unless it is pending.
proof fn lemma_asked_is_tried(config: Config, events: Seq<EventModel>, line: ControlLine)
    ensures
        last_asked(config, events, line) == (match after(config, events).1 {
            ActionModel::SetLine { line: asked, on } if asked == line => Some(on),
            _ => match last_tried(config, events, line) {
                Some((on, _)) => Some(on),
                None => None,
            },
        }),
    decreases events.len(),
{
    if events.len() > 0 {
        lemma_asked_is_tried(config, events.drop_last(), line);
    }
}

/// A worker that stops after a good start leaves a line off if the last
/// attempt to switch it succeeded, whatever failed before.
pub proof fn stopped_worker_leaves_lines_off(config: Config, events: Seq<EventModel>)
    requires
        valid_config(config),
        possible(config, events),
        after(config, events).1 == ActionModel::Stop,
    ensures
        last_try_succeeded(config, events, config.key_line) ==> {
            &&& !line_is_on(config, events, config.key_line)
            &&& !after(config, events).0.key_down
        },
        match config.ptt_line {
            Some(line) => last_try_succeeded(config, events, line) ==> {
                &&& !line_is_on(config, events, line)
                &&& !after(config, events).0.ptt_on
            },
            None => !after(config, events).0.ptt_on,
        },
{
    stopping_worker_asks_lines_off(config, events);
    status_follows_the_lines(config, events);
    lemma_last_tried(config, events, config.key_line);
    lemma_asked_is_tried(config, events, config.key_line);
    if let Some(line) = config.ptt_line {
        lemma_last_tried(config, events, line);
        lemma_asked_is_tried(config, events, line);
    }
    pending_action_fits_the_phase(config, events);
    let earlier = events.drop_last();
    every_state_is_consistent(config, earlier);
    pending_action_fits_the_phase(config, earlier);
    lemma_comes_from(after(config, earlier).0, events.last());
}

/// On opening both lines are switched off, the key line first, and the start
/// is announced: with success if both could be switched, and else with the
/// error of the first that could not, after which nothing more is done.
pub proof fn opening_tries_the_lines_and_tells(
    config: Config,
    keyed: Result<(), Error>,
    released: Result<(), Error>,
)
    requires
        valid_config(config),
    ensures
        ({
            let none = Seq::<EventModel>::empty();
            let (first, first_action) = after(config, none);
            let (second, second_action) = transition(first, EventModel::LineSet(keyed));
            let (third, third_action) = transition(second, EventModel::LineSet(released));
            &&& first_action == (ActionModel::SetLine { line: config.key_line, on: false })
            &&& match (keyed, config.ptt_line) {
                (Err(error), _) => {
                    &&& second_action == ActionModel::Announce(Err(error))
                    &&& second.phase == Phase::Stopped
                },
                (Ok(_), None) => {
                    &&& second_action == ActionModel::Announce(Ok(()))
                    &&& second.phase == Phase::Announcing
                },
                (Ok(_), Some(line)) => {
                    &&& second_action == (ActionModel::SetLine { line, on: false })
                    &&& match released {
                        Err(error) => {
                            &&& third_action == ActionModel::Announce(Err(error))
                            &&& third.phase == Phase::Stopped
                        },
                        Ok(_) => {
                            &&& third_action == ActionModel::Announce(Ok(()))
                            &&& third.phase == Phase::Announcing
                        },
                    }
                },
            }
        }),
{
}

/// A worker that has announced a good start waits for commands.
pub proof fn opened_worker_waits_for_commands(s: State)
    requires
        state_ok(s),
        s.phase == Phase::Announcing,
        s.queue.len() == 0,
        !s.closing,
    ensures
        transition(s, EventModel::Delivered).0.phase == Phase::Idle,
        transition(s, EventModel::Delivered).1 == ActionModel::Receive,
{
}

/// An idle worker that has lost its last handle switches its lines off, the
/// key line first, and stops, whether or not they can be switched.
pub proof fn lost_handle_stops_the_worker(
    s: State,
    waited: u128,
    keyed: Result<(), Error>,
    released: Result<(), Error>,
)
    requires
        state_ok(s),
        s.phase == Phase::Idle,
    ensures
        ({
            let lost = EventModel::Received { command: None, waited };
            let (closing, first) = transition(s, lost);
            let (next, second) = transition(closing, EventModel::LineSet(keyed));
            let (stopped, last) = match s.ptt_line {
                Some(_) => transition(next, EventModel::LineSet(released)),
                None => (next, second),
            };
            &&& first == (ActionModel::SetLine { line: s.key_line, on: false })
            &&& s.ptt_line matches Some(line) ==> second == (ActionModel::SetLine {
                line,
                on: false,
            })
            &&& last == ActionModel::Stop
            &&& stopped.phase == Phase::Stopped
        }),
{
}

/// Whether a command holds a speed from 5 to 99 or a weighting from 10 to 90
/// if it holds one.
pub open spec fn is_in_range(command: Option<CommandModel>) -> bool {
    match command {
        Some(CommandModel::SetWpm(wpm)) => 5 <= wpm <= 99,
        Some(CommandModel::SetWeighting(weighting)) => 10 <= weighting <= 90,
        _ => true,
    }
}

/// Whether an event is of the kind that an action leads to.
pub open spec fn answers_action(action: ActionModel, event: EventModel) -> bool {
    match action {
        ActionModel::SetLine { .. } => event is LineSet,
        ActionModel::Announce(Ok(_)) | ActionModel::Answer { .. } => event is Delivered,
        ActionModel::Receive => event matches EventModel::Received { command, .. } && is_in_range(
            command,
        ),
        ActionModel::Poll => event matches EventModel::Polled(command) && is_in_range(command),
        ActionModel::Sleep(_) => event is Slept,
        ActionModel::Announce(Err(_)) | ActionModel::Stop => false,
    }
}

/// On every run, the worker takes whatever its pending action can lead to, and
/// nothing else.
pub proof fn every_answer_is_expected(config: Config, events: Seq<EventModel>, event: EventModel)
    requires
        valid_config(config),
        possible(config, events),
    ensures
        expects(after(config, events).0, event) <==> answers_action(
            after(config, events).1,
            event,
        ),
{
    every_state_is_consistent(config, events);
    pending_action_fits_the_phase(config, events);
}

} // verus!
