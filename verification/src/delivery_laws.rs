//! Laws of delivery: every text that is accepted is keyed, whole and in order.
use crate::config::{valid_config, Config};
use crate::model::{
    expects, handle_command, message_begun, message_dropped, next_job, next_step, rested, resumed,
    state_ok, status_of, step_taken, takes_nothing, transition, CommandModel, EventModel, Phase,
    State,
};
use crate::morse::tokens_of;
use crate::plan::{lead_steps, message_steps, only_the_first_gap_is_made_up, Step};
use crate::plan_laws::{message_is_keyed_as_written, script, script_of_joined, written_text};
use crate::silence_laws::command_of;
use crate::worker_laws::{
    after, every_state_is_consistent, is_failure, is_work, lemma_next_phase,
    message_begins_with_ptt, pending_action_fits_the_phase, possible,
};
use vstd::prelude::*;

verus! {

/// Whether a step keys a mark or keeps a gap or space of its text; the others
/// switch PTT, wait for it, take commands or make up the gap to another text.
pub open spec fn is_keying(step: Step) -> bool {
    step != Step::PttOn && step != Step::Lead && step != Step::Poll && step != Step::Gap
}

/// The keying among steps, in order.
pub open spec fn keying(steps: Seq<Step>) -> Seq<Step>
    decreases steps.len(),
{
    if steps.len() == 0 {
        seq![]
    } else if is_keying(steps[0]) {
        seq![steps[0]] + keying(steps.drop_first())
    } else {
        keying(steps.drop_first())
    }
}

/// The keying of texts, one after the other: of each, the marks that its
/// characters demand and the gaps between them.
pub open spec fn texts_keying(texts: Seq<Seq<char>>) -> Seq<Step>
    decreases texts.len(),
{
    if texts.len() == 0 {
        seq![]
    } else {
        keying(message_steps(texts[0], false)) + texts_keying(texts.drop_first())
    }
}

/// The texts that have been accepted, in order.
pub open spec fn accepted(events: Seq<EventModel>) -> Seq<Seq<char>>
    decreases events.len(),
{
    if events.len() == 0 {
        seq![]
    } else {
        let earlier = accepted(events.drop_last());
        match command_of(events.last()) {
            Some(CommandModel::SendText(text)) => earlier.push(text),
            _ => earlier,
        }
    }
}

/// The keying that an event completes in a state, if any.
pub open spec fn keyed_by(s: State, event: EventModel) -> Seq<Step> {
    if s.phase == Phase::Sending && is_keying(s.todo[0]) && !is_failure(event) {
        seq![s.todo[0]]
    } else {
        seq![]
    }
}

/// The keying that has been done, in order.
pub open spec fn keyed(config: Config, events: Seq<EventModel>) -> Seq<Step>
    decreases events.len(),
{
    if events.len() == 0 {
        seq![]
    } else {
        let earlier = events.drop_last();
        keyed(config, earlier) + keyed_by(after(config, earlier).0, events.last())
    }
}

/// The keying that is left of the message being sent and of those queued.
pub open spec fn left_to_key(s: State) -> Seq<Step> {
    keying(s.todo) + texts_keying(s.queue)
}

/// Whether an event ends the keying: a line that cannot be switched, a command
/// to clear the buffer or to close, or the loss of the last handle.
pub open spec fn ends_keying(event: EventModel) -> bool {
    ||| is_failure(event)
    ||| command_of(event) == Some(CommandModel::ClearBuffer)
    ||| command_of(event) == Some(CommandModel::Close)
    ||| event is Received && event->command is None
}

/// Whether no event ends the keying.
pub open spec fn keying_goes_on(events: Seq<EventModel>) -> bool {
    forall|i: int| 0 <= i < events.len() ==> !ends_keying(#[trigger] events[i])
}

proof fn lemma_texts_pushed(texts: Seq<Seq<char>>, text: Seq<char>)
    ensures
        texts_keying(texts.push(text)) == texts_keying(texts) + keying(message_steps(text, false)),
    decreases texts.len(),
{
    let all = texts.push(text);
    let last = keying(message_steps(text, false));
    if texts.len() == 0 {
        assert(all.drop_first() =~= seq![]);
        assert(texts_keying(seq![]) =~= seq![]);
    } else {
        assert(all.drop_first() =~= texts.drop_first().push(text));
        lemma_texts_pushed(texts.drop_first(), text);
    }
    assert(texts_keying(all) =~= texts_keying(texts) + last);
}

proof fn lemma_keying_joined(first: Seq<Step>, second: Seq<Step>)
    ensures
        keying(first + second) == keying(first) + keying(second),
    decreases first.len(),
{
    if first.len() == 0 {
        assert(first + second =~= second);
    } else {
        assert((first + second).drop_first() =~= first.drop_first() + second);
        lemma_keying_joined(first.drop_first(), second);
    }
    assert(keying(first + second) =~= keying(first) + keying(second));
}

/// The keying of a message is that of its text, whatever was sent before.
proof fn lemma_message_keying(text: Seq<char>)
    ensures
        keying(message_steps(text, true)) == keying(message_steps(text, false)),
{
    let tokens = tokens_of(text);
    only_the_first_gap_is_made_up(text);
    if tokens.len() > 0 && tokens[0] is Char {
        let start = lead_steps(text) + seq![Step::Poll];
        let rest = message_steps(text, false).skip(start.len() as int);
        let gap = seq![Step::Gap];
        lemma_keying_joined(start, rest);
        lemma_keying_joined(start + gap, rest);
        lemma_keying_joined(start, gap);
        reveal_with_fuel(keying, 2);
        assert(keying(gap) =~= seq![]);
        assert(keying(start + gap) =~= keying(start));
    }
}

/// Whether as much is left to key in `t` as in `s`.
spec fn same_left(s: State, t: State) -> bool {
    left_to_key(t) == left_to_key(s) && t.closing == s.closing
}

proof fn lemma_next_left(s: State)
    requires
        !s.closing,
    ensures
        same_left(s, next_step(s).0),
        s.todo.len() == 0 ==> same_left(s, next_job(s).0),
    decreases s.queue.len(), s.todo.len(),
{
    reveal_with_fuel(next_step, 2);
    reveal_with_fuel(next_job, 2);
    if s.queue.len() > 0 && s.todo.len() == 0 {
        lemma_message_keying(s.queue[0]);
        assert(left_to_key(s) =~= texts_keying(s.queue));
        assert(same_left(s, message_begun(s)));
        lemma_next_left(message_begun(s));
    }
    if s.todo.len() > 0 && takes_nothing(s, s.todo[0]) {
        assert(same_left(s, step_taken(s)));
        lemma_next_left(step_taken(s));
    }
}

/// A step that is taken is no longer left.
proof fn lemma_step_taken(s: State, event: EventModel)
    requires
        s.phase == Phase::Sending,
        s.todo.len() > 0,
        !is_failure(event),
    ensures
        left_to_key(s) == keyed_by(s, event) + left_to_key(step_taken(s)),
{
    assert(left_to_key(s) =~= keyed_by(s, event) + left_to_key(step_taken(s)));
}

/// The keying of a text that a command brings.
spec fn brought(command: Option<CommandModel>) -> Seq<Step> {
    match command {
        Some(CommandModel::SendText(text)) => keying(message_steps(text, false)),
        _ => seq![],
    }
}

/// What a command brings is left to key.
proof fn lemma_command_left(s: State, command: CommandModel)
    requires
        command != CommandModel::ClearBuffer,
        command != CommandModel::Close,
    ensures
        ({
            let t = handle_command(s, command).0;
            &&& left_to_key(t) == left_to_key(s) + brought(Some(command))
            &&& t.closing == s.closing
        }),
{
    let t = handle_command(s, command).0;
    if let CommandModel::SendText(text) = command {
        lemma_texts_pushed(s.queue, text);
    }
    assert(left_to_key(t) =~= left_to_key(s) + brought(Some(command)));
}

/// What an event completes is no longer left to key.
proof fn lemma_event_left(s: State, event: EventModel)
    requires
        state_ok(s),
        expects(s, event),
        !s.closing,
        !ends_keying(event),
        command_of(event) is None,
    ensures
        left_to_key(s) == keyed_by(s, event) + left_to_key(transition(s, event).0),
        !transition(s, event).0.closing,
{
    if s.phase == Phase::Sending {
        lemma_step_taken(s, event);
    }
    if let Some((t, _)) = resumed(s, event) {
        lemma_next_left(t);
    }
    let t = transition(s, event).0;
    assert(left_to_key(s) =~= keyed_by(s, event) + left_to_key(t));
}

/// What an event brings is left to key, and what it completes is not.
proof fn lemma_transition_left(s: State, event: EventModel)
    requires
        state_ok(s),
        expects(s, event),
        !s.closing,
        !ends_keying(event),
    ensures
        ({
            let t = transition(s, event).0;
            let command = command_of(event);
            &&& left_to_key(s) + brought(command) == keyed_by(s, event) + left_to_key(t)
            &&& !t.closing
        }),
{
    let t = transition(s, event).0;
    match command_of(event) {
        Some(command) => {
            let told = match event {
                EventModel::Received { waited, .. } => rested(s, waited as nat),
                _ => s,
            };
            assert(left_to_key(told) == left_to_key(s));
            lemma_command_left(told, command);
            assert(transition(s, event) == handle_command(told, command));
            assert(left_to_key(t) =~= keyed_by(s, event) + left_to_key(t));
        },
        None => {
            lemma_event_left(s, event);
            assert(left_to_key(s) + brought(None) =~= left_to_key(s));
        },
    }
}

/// Putting what an event brings and completes in its place.
proof fn lemma_regrouped(
    done: Seq<Step>,
    taken: Seq<Step>,
    left: Seq<Step>,
    was_left: Seq<Step>,
    brought: Seq<Step>,
    before: Seq<Step>,
    texts: Seq<Step>,
)
    requires
        done + was_left == before + texts,
        was_left + brought == taken + left,
    ensures
        (done + taken) + left == before + (texts + brought),
{
    assert((done + taken) + left =~= done + (taken + left));
    assert(done + (was_left + brought) =~= (done + was_left) + brought);
    assert((before + texts) + brought =~= before + (texts + brought));
}

proof fn lemma_delivery(config: Config, events: Seq<EventModel>, more: Seq<EventModel>)
    requires
        valid_config(config),
        possible(config, events + more),
        !after(config, events).0.closing,
        keying_goes_on(more),
    ensures
        ({
            let before = keyed(config, events) + left_to_key(after(config, events).0);
            let s = after(config, events + more).0;
            &&& keyed(config, events + more) + left_to_key(s) == before + texts_keying(
                accepted(more),
            )
            &&& !s.closing
        }),
    decreases more.len(),
{
    let all = events + more;
    let before = keyed(config, events) + left_to_key(after(config, events).0);
    if more.len() == 0 {
        assert(all =~= events);
        assert(before + texts_keying(accepted(more)) =~= before);
    } else {
        let earlier = all.drop_last();
        let event = all.last();
        let fewer = more.drop_last();
        assert(earlier =~= events + fewer);
        assert forall|i: int| 0 <= i < fewer.len() implies !ends_keying(#[trigger] fewer[i]) by {
            assert(fewer[i] == more[i]);
        }
        assert(event == more[more.len() - 1]);
        lemma_delivery(config, events, fewer);
        every_state_is_consistent(config, earlier);
        let s = after(config, earlier).0;
        let t = after(config, all).0;
        lemma_transition_left(s, event);
        let texts = texts_keying(accepted(fewer));
        if let Some(CommandModel::SendText(text)) = command_of(event) {
            lemma_texts_pushed(accepted(fewer), text);
        }
        assert(texts + brought(command_of(event)) =~= texts_keying(accepted(more)));
        lemma_regrouped(
            keyed(config, earlier),
            keyed_by(s, event),
            left_to_key(t),
            left_to_key(s),
            brought(command_of(event)),
            before,
            texts,
        );
    }
}

/// From any point on, every text that is accepted is keyed, whole and in the
/// order in which the texts came. Unless a line cannot be switched, or the
/// keyer is told to clear its buffer or to close, what has been keyed, what is
/// left of the message being sent and the queued texts make up what had been
/// keyed and was left at that point and the keying of the texts accepted
/// since, whatever other commands came in and whenever they did.
pub proof fn texts_are_keyed_in_order_from_any_point(
    config: Config,
    events: Seq<EventModel>,
    more: Seq<EventModel>,
)
    requires
        valid_config(config),
        possible(config, events + more),
        !after(config, events).0.closing,
        keying_goes_on(more),
    ensures
        keyed(config, events + more) + left_to_key(after(config, events + more).0) == keyed(
            config,
            events,
        ) + left_to_key(after(config, events).0) + texts_keying(accepted(more)),
{
    lemma_delivery(config, events, more);
}

/// A command to clear the buffer leaves nothing to key.
pub proof fn cleared_buffer_leaves_nothing_to_key(config: Config, events: Seq<EventModel>)
    requires
        valid_config(config),
        possible(config, events),
        events.len() > 0,
        command_of(events.last()) == Some(CommandModel::ClearBuffer),
    ensures
        left_to_key(after(config, events).0) == Seq::<Step>::empty(),
{
    let s = after(config, events).0;
    every_state_is_consistent(config, events.drop_last());
    reveal_with_fuel(keying, 2);
    assert(keying(s.todo) =~= seq![]);
    assert(left_to_key(s) =~= seq![]);
}

/// After a command to clear the buffer, texts are keyed as ever: nothing comes
/// between what had been keyed before it and the texts accepted since.
pub proof fn texts_after_a_clear_are_keyed_in_order(
    config: Config,
    events: Seq<EventModel>,
    more: Seq<EventModel>,
)
    requires
        valid_config(config),
        possible(config, events + more),
        events.len() > 0,
        command_of(events.last()) == Some(CommandModel::ClearBuffer),
        !after(config, events).0.closing,
        keying_goes_on(more),
    ensures
        keyed(config, events + more) + left_to_key(after(config, events + more).0) == keyed(
            config,
            events,
        ) + texts_keying(accepted(more)),
{
    lemma_delivery(config, events, more);
    lemma_possible_before(config, events, more);
    cleared_buffer_leaves_nothing_to_key(config, events);
    assert(keyed(config, events) + Seq::<Step>::empty() =~= keyed(config, events));
}

/// What leads to a possible sequence of events is possible.
proof fn lemma_possible_before(config: Config, events: Seq<EventModel>, more: Seq<EventModel>)
    requires
        possible(config, events + more),
    ensures
        possible(config, events),
    decreases more.len(),
{
    if more.len() == 0 {
        assert(events + more =~= events);
    } else {
        assert((events + more).drop_last() =~= events + more.drop_last());
        lemma_possible_before(config, events, more.drop_last());
    }
}

/// A keyer that waits for commands has keyed what was left at any earlier
/// point and every text that it has accepted since.
pub proof fn idle_keyer_has_keyed_every_text_since(
    config: Config,
    events: Seq<EventModel>,
    more: Seq<EventModel>,
)
    requires
        valid_config(config),
        possible(config, events + more),
        !after(config, events).0.closing,
        keying_goes_on(more),
        after(config, events + more).0.phase == Phase::Idle,
    ensures
        keyed(config, events + more) == keyed(config, events) + left_to_key(
            after(config, events).0,
        ) + texts_keying(accepted(more)),
{
    let all = events + more;
    lemma_delivery(config, events, more);
    every_state_is_consistent(config, all);
    assert(left_to_key(after(config, all).0) =~= seq![]);
    assert(keyed(config, all) + left_to_key(after(config, all).0) =~= keyed(config, all));
}

/// Whether PTT is on, or about to go on, while a message is being sent, or
/// only the look for commands is left of it.
spec fn under_ptt(s: State) -> bool {
    s.todo.len() > 0 ==> s.ptt_on || s.todo[0] == Step::PttOn || s.todo == seq![Step::Poll]
}

proof fn lemma_next_under_ptt(s: State)
    requires
        under_ptt(s),
    ensures
        under_ptt(next_step(s).0),
        s.todo.len() == 0 ==> under_ptt(next_job(s).0),
    decreases s.queue.len(), s.todo.len(),
{
    reveal_with_fuel(next_step, 2);
    reveal_with_fuel(next_job, 2);
    if s.queue.len() > 0 && s.todo.len() == 0 {
        message_begins_with_ptt(s.queue[0], true);
        lemma_next_under_ptt(message_begun(s));
    }
    if s.todo.len() > 0 && takes_nothing(s, s.todo[0]) {
        lemma_next_under_ptt(step_taken(s));
    }
}

proof fn lemma_under_ptt(config: Config, events: Seq<EventModel>)
    requires
        valid_config(config),
        possible(config, events),
    ensures
        under_ptt(after(config, events).0),
    decreases events.len(),
{
    if events.len() > 0 {
        let earlier = events.drop_last();
        lemma_under_ptt(config, earlier);
        every_state_is_consistent(config, earlier);
        if let Some((t, _)) = resumed(after(config, earlier).0, events.last()) {
            lemma_next_under_ptt(t);
        }
    }
}

/// A keyer that reports that it is not busy has keyed, to the end, what was
/// left at any earlier point and every text that it has accepted since, and
/// has key and PTT off.
pub proof fn not_busy_keyer_has_keyed_every_text_since(
    config: Config,
    events: Seq<EventModel>,
    more: Seq<EventModel>,
)
    requires
        valid_config(config),
        possible(config, events + more),
        !after(config, events).0.closing,
        keying_goes_on(more),
        after(config, events + more).1 is Answer,
        !status_of(after(config, events + more).0).busy,
    ensures
        keyed(config, events + more) == keyed(config, events) + left_to_key(
            after(config, events).0,
        ) + texts_keying(accepted(more)),
        after(config, events + more).0.queue.len() == 0,
        !after(config, events + more).0.key_down,
        !after(config, events + more).0.ptt_on,
{
    let all = events + more;
    let s = after(config, all).0;
    lemma_delivery(config, events, more);
    every_state_is_consistent(config, all);
    pending_action_fits_the_phase(config, all);
    lemma_under_ptt(config, all);
    reveal_with_fuel(keying, 2);
    assert(keying(s.todo) =~= seq![]);
    assert(left_to_key(s) =~= seq![]);
    assert(keyed(config, all) + left_to_key(s) =~= keyed(config, all));
}

/// From the start on, what has been keyed and what is left make up the keying
/// of the accepted texts.
pub proof fn accepted_texts_are_keyed_in_order(config: Config, events: Seq<EventModel>)
    requires
        valid_config(config),
        possible(config, events),
        keying_goes_on(events),
    ensures
        keyed(config, events) + left_to_key(after(config, events).0) == texts_keying(
            accepted(events),
        ),
{
    lemma_from_the_start(config, events);
    lemma_delivery(config, seq![], events);
}

/// At the start nothing has been keyed and nothing is left.
proof fn lemma_from_the_start(config: Config, events: Seq<EventModel>)
    ensures
        Seq::<EventModel>::empty() + events == events,
        ({
            let none = Seq::<EventModel>::empty();
            let before = keyed(config, none) + left_to_key(after(config, none).0);
            before + texts_keying(accepted(events)) == texts_keying(accepted(events))
        }),
{
    let none = Seq::<EventModel>::empty();
    assert(none + events =~= events);
    assert(keyed(config, none) + left_to_key(after(config, none).0) =~= seq![]);
    assert(Seq::<Step>::empty() + texts_keying(accepted(events)) =~= texts_keying(
        accepted(events),
    ));
}

/// From the start on, a keyer that waits for commands has keyed every text
/// that it accepted.
pub proof fn idle_keyer_has_keyed_every_text(config: Config, events: Seq<EventModel>)
    requires
        valid_config(config),
        possible(config, events),
        keying_goes_on(events),
        after(config, events).0.phase == Phase::Idle,
    ensures
        keyed(config, events) == texts_keying(accepted(events)),
{
    lemma_from_the_start(config, events);
    idle_keyer_has_keyed_every_text_since(config, seq![], events);
}

/// From the start on, a keyer that reports that it is not busy has keyed every
/// text that it accepted.
pub proof fn not_busy_keyer_has_keyed_every_text(config: Config, events: Seq<EventModel>)
    requires
        valid_config(config),
        possible(config, events),
        keying_goes_on(events),
        after(config, events).1 is Answer,
        !status_of(after(config, events).0).busy,
    ensures
        keyed(config, events) == texts_keying(accepted(events)),
{
    lemma_from_the_start(config, events);
    not_busy_keyer_has_keyed_every_text_since(config, seq![], events);
}

/// Texts written down in Morse, one after the other.
pub open spec fn texts_written(texts: Seq<Seq<char>>) -> Seq<char>
    decreases texts.len(),
{
    if texts.len() == 0 {
        seq![]
    } else {
        written_text(texts[0]) + texts_written(texts.drop_first())
    }
}

/// The keying among steps is written like the steps.
proof fn lemma_keying_script(steps: Seq<Step>)
    ensures
        script(keying(steps)) == script(steps),
    decreases steps.len(),
{
    if steps.len() > 0 {
        let first = seq![steps[0]];
        let rest = steps.drop_first();
        lemma_keying_script(rest);
        assert(steps =~= first + rest);
        script_of_joined(first, rest);
        script_of_joined(first, keying(rest));
        reveal_with_fuel(script, 2);
        if !is_keying(steps[0]) {
            assert(script(first) =~= seq![]);
            assert(script(first) + script(rest) =~= script(rest));
        }
    }
}

proof fn lemma_texts_script(texts: Seq<Seq<char>>)
    ensures
        script(texts_keying(texts)) == texts_written(texts),
    decreases texts.len(),
{
    if texts.len() > 0 {
        let steps = message_steps(texts[0], false);
        lemma_texts_script(texts.drop_first());
        message_is_keyed_as_written(texts[0], false);
        lemma_keying_script(steps);
        script_of_joined(keying(steps), texts_keying(texts.drop_first()));
    }
}

/// From any point on, what is keyed reads as the texts do: what has been keyed
/// and what is left are written like what had been keyed and was left at that
/// point and, in Morse, the texts accepted since.
pub proof fn keying_reads_as_the_texts_from_any_point(
    config: Config,
    events: Seq<EventModel>,
    more: Seq<EventModel>,
)
    requires
        valid_config(config),
        possible(config, events + more),
        !after(config, events).0.closing,
        keying_goes_on(more),
    ensures
        ({
            let before = keyed(config, events) + left_to_key(after(config, events).0);
            let now = keyed(config, events + more) + left_to_key(after(config, events + more).0);
            script(now) == script(before) + texts_written(accepted(more))
        }),
{
    lemma_delivery(config, events, more);
    let before = keyed(config, events) + left_to_key(after(config, events).0);
    script_of_joined(before, texts_keying(accepted(more)));
    lemma_texts_script(accepted(more));
}

/// From the start on, a keyer that waits for commands has keyed what reads, in
/// Morse, as the texts that it accepted, every character of them and in order.
pub proof fn idle_keyer_has_keyed_what_reads_as_the_texts(
    config: Config,
    events: Seq<EventModel>,
)
    requires
        valid_config(config),
        possible(config, events),
        keying_goes_on(events),
        after(config, events).0.phase == Phase::Idle,
    ensures
        script(keyed(config, events)) == texts_written(accepted(events)),
{
    idle_keyer_has_keyed_every_text(config, events);
    lemma_texts_script(accepted(events));
}

/// A line that cannot be switched costs what is left of the message under way
/// and nothing else: the queued texts are still to be keyed.
pub proof fn failure_drops_the_message_under_way_only(s: State, event: EventModel)
    requires
        state_ok(s),
        expects(s, event),
        !s.closing,
        is_failure(event),
    ensures
        ({
            let t = transition(s, event).0;
            left_to_key(t) == (if s.phase == Phase::Sending {
                texts_keying(s.queue)
            } else {
                left_to_key(s)
            })
        }),
        s.phase == Phase::Sending || s.phase == Phase::Releasing ==> is_work(
            transition(s, event).0.phase,
        ),
{
    if let Some((t, _)) = resumed(s, event) {
        lemma_next_left(t);
        lemma_next_phase(t);
    }
    if s.phase == Phase::Sending {
        let dropped = message_dropped(s);
        assert(keying(dropped.todo) =~= seq![]);
        assert(left_to_key(dropped) =~= texts_keying(s.queue));
    }
}

} // verus!
