//! Laws of calls: what holds of what the functions of this library return.
use crate::config::{validate_config, Config, ControlLine};
use crate::duration::nanos_of;
use crate::error::{decimal_value, errors_end_in_what_they_name, Error};
use crate::keyer::{IdleWait, Opening, Reply, SerialKeyer};
use crate::model::{CommandModel, Status};
use crate::morse::{is_white_space, morse, morse_code, token_models, tokenize, Token};
use crate::morse_laws::{
    codes_follow_the_code_tree, node_of, tokens_of_a_word_are_its_codes, tree_node,
};
use crate::plan::{plan_message, Step};
use crate::plan_laws::{
    marks_in, message_is_keyed_as_written, message_keys_every_character, presses_in, script,
    text_marks, written_text,
};
use crate::proxy::{proxy_client, run_server, ProxyAction, ProxyEvent, ServerAction, ServerEvent};
use crate::sleep::{precise_sleep, Wait};
use crate::timing::{
    dit_is_1200_millis_over_wpm, mark_duration, space_duration, space_gives_what_the_dit_takes,
    unit, weighted_mark_is_nearest,
};
use crate::worker::CommandKind;
use std::path::PathBuf;
use std::time::Duration;
use vstd::prelude::*;

verus! {

/// A character is looked up in the code tree, without regard to case.
pub proof fn lookup_follows_the_code_tree(c: char, pattern: Option<&'static str>)
    requires
        call_ensures(morse, (c,), pattern),
    ensures
        ({
            let letter = if 'a' <= c <= 'z' {
                (c as u32 - 32) as char
            } else {
                c
            };
            &&& pattern is Some <==> node_of(letter) != 0
            &&& pattern matches Some(found) ==> tree_node(found@) == node_of(letter)
        }),
{
    codes_follow_the_code_tree(c);
}

/// A word whose characters all have a code has one token for each, in order.
pub proof fn word_has_one_token_for_each_character(word: &str, tokens: Vec<Token>)
    requires
        call_ensures(tokenize, (word,), tokens),
        forall|i: int|
            0 <= i < word@.len() ==> !is_white_space(#[trigger] word@[i]) && morse_code(
                word@[i],
            ) is Some,
    ensures
        tokens@.len() == word@.len(),
        forall|i: int|
            0 <= i < word@.len() ==> (#[trigger] tokens@[i] matches Token::Char(pattern)
                && morse_code(word@[i]) == Some(pattern@)),
{
    tokens_of_a_word_are_its_codes(word@);
    assert(token_models(tokens@).len() == tokens@.len());
    assert forall|i: int| 0 <= i < word@.len() implies (#[trigger] tokens@[i] matches Token::Char(
        pattern,
    ) && morse_code(word@[i]) == Some(pattern@)) by {
        assert(token_models(tokens@)[i] == tokens@[i]@);
        assert(morse_code(word@[i]) is Some);
    }
}

/// A text of any length is planned with the marks of all its characters, one
/// key press for each, and reads as the text does in Morse.
pub proof fn plan_keys_the_whole_text(text: &str, steps: Vec<Step>)
    requires
        call_ensures(plan_message, (text,), steps),
    ensures
        marks_in(steps@) == text_marks(text@),
        presses_in(steps@) == text_marks(text@).len(),
        script(steps@) == written_text(text@),
{
    message_keys_every_character(text@, true);
    message_is_keyed_as_written(text@, true);
}

/// A dit lasts `1200 / wpm` milliseconds, off by at most half a nanosecond.
pub proof fn unit_is_1200_millis_over_wpm(wpm: u8, nanos: u64)
    requires
        wpm > 0,
        call_ensures(unit, (wpm,), nanos),
    ensures
        2 * (nanos * wpm) <= 2_400_000_000 + wpm,
        2_400_000_000 <= 2 * (nanos * wpm) + wpm,
{
    dit_is_1200_millis_over_wpm(wpm);
}

/// A mark lasts `nominal * weighting / 50`, off by at most half a nanosecond.
pub proof fn mark_is_weighted(nominal: u64, weighting: u8, nanos: u64)
    requires
        nominal < 1_000_000_000,
        10 <= weighting <= 90,
        call_ensures(mark_duration, (nominal, weighting), nanos),
    ensures
        50 * nanos <= nominal * weighting + 25,
        nominal * weighting <= 50 * nanos + 25,
{
    weighted_mark_is_nearest(nominal as nat, weighting);
}

/// A space lasts what a dit leaves of one unit more than the nominal space.
pub proof fn space_makes_up_for_the_dit(
    nominal: u64,
    wpm: u8,
    weighting: u8,
    nanos: u64,
    dit: u64,
)
    requires
        nominal < 1_000_000_000,
        5 <= wpm <= 99,
        10 <= weighting <= 90,
        call_ensures(space_duration, (nominal, wpm, weighting), nanos),
        call_ensures(unit, (wpm,), dit),
        50 * (nominal + dit) >= dit * weighting + 25,
    ensures
        50 * (nominal + dit) <= 50 * nanos + dit * weighting + 25,
        50 * nanos + dit * weighting <= 50 * (nominal + dit) + 25,
{
    space_gives_what_the_dit_takes(nominal as nat, wpm, weighting);
}

/// A wait for a deadline is over exactly when none of it is left. A sleep ends
/// a millisecond before the deadline and is only made if more than two
/// milliseconds are left.
pub proof fn waits_end_at_the_deadline(remaining: Duration, wait: Wait)
    requires
        call_ensures(precise_sleep, (remaining,), wait),
    ensures
        wait is Over <==> nanos_of(remaining) == 0,
        wait is Sleep <==> nanos_of(remaining) > 2_000_000,
        wait matches Wait::Sleep(duration) ==> nanos_of(duration) + 1_000_000 == nanos_of(
            remaining,
        ),
{
}

/// A configuration is accepted exactly within its limits.
pub proof fn configurations_are_checked(config: &Config, checked: Result<(), Error>)
    requires
        call_ensures(validate_config, (config,), checked),
    ensures
        checked is Ok <==> {
            &&& config.ptt_line != Some(config.key_line)
            &&& 5 <= config.wpm <= 99
            &&& 10 <= config.weighting <= 90
        },
{
}

/// A keyer is opened exactly with a configuration within its limits, and keeps
/// all of it.
pub proof fn keyers_open_within_the_limits(config: Config, opening: Result<Opening, Error>)
    requires
        call_ensures(SerialKeyer::open_with_config, (config,), opening),
    ensures
        opening is Ok <==> {
            &&& config.ptt_line != Some(config.key_line)
            &&& 5 <= config.wpm <= 99
            &&& 10 <= config.weighting <= 90
        },
        opening matches Ok(opened) ==> {
            &&& opened.config == config
            &&& opened.keyer.timeout_nanos() == 500_000_000
            &&& opened.worker@.wpm == config.wpm
            &&& opened.worker@.weighting == config.weighting
            &&& opened.worker@.key_line == config.key_line
            &&& opened.worker@.ptt_line == config.ptt_line
            &&& opened.worker@.ptt_lead == nanos_of(config.ptt_lead)
            &&& opened.worker@.ptt_tail == nanos_of(config.ptt_tail)
        },
{
}

/// A path alone opens a keyer at 9600 baud on DTR, without a PTT line, at 24
/// words per minute with nominal weighting.
pub proof fn paths_open_default_keyers(path: PathBuf, opening: Result<Opening, Error>)
    requires
        call_ensures(SerialKeyer::open, (path,), opening),
    ensures
        opening matches Ok(opened) && {
            &&& opened.config.path == path
            &&& opened.config.baud_rate == 9600
            &&& opened.config.key_line == ControlLine::Dtr
            &&& opened.config.ptt_line is None
            &&& opened.config.wpm == 24
            &&& opened.config.weighting == 50
        },
{
}

/// The speed that a command sets is the one asked for, and only one from 5 to
/// 99 can be asked for.
pub proof fn speeds_are_passed_on(
    keyer: &SerialKeyer,
    wpm: u8,
    command: Result<CommandKind, Error>,
)
    requires
        call_ensures(SerialKeyer::set_wpm, (keyer, wpm), command),
    ensures
        command is Ok <==> 5 <= wpm <= 99,
        command matches Ok(set) ==> set@ == CommandModel::SetWpm(wpm),
        command matches Err(error) ==> error == Error::InvalidWpm(wpm),
{
}

/// The weighting that a command sets is the one asked for, and only one from
/// 10 to 90 can be asked for.
pub proof fn weightings_are_passed_on(
    keyer: &SerialKeyer,
    weighting: u8,
    command: Result<CommandKind, Error>,
)
    requires
        call_ensures(SerialKeyer::set_weighting, (keyer, weighting), command),
    ensures
        command is Ok <==> 10 <= weighting <= 90,
        command matches Ok(set) ==> set@ == CommandModel::SetWeighting(weighting),
        command matches Err(error) ==> error == Error::InvalidWeighting(weighting),
{
}

/// The text that a command queues is the one given, whole.
pub proof fn texts_are_passed_on(keyer: &SerialKeyer, text: &str, command: CommandKind)
    requires
        call_ensures(SerialKeyer::send_text, (keyer, text), command),
    ensures
        command@ == CommandModel::SendText(text@),
        command matches CommandKind::SendText(queued) && queued@ == text@,
{
}

/// Lead and tail times are passed on, each as what it is.
pub proof fn lead_and_tail_are_passed_on(
    keyer: &SerialKeyer,
    lead: Duration,
    tail: Duration,
    command: CommandKind,
)
    requires
        call_ensures(SerialKeyer::set_ptt_lead_tail, (keyer, lead, tail), command),
    ensures
        command@ == (CommandModel::SetPttLeadTail { lead: nanos_of(lead), tail: nanos_of(tail) }),
{
}

/// Waiting for an idle keyer goes on, after 20 milliseconds, as long as the
/// keyer is busy or late, and ends with success exactly if it is not busy.
pub proof fn waiting_ends_when_the_keyer_is_idle(status: Result<Status, Error>, wait: IdleWait)
    requires
        call_ensures(SerialKeyer::wait_until_idle, (status,), wait),
    ensures
        wait matches IdleWait::Again(delay) ==> nanos_of(delay) == 20_000_000,
        wait is Again <==> {
            ||| status matches Ok(reported) && reported.busy
            ||| status matches Err(error) && error == Error::Timeout
        },
        wait matches IdleWait::Done(result) ==> (result is Ok <==> status is Ok),
        wait matches IdleWait::Done(Err(error)) ==> status == Err::<Status, Error>(error),
{
}

/// A reply is passed on as it is given; without one the worker is gone, or was
/// too slow.
pub proof fn replies_are_passed_on(reply: Reply<Result<(), Error>>, result: Result<(), Error>)
    requires
        call_ensures(SerialKeyer::call_ack, (reply,), result),
    ensures
        reply matches Reply::Given(given) ==> result == given,
        reply is Late ==> result == Err::<(), Error>(Error::Timeout),
        reply is NotTaken || reply is Dropped ==> result == Err::<(), Error>(Error::Closed),
{
}

/// The proxy hands bytes on unchanged, listens again after a write, and ends
/// when the client hangs up or something fails.
pub proof fn proxy_hands_bytes_on(event: ProxyEvent, action: ProxyAction)
    requires
        call_ensures(proxy_client, (event,), action),
    ensures
        event matches ProxyEvent::FromClient(Ok(bytes)) ==> if bytes@.len() > 0 {
            action matches ProxyAction::ToSerial(handed) && handed@ == bytes@
        } else {
            action matches ProxyAction::Finish(Ok(_))
        },
        event matches ProxyEvent::FromSerial(Ok(bytes)) ==> (
        action matches ProxyAction::ToClient(handed) && handed@ == bytes@),
        event matches ProxyEvent::Written(Ok(_)) ==> action is Listen,
        event matches ProxyEvent::FromClient(Err(error)) ==> action == ProxyAction::Finish(
            Err(error),
        ),
        event matches ProxyEvent::FromSerial(Err(error)) ==> action == ProxyAction::Finish(
            Err(error),
        ),
        event matches ProxyEvent::Written(Err(error)) ==> action == ProxyAction::Finish(
            Err(error),
        ),
{
}

/// The server serves every client that it accepts, accepts the next whatever
/// became of the last, and stops only if none can be accepted.
pub proof fn server_stops_only_if_none_can_be_accepted(event: ServerEvent, action: ServerAction)
    requires
        call_ensures(run_server, (event,), action),
    ensures
        action is Stop <==> event matches ServerEvent::Accepted(Err(_)),
        action is Serve <==> event matches ServerEvent::Accepted(Ok(_)),
        action is Accept <==> event is Served,
{
}

/// A described error ends in the value it names or in its cause.
pub proof fn described_errors_name_their_value(error: &Error, cause: &str, text: String)
    requires
        call_ensures(Error::describe, (error, cause), text),
    ensures
        error matches Error::Serial(_) ==> text@ == "serial port error: "@ + cause@,
        error matches Error::Io(_) ==> text@ == "I/O error: "@ + cause@,
        error matches Error::InvalidWpm(wpm) ==> {
            let start = "WPM must be in the range 5..=99, got "@;
            &&& text@.take(start.len() as int) == start
            &&& decimal_value(text@.skip(start.len() as int)) == wpm
        },
        error matches Error::InvalidWeighting(weighting) ==> {
            let start = "weighting must be in the range 10..=90, got "@;
            &&& text@.take(start.len() as int) == start
            &&& decimal_value(text@.skip(start.len() as int)) == weighting
        },
{
    errors_end_in_what_they_name(*error, cause@);
}

} // verus!
