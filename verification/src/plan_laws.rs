//! Laws of the plan: the steps of a message key its text, mark by mark and gap
//! by gap.
use crate::morse::{is_blank, is_white_space, morse_code, token_at, tokens_of, TokenModel};
use crate::morse_laws::{codes_are_dots_and_dashes, white_space_has_no_code};
use crate::plan::{
    mark_units, message_steps, pattern_steps, symbol_steps, symbols_steps, token_steps,
    tokens_steps, Step,
};
use vstd::prelude::*;

verus! {

/// Whether a pattern is made of dots and dashes.
pub open spec fn dots_and_dashes(pattern: Seq<char>) -> bool {
    forall|i: int| 0 <= i < pattern.len() ==> #[trigger] pattern[i] == '.' || pattern[i] == '-'
}

/// Whether the symbol at `i` of a pattern is keyed at its place among steps:
/// key down, a mark of one unit for a dot, of three for a dash and of none for
/// anything else, key up, and the space to the next mark.
pub open spec fn is_keyed_at(steps: Seq<Step>, pattern: Seq<char>, i: int) -> bool {
    &&& steps[4 * i] == Step::KeyDown
    &&& pattern[i] == '.' ==> steps[4 * i + 1] == Step::Mark(1)
    &&& pattern[i] == '-' ==> steps[4 * i + 1] == Step::Mark(3)
    &&& pattern[i] != '.' && pattern[i] != '-' ==> steps[4 * i + 1] == Step::Mark(0)
    &&& steps[4 * i + 2] == Step::KeyUp
    &&& i + 1 < pattern.len() ==> steps[4 * i + 3] == Step::Space
}

/// A character takes four steps for each of its symbols but the last, and
/// three for that. The symbols come in order.
pub proof fn pattern_is_keyed_symbol_by_symbol(pattern: Seq<char>)
    requires
        pattern.len() > 0,
    ensures
        pattern_steps(pattern).len() == 4 * pattern.len() - 1,
        forall|i: int|
            0 <= i < pattern.len() ==> #[trigger] is_keyed_at(pattern_steps(pattern), pattern, i),
{
    lemma_symbols_in_order(pattern, pattern.len());
}

proof fn lemma_symbols_in_order(pattern: Seq<char>, count: nat)
    requires
        count <= pattern.len(),
    ensures
        symbols_steps(pattern, count).len() == 4 * count - (if 0 < count == pattern.len() {
            1int
        } else {
            0
        }),
        forall|i: int|
            0 <= i < count ==> #[trigger] is_keyed_at(symbols_steps(pattern, count), pattern, i),
    decreases count,
{
    if count > 0 {
        let steps = symbols_steps(pattern, count);
        let first = symbols_steps(pattern, (count - 1) as nat);
        let last = symbol_steps(pattern, count - 1);
        lemma_symbols_in_order(pattern, (count - 1) as nat);
        assert forall|i: int| 0 <= i < count implies #[trigger] is_keyed_at(
            steps,
            pattern,
            i,
        ) by {
            if i < count - 1 {
                assert(is_keyed_at(first, pattern, i));
            } else {
                assert(steps[4 * i] == last[0]);
                assert(steps[4 * i + 1] == last[1]);
                assert(steps[4 * i + 2] == last[2]);
                if i + 1 < pattern.len() {
                    assert(steps[4 * i + 3] == last[3]);
                }
            }
        }
    }
}

/// The marks among steps, in units and in order.
pub open spec fn marks_in(steps: Seq<Step>) -> Seq<u8>
    decreases steps.len(),
{
    if steps.len() == 0 {
        seq![]
    } else {
        match steps.last() {
            Step::Mark(units) => marks_in(steps.drop_last()).push(units),
            _ => marks_in(steps.drop_last()),
        }
    }
}

/// How often the key is pressed in steps.
pub open spec fn presses_in(steps: Seq<Step>) -> nat
    decreases steps.len(),
{
    if steps.len() == 0 {
        0
    } else {
        presses_in(steps.drop_last()) + (if steps.last() == Step::KeyDown {
            1nat
        } else {
            0
        })
    }
}

/// The marks of a pattern: one unit for a dot, three for a dash.
pub open spec fn pattern_marks(pattern: Seq<char>) -> Seq<u8> {
    pattern.map_values(
        |symbol: char|
            if symbol == '.' {
                1u8
            } else if symbol == '-' {
                3u8
            } else {
                0u8
            },
    )
}

/// The marks of a text: those of each character that has a code, in order.
pub open spec fn text_marks(text: Seq<char>) -> Seq<u8>
    decreases text.len(),
{
    if text.len() == 0 {
        seq![]
    } else {
        text_marks(text.drop_last()) + code_marks(morse_code(text.last()))
    }
}

proof fn lemma_marks_joined(first: Seq<Step>, second: Seq<Step>)
    ensures
        marks_in(first + second) == marks_in(first) + marks_in(second),
        presses_in(first + second) == presses_in(first) + presses_in(second),
    decreases second.len(),
{
    if second.len() == 0 {
        assert(first + second =~= first);
        assert(marks_in(first) + marks_in(second) =~= marks_in(first));
    } else {
        assert((first + second).drop_last() =~= first + second.drop_last());
        lemma_marks_joined(first, second.drop_last());
        assert(marks_in(first + second) =~= marks_in(first) + marks_in(second));
    }
}

proof fn lemma_symbols_marks(pattern: Seq<char>, count: nat)
    requires
        count <= pattern.len(),
    ensures
        marks_in(symbols_steps(pattern, count)) == pattern_marks(pattern).take(count as int),
        presses_in(symbols_steps(pattern, count)) == count,
    decreases count,
{
    if count == 0 {
        assert(marks_in(symbols_steps(pattern, 0)) =~= pattern_marks(pattern).take(0));
    } else {
        let first = symbols_steps(pattern, (count - 1) as nat);
        let last = symbol_steps(pattern, count - 1);
        lemma_symbols_marks(pattern, (count - 1) as nat);
        lemma_marks_joined(first, last);
        reveal_with_fuel(marks_in, 5);
        reveal_with_fuel(presses_in, 5);
        assert(pattern_marks(pattern).take(count as int) =~= pattern_marks(pattern).take(
            count - 1,
        ).push(pattern_marks(pattern)[count - 1]));
        assert(marks_in(last) =~= seq![pattern_marks(pattern)[count - 1]]);
        assert(marks_in(first + last) =~= pattern_marks(pattern).take(count as int));
    }
}

/// A character is keyed with the marks of its pattern, all of them and in
/// order, with one key press for each.
pub proof fn pattern_keys_its_marks(pattern: Seq<char>)
    ensures
        marks_in(pattern_steps(pattern)) == pattern_marks(pattern),
        presses_in(pattern_steps(pattern)) == pattern.len(),
{
    lemma_symbols_marks(pattern, pattern.len());
    assert(pattern_marks(pattern).take(pattern.len() as int) =~= pattern_marks(pattern));
}

/// The marks of a character: those of its code, if it has one.
pub open spec fn code_marks(code: Option<Seq<char>>) -> Seq<u8> {
    match code {
        Some(pattern) => pattern_marks(pattern),
        None => seq![],
    }
}

proof fn lemma_added_marks(text: Seq<char>, c: char, after_text: bool)
    ensures
        marks_in(character_steps(text, c, after_text)) == code_marks(morse_code(c)),
        presses_in(character_steps(text, c, after_text)) == code_marks(morse_code(c)).len(),
{
    let code = morse_code(c);
    if is_white_space(c) {
        white_space_has_no_code(c);
        reveal_with_fuel(marks_in, 3);
        reveal_with_fuel(presses_in, 3);
        assert(marks_in(character_steps(text, c, after_text)) =~= seq![]);
    } else {
        lemma_gap_has_no_marks(text, after_text);
        lemma_coded_marks(gap_steps(text, after_text), code);
    }
}

proof fn lemma_coded_marks(gap: Seq<Step>, code: Option<Seq<char>>)
    requires
        marks_in(gap) == Seq::<u8>::empty(),
        presses_in(gap) == 0,
    ensures
        ({
            let steps = match code {
                Some(pattern) => gap + pattern_steps(pattern),
                None => seq![],
            };
            marks_in(steps) == code_marks(code) && presses_in(steps) == code_marks(code).len()
        }),
{
    if let Some(pattern) = code {
        pattern_keys_its_marks(pattern);
        lemma_marks_joined(gap, pattern_steps(pattern));
        assert(Seq::<u8>::empty() + pattern_marks(pattern) =~= pattern_marks(pattern));
    }
}

proof fn lemma_gap_has_no_marks(text: Seq<char>, after_text: bool)
    ensures
        marks_in(gap_steps(text, after_text)) == Seq::<u8>::empty(),
        presses_in(gap_steps(text, after_text)) == 0,
{
    reveal_with_fuel(marks_in, 3);
    reveal_with_fuel(presses_in, 3);
}

/// A message is keyed with the marks of every character of its text that has a
/// code, in order and however long the text is, with one key press for each.
pub proof fn message_keys_every_character(text: Seq<char>, after_text: bool)
    ensures
        marks_in(message_steps(text, after_text)) == text_marks(text),
        presses_in(message_steps(text, after_text)) == text_marks(text).len(),
    decreases text.len(),
{
    if text.len() == 0 {
        assert(message_steps(text, after_text) =~= seq![]);
    } else {
        let shorter = text.drop_last();
        let c = text.last();
        let before = message_steps(shorter, after_text);
        let lead = lead_of_character(shorter, c);
        message_keys_every_character(shorter, after_text);
        assert(text =~= shorter.push(c));
        message_grows_by_a_character(shorter, c, after_text);
        lemma_added_marks(shorter, c, after_text);
        lemma_marks_joined(before + lead, character_steps(shorter, c, after_text));
        lemma_marks_joined(before, lead);
        lemma_lead_has_no_marks(shorter, c);
        assert(marks_in(before) + Seq::<u8>::empty() =~= marks_in(before));
    }
}

proof fn lemma_lead_has_no_marks(text: Seq<char>, c: char)
    ensures
        marks_in(lead_of_character(text, c)) == Seq::<u8>::empty(),
        presses_in(lead_of_character(text, c)) == 0,
        script(lead_of_character(text, c)) == Seq::<char>::empty(),
{
    reveal_with_fuel(marks_in, 3);
    reveal_with_fuel(presses_in, 3);
    reveal_with_fuel(script, 3);
}

/// Whether the last thing that a text calls for is a character, and not a gap
/// between words.
pub open spec fn ends_in_a_character(text: Seq<char>) -> bool
    decreases text.len(),
{
    &&& text.len() > 0
    &&& !is_white_space(text.last())
    &&& morse_code(text.last()) is Some || ends_in_a_character(text.drop_last())
}

/// Whether a text calls for no character and no gap between words.
pub open spec fn calls_for_nothing(text: Seq<char>) -> bool
    decreases text.len(),
{
    text.len() == 0 || {
        &&& calls_for_nothing(text.drop_last())
        &&& if is_white_space(text.last()) {
            text.len() == 1 || is_white_space(text[text.len() - 2])
        } else {
            morse_code(text.last()) is None
        }
    }
}

/// What precedes the marks of a character that follows `text`: a look for
/// commands and a gap of three units after another character, none after a
/// gap between words, and at the start what is missing of the gap to an
/// earlier text, if that is seen to.
pub open spec fn gap_steps(text: Seq<char>, after_text: bool) -> Seq<Step> {
    if calls_for_nothing(text) {
        if after_text {
            seq![Step::Poll, Step::Gap]
        } else {
            seq![Step::Poll]
        }
    } else if ends_in_a_character(text) {
        seq![Step::Poll, Step::Rest(3)]
    } else {
        seq![Step::Poll]
    }
}

/// What a character adds to a text: if it has a code, its marks after the gap;
/// if it is the first white space after something else, a look for commands
/// and a gap of seven units.
pub open spec fn character_steps(text: Seq<char>, c: char, after_text: bool) -> Seq<Step> {
    if is_white_space(c) {
        if text.len() > 0 && !is_white_space(text.last()) {
            seq![Step::Poll, Step::Rest(7)]
        } else {
            seq![]
        }
    } else {
        match morse_code(c) {
            Some(pattern) => gap_steps(text, after_text) + pattern_steps(pattern),
            None => seq![],
        }
    }
}

/// What the first character that is no white space brings: PTT and its lead
/// time.
pub open spec fn lead_of_character(text: Seq<char>, c: char) -> Seq<Step> {
    if is_blank(text) && !is_white_space(c) {
        seq![Step::PttOn, Step::Lead]
    } else {
        seq![]
    }
}

/// With a character more, a message takes the same steps and then those that
/// the character adds. The first character that is no white space also brings
/// PTT and its lead time.
pub proof fn message_grows_by_a_character(text: Seq<char>, c: char, after_text: bool)
    ensures
        message_steps(Seq::empty(), after_text) == Seq::<Step>::empty(),
        message_steps(text.push(c), after_text) == message_steps(text, after_text)
            + lead_of_character(text, c) + character_steps(text, c, after_text),
{
    let longer = text.push(c);
    let tokens = tokens_of(text);
    let all = tokens_of(longer);
    assert(message_steps(Seq::empty(), after_text) =~= seq![]);
    assert(longer.drop_last() =~= text);
    assert(longer.last() == c);
    lemma_tokens_told(text);
    let last = token_at(longer, longer.len() - 1);
    assert(all == tokens + last);
    if text.len() > 0 {
        assert(longer[longer.len() - 2] == text.last());
    }
    lemma_more_tokens(tokens, all, tokens.len(), after_text);
    lemma_blank_grows(text, c);
    if is_blank(text) {
        lemma_blank_calls_for_nothing(text);
        assert(message_steps(text, after_text) =~= seq![]);
    }
    if last.len() > 0 {
        assert(all[tokens.len() as int] == last[0]);
        assert(all.len() == tokens.len() + 1);
        assert(token_steps(all, tokens.len() as int, after_text) =~= character_steps(
            text,
            c,
            after_text,
        ));
    } else {
        assert(all =~= tokens);
    }
    assert(message_steps(longer, after_text) =~= message_steps(text, after_text)
        + lead_of_character(text, c) + character_steps(text, c, after_text));
}

proof fn lemma_blank_grows(text: Seq<char>, c: char)
    ensures
        is_blank(text.push(c)) == (is_blank(text) && is_white_space(c)),
{
    let longer = text.push(c);
    if is_blank(longer) {
        assert(is_white_space(longer[longer.len() - 1]));
        assert forall|i: int| 0 <= i < text.len() implies is_white_space(#[trigger] text[i]) by {
            assert(longer[i] == text[i]);
        }
    }
}

proof fn lemma_blank_calls_for_nothing(text: Seq<char>)
    requires
        is_blank(text),
    ensures
        tokens_of(text) == Seq::<TokenModel>::empty(),
    decreases text.len(),
{
    if text.len() > 0 {
        let shorter = text.drop_last();
        assert(text =~= shorter.push(text.last()));
        lemma_blank_grows(shorter, text.last());
        lemma_blank_calls_for_nothing(shorter);
        assert(is_white_space(text[text.len() - 1]));
        if text.len() > 1 {
            assert(is_white_space(text[text.len() - 2]));
        }
        assert(tokens_of(text) =~= seq![]);
    }
}

/// What the tokens of a text say of it.
proof fn lemma_tokens_told(text: Seq<char>)
    ensures
        calls_for_nothing(text) <==> tokens_of(text).len() == 0,
        tokens_of(text).len() > 0 ==> (ends_in_a_character(text) <==> tokens_of(
            text,
        ).last() is Char),
        tokens_of(text).len() == 0 ==> !ends_in_a_character(text),
        text.len() > 0 && is_white_space(text.last()) && tokens_of(text).len() > 0 ==> tokens_of(
            text,
        ).last() is WordGap,
    decreases text.len(),
{
    if text.len() > 0 {
        lemma_tokens_told(text.drop_last());
    }
}

/// The steps of tokens do not depend on what follows.
proof fn lemma_more_tokens(
    tokens: Seq<TokenModel>,
    all: Seq<TokenModel>,
    count: nat,
    after_text: bool,
)
    requires
        count <= tokens.len() <= all.len(),
        forall|i: int| 0 <= i < tokens.len() ==> tokens[i] == all[i],
    ensures
        tokens_steps(tokens, count, after_text) == tokens_steps(all, count, after_text),
    decreases count,
{
    if count > 0 {
        lemma_more_tokens(tokens, all, (count - 1) as nat, after_text);
    }
}

/// Steps as an operator writes them down: a dot or a dash for a mark of one or
/// three units, `~` for the space inside a character, `|` for a gap of three
/// units and a blank for one of seven, and `?` for a mark or a gap of any
/// other length.
pub open spec fn script(steps: Seq<Step>) -> Seq<char>
    decreases steps.len(),
{
    if steps.len() == 0 {
        seq![]
    } else {
        let before = script(steps.drop_last());
        match steps.last() {
            Step::Mark(units) => before.push(
                if units == 1 {
                    '.'
                } else if units == 3 {
                    '-'
                } else {
                    '?'
                },
            ),
            Step::Rest(units) => before.push(
                if units == 3 {
                    '|'
                } else if units == 7 {
                    ' '
                } else {
                    '?'
                },
            ),
            Step::Space => before.push('~'),
            _ => before,
        }
    }
}

/// A pattern written down: its symbols with `~` between any two.
pub open spec fn written(pattern: Seq<char>) -> Seq<char>
    decreases pattern.len(),
{
    if pattern.len() <= 1 {
        pattern
    } else {
        written(pattern.drop_last()) + seq!['~', pattern.last()]
    }
}

/// A text written down in Morse: the code of each character that has one, `|`
/// between two characters of a word, and a blank where white space follows
/// something else.
pub open spec fn written_text(text: Seq<char>) -> Seq<char>
    decreases text.len(),
{
    if text.len() == 0 {
        seq![]
    } else {
        let before = written_text(text.drop_last());
        let c = text.last();
        if is_white_space(c) {
            if text.len() > 1 && !is_white_space(text[text.len() - 2]) {
                before.push(' ')
            } else {
                before
            }
        } else {
            before + written_code(before, morse_code(c))
        }
    }
}

/// Scripts of steps that follow each other follow each other.
pub proof fn script_of_joined(first: Seq<Step>, second: Seq<Step>)
    ensures
        script(first + second) == script(first) + script(second),
    decreases second.len(),
{
    if second.len() == 0 {
        assert(first + second =~= first);
        assert(script(first) + script(second) =~= script(first));
    } else {
        assert((first + second).drop_last() =~= first + second.drop_last());
        script_of_joined(first, second.drop_last());
        assert(script(first + second) =~= script(first) + script(second));
    }
}

proof fn lemma_symbol_script(pattern: Seq<char>, i: int)
    requires
        0 <= i < pattern.len(),
        dots_and_dashes(pattern),
    ensures
        script(symbol_steps(pattern, i)) == (if i + 1 < pattern.len() {
            seq![pattern[i], '~']
        } else {
            seq![pattern[i]]
        }),
{
    let mark = seq![Step::KeyDown, Step::Mark(mark_units(pattern[i])), Step::KeyUp];
    assert(pattern[i] == '.' || pattern[i] == '-');
    assert(script(mark) =~= seq![pattern[i]]) by {
        reveal_with_fuel(script, 4);
        assert(mark.drop_last() =~= seq![Step::KeyDown, Step::Mark(mark_units(pattern[i]))]);
        assert(mark.drop_last().drop_last() =~= seq![Step::KeyDown]);
    }
    assert(symbol_steps(pattern, i).drop_last() =~= mark || symbol_steps(pattern, i) == mark);
}

proof fn lemma_symbols_written(pattern: Seq<char>, count: nat)
    requires
        count <= pattern.len(),
        dots_and_dashes(pattern),
    ensures
        script(symbols_steps(pattern, count)) == (if 0 < count < pattern.len() {
            written(pattern.take(count as int)).push('~')
        } else {
            written(pattern.take(count as int))
        }),
    decreases count,
{
    let taken = pattern.take(count as int);
    if count == 0 {
        assert(written(taken) =~= seq![]);
    } else {
        let first = symbols_steps(pattern, (count - 1) as nat);
        let last = symbol_steps(pattern, count - 1);
        lemma_symbols_written(pattern, (count - 1) as nat);
        script_of_joined(first, last);
        lemma_symbol_script(pattern, count - 1);
        let symbol = pattern[count - 1];
        assert(taken.drop_last() =~= pattern.take(count - 1));
        if count == 1 {
            assert(taken =~= seq![symbol]);
            assert(script(first) =~= seq![]);
        }
        assert(script(first + last) =~= (if count < pattern.len() {
            written(taken).push('~')
        } else {
            written(taken)
        }));
    }
}

/// A character is keyed as its pattern is written.
pub proof fn pattern_is_keyed_as_written(pattern: Seq<char>)
    requires
        dots_and_dashes(pattern),
    ensures
        script(pattern_steps(pattern)) == written(pattern),
{
    lemma_symbols_written(pattern, pattern.len());
    assert(pattern.take(pattern.len() as int) =~= pattern);
}

/// What a character with code `code` adds to what is written.
pub open spec fn written_code(before: Seq<char>, code: Option<Seq<char>>) -> Seq<char> {
    match code {
        Some(pattern) => if before.len() == 0 || before.last() == ' ' {
            written(pattern)
        } else {
            seq!['|'] + written(pattern)
        },
        None => seq![],
    }
}

proof fn lemma_coded_script(gap: Seq<Step>, before: Seq<char>, code: Option<Seq<char>>)
    requires
        code matches Some(pattern) ==> dots_and_dashes(pattern),
        script(gap) == (if before.len() == 0 || before.last() == ' ' {
            Seq::<char>::empty()
        } else {
            seq!['|']
        }),
    ensures
        script(
            match code {
                Some(pattern) => gap + pattern_steps(pattern),
                None => seq![],
            },
        ) == written_code(before, code),
{
    if let Some(pattern) = code {
        pattern_is_keyed_as_written(pattern);
        script_of_joined(gap, pattern_steps(pattern));
        assert(script(gap) + written(pattern) =~= written_code(before, code));
    }
}

proof fn lemma_gap_script(text: Seq<char>, after_text: bool)
    ensures
        script(gap_steps(text, after_text)) == (if written_text(text).len() == 0 || written_text(
            text,
        ).last() == ' ' {
            Seq::<char>::empty()
        } else {
            seq!['|']
        }),
{
    lemma_written_told(text);
    reveal_with_fuel(script, 3);
    assert(script(seq![Step::Poll, Step::Rest(3)]) =~= seq!['|']);
}

proof fn lemma_added_script(text: Seq<char>, c: char, after_text: bool)
    ensures
        script(character_steps(text, c, after_text)) == (if is_white_space(c) {
            if text.len() > 0 && !is_white_space(text.last()) {
                seq![' ']
            } else {
                Seq::<char>::empty()
            }
        } else {
            written_code(written_text(text), morse_code(c))
        }),
{
    if is_white_space(c) {
        reveal_with_fuel(script, 3);
        assert(script(seq![Step::Poll, Step::Rest(7)]) =~= seq![' ']);
    } else {
        codes_are_dots_and_dashes(c);
        lemma_gap_script(text, after_text);
        lemma_coded_script(gap_steps(text, after_text), written_text(text), morse_code(c));
    }
}

/// A message is keyed as its text is written in Morse, whatever its length and
/// whatever was sent before.
pub proof fn message_is_keyed_as_written(text: Seq<char>, after_text: bool)
    ensures
        script(message_steps(text, after_text)) == written_text(text),
    decreases text.len(),
{
    if text.len() == 0 {
        assert(message_steps(text, after_text) =~= seq![]);
    } else {
        let shorter = text.drop_last();
        let c = text.last();
        let before = message_steps(shorter, after_text);
        let lead = lead_of_character(shorter, c);
        message_is_keyed_as_written(shorter, after_text);
        assert(text =~= shorter.push(c));
        message_grows_by_a_character(shorter, c, after_text);
        lemma_added_script(shorter, c, after_text);
        script_of_joined(before + lead, character_steps(shorter, c, after_text));
        script_of_joined(before, lead);
        lemma_lead_has_no_marks(shorter, c);
        if shorter.len() > 0 {
            assert(text[text.len() - 2] == shorter.last());
        }
        assert(script(before + lead + character_steps(shorter, c, after_text)) =~= written_text(
            text,
        ));
    }
}

/// How what is written of a text ends.
proof fn lemma_written_told(text: Seq<char>)
    ensures
        calls_for_nothing(text) <==> written_text(text).len() == 0,
        written_text(text).len() > 0 ==> (ends_in_a_character(text) <==> written_text(text).last()
            != ' '),
        written_text(text).len() == 0 ==> !ends_in_a_character(text),
    decreases text.len(),
{
    if text.len() > 0 {
        let shorter = text.drop_last();
        lemma_written_told(shorter);
        if let Some(pattern) = morse_code(text.last()) {
            codes_are_dots_and_dashes(text.last());
            lemma_written_pattern(pattern);
        }
    }
}

proof fn lemma_written_pattern(pattern: Seq<char>)
    requires
        pattern.len() > 0,
    ensures
        written(pattern).len() > 0,
        written(pattern).last() == pattern.last(),
{
}

} // verus!
