//! What sending a text takes, step by step.
//!
//! The steps of a message are fixed by its text. How long they last is not:
//! a step that waits takes its length from the settings at the time.
use crate::morse::{blank, is_blank, token_models, tokenize, tokens_of, Token, TokenModel};
use vstd::prelude::*;

verus! {

/// The gap between two characters, in units.
pub const CHAR_GAP_UNITS: u8 = 3;

/// The gap between two words, in units.
pub const WORD_GAP_UNITS: u8 = 7;

/// One step of sending a message.
#[derive(Debug, Clone, Copy, PartialEq, Eq, Structural)]
pub enum Step {
    /// Switch the PTT line on.
    PttOn,
    /// Wait for the PTT lead time.
    Lead,
    /// Handle the commands that have come in.
    Poll,
    /// Wait for what is missing of the gap to the character keyed before.
    Gap,
    /// Wait for so many units.
    Rest(u8),
    /// Switch the key line on.
    KeyDown,
    /// Hold a mark that nominally lasts so many units.
    Mark(u8),
    /// Switch the key line off.
    KeyUp,
    /// Wait between two marks of a character.
    Space,
}

/// The nominal length of a mark, in units.
pub open spec fn mark_units(symbol: char) -> u8 {
    if symbol == '.' {
        1
    } else if symbol == '-' {
        3
    } else {
        0
    }
}

/// The mark at `i` of a pattern, and the space before the next mark.
pub open spec fn symbol_steps(pattern: Seq<char>, i: int) -> Seq<Step> {
    let mark = seq![Step::KeyDown, Step::Mark(mark_units(pattern[i])), Step::KeyUp];
    if i + 1 < pattern.len() {
        mark + seq![Step::Space]
    } else {
        mark
    }
}

/// The first `count` marks of a pattern, with the spaces after them.
pub open spec fn symbols_steps(pattern: Seq<char>, count: nat) -> Seq<Step>
    decreases count,
{
    if count == 0 {
        seq![]
    } else {
        symbols_steps(pattern, (count - 1) as nat) + symbol_steps(pattern, count - 1)
    }
}

/// A character: its marks with a space between any two.
pub open spec fn pattern_steps(pattern: Seq<char>) -> Seq<Step> {
    symbols_steps(pattern, pattern.len())
}

/// The gap before a character at `i`: three units after another character,
/// and none after a word gap. At the start of a text, `after_text` says
/// whether the gap to a text that was sent before is seen to.
pub open spec fn gap_step(tokens: Seq<TokenModel>, i: int, after_text: bool) -> Option<Step> {
    if i > 0 {
        if tokens[i - 1] is Char {
            Some(Step::Rest(CHAR_GAP_UNITS))
        } else {
            None
        }
    } else if after_text {
        Some(Step::Gap)
    } else {
        None
    }
}

/// The token at `i`: pending commands first, then a word gap, or a character
/// with the gap before it.
pub open spec fn token_steps(tokens: Seq<TokenModel>, i: int, after_text: bool) -> Seq<Step> {
    match tokens[i] {
        TokenModel::WordGap => seq![Step::Poll, Step::Rest(WORD_GAP_UNITS)],
        TokenModel::Char(pattern) => match gap_step(tokens, i, after_text) {
            Some(gap) => seq![Step::Poll, gap] + pattern_steps(pattern),
            None => seq![Step::Poll] + pattern_steps(pattern),
        },
    }
}

/// The first `count` tokens.
pub open spec fn tokens_steps(tokens: Seq<TokenModel>, count: nat, after_text: bool) -> Seq<Step>
    decreases count,
{
    if count == 0 {
        seq![]
    } else {
        tokens_steps(tokens, (count - 1) as nat, after_text) + token_steps(
            tokens,
            count - 1,
            after_text,
        )
    }
}

/// What precedes the first token of a text: PTT, unless the text is blank.
pub open spec fn lead_steps(text: Seq<char>) -> Seq<Step> {
    if is_blank(text) {
        seq![]
    } else {
        seq![Step::PttOn, Step::Lead]
    }
}

/// A message: PTT and its lead time, then the tokens of the text. `after_text`
/// says whether the gap to a text that was sent before is seen to.
pub open spec fn message_steps(text: Seq<char>, after_text: bool) -> Seq<Step> {
    lead_steps(text) + tokens_steps(tokens_of(text), tokens_of(text).len(), after_text)
}

/// Adds the steps of a character to `steps`.
pub fn plan_pattern(steps: &mut Vec<Step>, pattern: &str)
    ensures
        final(steps)@ == old(steps)@ + pattern_steps(pattern@),
{
    let mut symbols: Vec<char> = Vec::new();
    for symbol in chars: pattern.chars()
        invariant
            chars.seq() == pattern@,
            symbols@ == pattern@.take(chars.index() as int),
    {
        symbols.push(symbol);
        assert(symbols@ =~= pattern@.take(chars.index() + 1));
    }
    assert(symbols@ =~= pattern@);
    let count: usize = symbols.len();
    let mut idx: usize = 0;
    assert(steps@ =~= old(steps)@ + symbols_steps(pattern@, 0));
    while idx < count
        invariant
            symbols@ == pattern@,
            count == symbols.len(),
            idx <= count,
            steps@ == old(steps)@ + symbols_steps(pattern@, idx as nat),
        decreases count - idx,
    {
        let units: u8 = match symbols[idx] {
            '.' => 1,
            '-' => 3,
            _ => 0,
        };
        steps.push(Step::KeyDown);
        steps.push(Step::Mark(units));
        steps.push(Step::KeyUp);
        if idx + 1 < count {
            steps.push(Step::Space);
        }
        idx = idx + 1;
        assert(steps@ =~= old(steps)@ + symbols_steps(pattern@, idx as nat));
    }
}

/// The steps of sending `text`.
pub fn plan_message(text: &str) -> (steps: Vec<Step>)
    ensures
        steps@ == message_steps(text@, true),
{
    let mut steps: Vec<Step> = Vec::new();
    if !blank(text) {
        steps.push(Step::PttOn);
        steps.push(Step::Lead);
    }
    let tokens: Vec<Token> = tokenize(text);
    let ghost models = token_models(tokens@);
    let count: usize = tokens.len();
    let mut char_gap: Option<Step> = Some(Step::Gap);
    let mut next: usize = 0;
    assert(steps@ =~= lead_steps(text@) + tokens_steps(models, 0, true));
    while next < count
        invariant
            models == token_models(tokens@),
            count == tokens.len(),
            next <= count,
            char_gap == gap_step(models, next as int, true),
            steps@ == lead_steps(text@) + tokens_steps(models, next as nat, true),
        decreases count - next,
    {
        let ghost before = steps@;
        steps.push(Step::Poll);
        match tokens[next] {
            Token::WordGap => {
                steps.push(Step::Rest(WORD_GAP_UNITS));
                char_gap = None;
            },
            Token::Char(pattern) => {
                if let Some(gap) = char_gap {
                    steps.push(gap);
                }
                plan_pattern(&mut steps, pattern);
                char_gap = Some(Step::Rest(CHAR_GAP_UNITS));
            },
        }
        assert(steps@ =~= before + token_steps(models, next as int, true));
        next = next + 1;
        assert(steps@ =~= lead_steps(text@) + tokens_steps(models, next as nat, true));
    }
    steps
}

/// Whether no mark among the steps is longer than a dash.
pub open spec fn marks_ok(steps: Seq<Step>) -> bool {
    forall|i: int| 0 <= i < steps.len() ==> mark_ok(#[trigger] steps[i])
}

pub open spec fn mark_ok(step: Step) -> bool {
    step matches Step::Mark(units) ==> units <= 3
}

/// No mark of a message is longer than a dash.
pub proof fn marks_are_at_most_dashes(text: Seq<char>, after_text: bool)
    ensures
        marks_ok(message_steps(text, after_text)),
{
    let tokens = tokens_of(text);
    lemma_tokens_marks(tokens, tokens.len(), after_text);
}

proof fn lemma_tokens_marks(tokens: Seq<TokenModel>, count: nat, after_text: bool)
    ensures
        marks_ok(tokens_steps(tokens, count, after_text)),
    decreases count,
{
    if count > 0 {
        lemma_tokens_marks(tokens, (count - 1) as nat, after_text);
        if let TokenModel::Char(pattern) = tokens[count - 1] {
            lemma_symbols_marks(pattern, pattern.len());
        }
    }
}

proof fn lemma_symbols_marks(pattern: Seq<char>, count: nat)
    ensures
        marks_ok(symbols_steps(pattern, count)),
    decreases count,
{
    if count > 0 {
        lemma_symbols_marks(pattern, (count - 1) as nat);
    }
}

/// Between two characters the key is up for three units, and for seven if a
/// word gap stands between them.
pub proof fn gaps_between_characters(
    tokens: Seq<TokenModel>,
    i: int,
    pattern: Seq<char>,
    after_text: bool,
)
    requires
        0 < i < tokens.len(),
        tokens[i] == TokenModel::Char(pattern),
    ensures
        tokens[i - 1] is Char ==> token_steps(tokens, i, after_text) == seq![
            Step::Poll,
            Step::Rest(3),
        ] + pattern_steps(pattern),
        tokens[i - 1] is WordGap ==> token_steps(tokens, i - 1, after_text) + token_steps(
            tokens,
            i,
            after_text,
        ) == seq![Step::Poll, Step::Rest(7), Step::Poll] + pattern_steps(pattern),
        pattern.len() > 0 ==> {
            &&& pattern_steps(pattern).len() > 0
            &&& pattern_steps(pattern)[0] == Step::KeyDown
            &&& pattern_steps(pattern).last() == Step::KeyUp
        },
{
    if tokens[i - 1] is WordGap {
        assert(token_steps(tokens, i - 1, after_text) + token_steps(tokens, i, after_text) =~= seq![
            Step::Poll,
            Step::Rest(7),
            Step::Poll,
        ] + pattern_steps(pattern));
    }
    if pattern.len() > 0 {
        lemma_symbols_start(pattern, pattern.len());
    }
}

proof fn lemma_symbols_start(pattern: Seq<char>, count: nat)
    requires
        0 < count <= pattern.len(),
    ensures
        symbols_steps(pattern, count).len() > 0,
        symbols_steps(pattern, count)[0] == Step::KeyDown,
    decreases count,
{
    if count > 1 {
        lemma_symbols_start(pattern, (count - 1) as nat);
    } else {
        assert(symbols_steps(pattern, 0) =~= seq![]);
    }
}

/// The gap to a text that was sent before stands right before the first mark,
/// and nothing else depends on it.
pub proof fn only_the_first_gap_is_made_up(text: Seq<char>)
    ensures
        ({
            let tokens = tokens_of(text);
            let with = message_steps(text, true);
            let without = message_steps(text, false);
            let start = lead_steps(text) + seq![Step::Poll];
            if tokens.len() > 0 && tokens[0] is Char {
                let rest = without.skip(start.len() as int);
                &&& without == start + rest
                &&& with == start + seq![Step::Gap] + rest
            } else {
                with == without
            }
        }),
{
    let tokens = tokens_of(text);
    lemma_first_gap(tokens, tokens.len());
    if tokens.len() > 0 && tokens[0] is Char {
        let later = tokens_steps(tokens, tokens.len(), false);
        let start = lead_steps(text) + seq![Step::Poll];
        let without = message_steps(text, false);
        assert(without.skip(start.len() as int) =~= later.drop_first());
        assert(without =~= start + later.drop_first());
        assert(message_steps(text, true) =~= start + seq![Step::Gap] + later.drop_first());
    }
}

proof fn lemma_first_gap(tokens: Seq<TokenModel>, count: nat)
    requires
        count <= tokens.len(),
    ensures
        ({
            let with = tokens_steps(tokens, count, true);
            let without = tokens_steps(tokens, count, false);
            if count > 0 && tokens[0] is Char {
                &&& without.len() > 0
                &&& without[0] == Step::Poll
                &&& with == seq![Step::Poll, Step::Gap] + without.drop_first()
            } else {
                with == without
            }
        }),
    decreases count,
{
    if count > 0 {
        lemma_first_gap(tokens, (count - 1) as nat);
        let with = tokens_steps(tokens, count, true);
        let without = tokens_steps(tokens, count, false);
        if count == 1 {
            assert(with =~= token_steps(tokens, 0, true));
            assert(without =~= token_steps(tokens, 0, false));
        }
        if tokens[0] is Char {
            assert(with =~= seq![Step::Poll, Step::Gap] + without.drop_first());
        }
    }
}

} // verus!
