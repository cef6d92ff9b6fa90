//! Text to Morse: the code table and the split of a text into characters and
//! word gaps.
use vstd::prelude::*;

verus! {

/// A letter without regard to case: `a` to `z` become `A` to `Z`.
pub open spec fn ascii_upper(c: char) -> char {
    if 'a' <= c <= 'z' {
        (c as u32 - 32) as char
    } else {
        c
    }
}

/// The characters with Unicode's `White_Space` property.
pub open spec fn is_white_space(c: char) -> bool {
    ||| '\u{9}' <= c <= '\u{d}'
    ||| c == ' '
    ||| c == '\u{85}'
    ||| c == '\u{a0}'
    ||| c == '\u{1680}'
    ||| '\u{2000}' <= c <= '\u{200a}'
    ||| c == '\u{2028}'
    ||| c == '\u{2029}'
    ||| c == '\u{202f}'
    ||| c == '\u{205f}'
    ||| c == '\u{3000}'
}

/// The dots and dashes of an upper case letter, a digit or a sign.
pub open spec fn code_table(c: char) -> Option<Seq<char>> {
    match c {
        'A' => Some(".-"@),
        'B' => Some("-..."@),
        'C' => Some("-.-."@),
        'D' => Some("-.."@),
        'E' => Some("."@),
        'F' => Some("..-."@),
        'G' => Some("--."@),
        'H' => Some("...."@),
        'I' => Some(".."@),
        'J' => Some(".---"@),
        'K' => Some("-.-"@),
        'L' => Some(".-.."@),
        'M' => Some("--"@),
        'N' => Some("-."@),
        'O' => Some("---"@),
        'P' => Some(".--."@),
        'Q' => Some("--.-"@),
        'R' => Some(".-."@),
        'S' => Some("..."@),
        'T' => Some("-"@),
        'U' => Some("..-"@),
        'V' => Some("...-"@),
        'W' => Some(".--"@),
        'X' => Some("-..-"@),
        'Y' => Some("-.--"@),
        'Z' => Some("--.."@),
        '0' => Some("-----"@),
        '1' => Some(".----"@),
        '2' => Some("..---"@),
        '3' => Some("...--"@),
        '4' => Some("....-"@),
        '5' => Some("....."@),
        '6' => Some("-...."@),
        '7' => Some("--..."@),
        '8' => Some("---.."@),
        '9' => Some("----."@),
        '.' => Some(".-.-.-"@),
        ',' => Some("--..--"@),
        '?' => Some("..--.."@),
        '\'' => Some(".----."@),
        '!' => Some("-.-.--"@),
        '/' => Some("-..-."@),
        '(' => Some("-.--."@),
        ')' => Some("-.--.-"@),
        '&' => Some(".-..."@),
        ':' => Some("---..."@),
        ';' => Some("-.-.-."@),
        '=' => Some("-...-"@),
        '+' => Some(".-.-."@),
        '-' => Some("-....-"@),
        '_' => Some("..--.-"@),
        '"' => Some(".-..-."@),
        '$' => Some("...-..-"@),
        '@' => Some(".--.-."@),
        _ => None,
    }
}

/// The dots and dashes of a character, or `None` if it cannot be sent.
pub open spec fn morse_code(c: char) -> Option<Seq<char>> {
    code_table(ascii_upper(c))
}

fn to_upper(c: char) -> (upper: char)
    ensures
        upper == ascii_upper(c),
{
    if 'a' <= c && c <= 'z' {
        (c as u8 - 32) as char
    } else {
        c
    }
}

fn white_space(c: char) -> (white: bool)
    ensures
        white == is_white_space(c),
{
    ('\u{9}' <= c && c <= '\u{d}') || c == ' ' || c == '\u{85}' || c == '\u{a0}' || c == '\u{1680}'
        || ('\u{2000}' <= c && c <= '\u{200a}') || c == '\u{2028}' || c == '\u{2029}'
        || c == '\u{202f}' || c == '\u{205f}' || c == '\u{3000}'
}

/// Looks a character up in the code table, without regard to case.
pub fn morse(ch: char) -> (pattern: Option<&'static str>)
    ensures
        match pattern {
            Some(p) => morse_code(ch) == Some(p@),
            None => morse_code(ch) is None,
        },
{
    match to_upper(ch) {
        'A' => Some(".-"),
        'B' => Some("-..."),
        'C' => Some("-.-."),
        'D' => Some("-.."),
        'E' => Some("."),
        'F' => Some("..-."),
        'G' => Some("--."),
        'H' => Some("...."),
        'I' => Some(".."),
        'J' => Some(".---"),
        'K' => Some("-.-"),
        'L' => Some(".-.."),
        'M' => Some("--"),
        'N' => Some("-."),
        'O' => Some("---"),
        'P' => Some(".--."),
        'Q' => Some("--.-"),
        'R' => Some(".-."),
        'S' => Some("..."),
        'T' => Some("-"),
        'U' => Some("..-"),
        'V' => Some("...-"),
        'W' => Some(".--"),
        'X' => Some("-..-"),
        'Y' => Some("-.--"),
        'Z' => Some("--.."),
        '0' => Some("-----"),
        '1' => Some(".----"),
        '2' => Some("..---"),
        '3' => Some("...--"),
        '4' => Some("....-"),
        '5' => Some("....."),
        '6' => Some("-...."),
        '7' => Some("--..."),
        '8' => Some("---.."),
        '9' => Some("----."),
        '.' => Some(".-.-.-"),
        ',' => Some("--..--"),
        '?' => Some("..--.."),
        '\'' => Some(".----."),
        '!' => Some("-.-.--"),
        '/' => Some("-..-."),
        '(' => Some("-.--."),
        ')' => Some("-.--.-"),
        '&' => Some(".-..."),
        ':' => Some("---..."),
        ';' => Some("-.-.-."),
        '=' => Some("-...-"),
        '+' => Some(".-.-."),
        '-' => Some("-....-"),
        '_' => Some("..--.-"),
        '"' => Some(".-..-."),
        '$' => Some("...-..-"),
        '@' => Some(".--.-."),
        _ => None,
    }
}

/// One element of a text as it is sent.
#[derive(Clone, Copy)]
pub enum Token {
    /// A character, as its dots and dashes.
    Char(&'static str),
    /// The gap between two words.
    WordGap,
}

/// A [`Token`] with its dots and dashes as a sequence.
pub enum TokenModel {
    Char(Seq<char>),
    WordGap,
}

impl View for Token {
    type V = TokenModel;

    open spec fn view(&self) -> TokenModel {
        match self {
            Token::Char(pattern) => TokenModel::Char(pattern@),
            Token::WordGap => TokenModel::WordGap,
        }
    }
}

/// What the character at `i` adds to the tokens of `text`: white space right
/// after something else adds a word gap, other white space adds nothing; any
/// other character adds its code, if it has one.
pub open spec fn token_at(text: Seq<char>, i: int) -> Seq<TokenModel> {
    if is_white_space(text[i]) {
        if i > 0 && !is_white_space(text[i - 1]) {
            seq![TokenModel::WordGap]
        } else {
            seq![]
        }
    } else {
        match morse_code(text[i]) {
            Some(pattern) => seq![TokenModel::Char(pattern)],
            None => seq![],
        }
    }
}

/// The tokens of a text: what each of its characters adds, in order.
pub open spec fn tokens_of(text: Seq<char>) -> Seq<TokenModel>
    decreases text.len(),
{
    if text.len() == 0 {
        seq![]
    } else {
        tokens_of(text.drop_last()) + token_at(text, text.len() - 1)
    }
}

/// Whether a text holds nothing but white space.
pub open spec fn is_blank(text: Seq<char>) -> bool {
    forall|i: int| 0 <= i < text.len() ==> is_white_space(#[trigger] text[i])
}

pub open spec fn token_models(tokens: Seq<Token>) -> Seq<TokenModel> {
    tokens.map_values(|token: Token| token@)
}

/// Splits a text into characters that can be sent and gaps between words.
pub fn tokenize(text: &str) -> (tokens: Vec<Token>)
    ensures
        token_models(tokens@) == tokens_of(text@),
{
    let mut tokens: Vec<Token> = Vec::new();
    let mut last_was_space: bool = true;
    for ch in chars: text.chars()
        invariant
            chars.seq() == text@,
            token_models(tokens@) == tokens_of(text@.take(chars.index() as int)),
            last_was_space == (chars.index() == 0 || is_white_space(text@[chars.index() - 1])),
    {
        let ghost i = chars.index() as int;
        let ghost before = tokens@;
        assert(text@.take(i + 1).drop_last() =~= text@.take(i));
        if white_space(ch) {
            if !last_was_space {
                tokens.push(Token::WordGap);
            }
            last_was_space = true;
        } else {
            last_was_space = false;
            if let Some(pattern) = morse(ch) {
                tokens.push(Token::Char(pattern));
            }
        }
        assert(token_models(tokens@) =~= token_models(before) + token_at(text@.take(i + 1), i));
    }
    assert(text@.take(text@.len() as int) =~= text@);
    tokens
}

/// Whether trimming a text leaves nothing.
pub fn blank(text: &str) -> (blank: bool)
    ensures
        blank == is_blank(text@),
{
    for ch in chars: text.chars()
        invariant
            chars.seq() == text@,
            forall|i: int| 0 <= i < chars.index() ==> is_white_space(#[trigger] text@[i]),
    {
        if !white_space(ch) {
            assert(!is_white_space(text@[chars.index() as int]));
            return false;
        }
    }
    true
}

} // verus!
