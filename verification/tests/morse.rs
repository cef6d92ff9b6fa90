use cw_serial_keyer::plan::{plan_message, plan_pattern, Step};
use cw_serial_keyer::{morse, tokenize, Token};

fn codes(text: &str) -> Vec<Option<&'static str>> {
    let mut codes = Vec::new();
    for token in tokenize(text) {
        codes.push(match token {
            Token::Char(pattern) => Some(pattern),
            Token::WordGap => None,
        });
    }
    codes
}

#[test]
fn maps_common_morse() {
    assert_eq!(morse('s'), Some("..."));
    assert_eq!(morse('O'), Some("---"));
    assert_eq!(morse('?'), Some("..--.."));
}

#[test]
fn tokenizes_single_word_gap() {
    let tokens: Vec<Token> = tokenize("A  B");
    assert_eq!(tokens.len(), 3);
    assert!(matches!(tokens[1], Token::WordGap));
}

#[test]
fn maps_letters_digits_and_signs() {
    let table = [
        ('A', ".-"), ('B', "-..."), ('C', "-.-."), ('D', "-.."), ('E', "."), ('F', "..-."),
        ('G', "--."), ('H', "...."), ('I', ".."), ('J', ".---"), ('K', "-.-"), ('L', ".-.."),
        ('M', "--"), ('N', "-."), ('O', "---"), ('P', ".--."), ('Q', "--.-"), ('R', ".-."),
        ('S', "..."), ('T', "-"), ('U', "..-"), ('V', "...-"), ('W', ".--"), ('X', "-..-"),
        ('Y', "-.--"), ('Z', "--.."), ('0', "-----"), ('1', ".----"), ('2', "..---"),
        ('3', "...--"), ('4', "....-"), ('5', "....."), ('6', "-...."), ('7', "--..."),
        ('8', "---.."), ('9', "----."), ('.', ".-.-.-"), (',', "--..--"), ('?', "..--.."),
        ('\'', ".----."), ('!', "-.-.--"), ('/', "-..-."), ('(', "-.--."), (')', "-.--.-"),
        ('&', ".-..."), (':', "---..."), (';', "-.-.-."), ('=', "-...-"), ('+', ".-.-."),
        ('-', "-....-"), ('_', "..--.-"), ('"', ".-..-."), ('$', "...-..-"), ('@', ".--.-."),
    ];
    for (c, code) in table {
        assert_eq!(morse(c), Some(code));
        assert_eq!(morse(c.to_ascii_lowercase()), Some(code));
    }
    let mut count = 0;
    for n in 0..=0x10ffff_u32 {
        if let Some(c) = char::from_u32(n) {
            if morse(c).is_some() {
                count += 1;
            }
        }
    }
    assert_eq!(count, table.len() + 26);
}

#[test]
fn characters_without_a_code() {
    assert_eq!(morse('#'), None);
    assert_eq!(morse(' '), None);
    assert_eq!(morse('ä'), None);
    assert_eq!(morse('ſ'), None);
    assert_eq!(morse('\u{ff21}'), None);
}

#[test]
fn white_space_is_what_unicode_says() {
    for n in 0..=0x10ffff_u32 {
        if let Some(c) = char::from_u32(n) {
            let text: String = ['E', c, 'E'].iter().collect();
            let gaps = codes(&text).iter().filter(|code| code.is_none()).count();
            assert_eq!(gaps == 1, c.is_whitespace(), "{:?}", c);
        }
    }
}

#[test]
fn leading_white_space_adds_nothing() {
    assert_eq!(codes(" \t\nE"), vec![Some(".")]);
    assert_eq!(codes(""), vec![]);
    assert_eq!(codes("  "), vec![]);
}

#[test]
fn trailing_white_space_is_a_gap() {
    assert_eq!(codes("E  "), vec![Some("."), None]);
}

#[test]
fn unknown_characters_are_skipped_but_part_words() {
    assert_eq!(codes("E#T"), vec![Some("."), Some("-")]);
    assert_eq!(codes("E # T"), vec![Some("."), None, None, Some("-")]);
    assert_eq!(codes("# T"), vec![None, Some("-")]);
}

#[test]
fn white_space_of_any_kind_is_one_gap() {
    assert_eq!(codes("E\r\n\u{3000}T"), codes("E T"));
}

#[test]
fn white_space_parts_a_text() {
    let mut tokens = codes("ab ");
    tokens.extend(codes(" c"));
    assert_eq!(codes("ab \n c"), tokens);
    assert_eq!(tokens, vec![Some(".-"), Some("-..."), None, Some("-.-.")]);
}

#[test]
fn plans_a_pattern() {
    let mut steps = vec![Step::Poll];
    plan_pattern(&mut steps, ".-x");
    assert_eq!(
        steps,
        vec![
            Step::Poll,
            Step::KeyDown, Step::Mark(1), Step::KeyUp, Step::Space,
            Step::KeyDown, Step::Mark(3), Step::KeyUp, Step::Space,
            Step::KeyDown, Step::Mark(0), Step::KeyUp,
        ]
    );
}

#[test]
fn plans_a_message() {
    assert_eq!(
        plan_message("ET T"),
        vec![
            Step::PttOn, Step::Lead,
            Step::Poll, Step::Gap, Step::KeyDown, Step::Mark(1), Step::KeyUp,
            Step::Poll, Step::Rest(3), Step::KeyDown, Step::Mark(3), Step::KeyUp,
            Step::Poll, Step::Rest(7),
            Step::Poll, Step::KeyDown, Step::Mark(3), Step::KeyUp,
        ]
    );
}

#[test]
fn a_blank_message_takes_nothing() {
    assert_eq!(plan_message(""), vec![]);
    assert_eq!(plan_message(" \n"), vec![]);
}

#[test]
fn a_message_of_unknown_characters_takes_ptt_only() {
    assert_eq!(plan_message("#"), vec![Step::PttOn, Step::Lead]);
}

#[test]
fn codes_are_distinct() {
    let mut codes: Vec<&str> = Vec::new();
    for n in 33..127_u8 {
        let c = char::from(n);
        if let (Some(code), false) = (morse(c), c.is_ascii_lowercase()) {
            assert!(!codes.contains(&code));
            assert!(code.len() <= 7 && code.chars().all(|symbol| symbol == '.' || symbol == '-'));
            codes.push(code);
        }
    }
    assert_eq!(codes.len(), 54);
}
