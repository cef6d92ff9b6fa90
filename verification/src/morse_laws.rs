//! Laws of the code table and of the split into tokens.
use crate::morse::{
    ascii_upper, code_table, is_blank, is_white_space, morse_code, token_at, tokens_of, TokenModel,
};
use vstd::prelude::*;

verus! {

/// Whether a text holds nothing but white space and characters with a code.
pub open spec fn is_sendable(text: Seq<char>) -> bool {
    forall|i: int|
        0 <= i < text.len() ==> is_white_space(#[trigger] text[i]) || morse_code(text[i]) is Some
}

/// Upper and lower case letters have the same code.
pub proof fn case_does_not_matter(c: char)
    ensures
        morse_code(ascii_upper(c)) == morse_code(c),
        'a' <= c <= 'z' ==> morse_code(c) == morse_code((c as u32 - 32) as char),
{
}

/// White space has no code.
pub proof fn white_space_has_no_code(c: char)
    requires
        is_white_space(c),
    ensures
        morse_code(c) is None,
{
}

/// The node of the code tree that a pattern leads to: a dot goes from node `n`
/// to `2 * n`, a dash to `2 * n + 1`.
pub open spec fn tree_node(pattern: Seq<char>) -> nat
    decreases pattern.len(),
{
    if pattern.len() == 0 {
        1
    } else {
        2 * tree_node(pattern.drop_last()) + (if pattern.last() == '-' {
            1nat
        } else {
            0
        })
    }
}

/// The node of the code tree at which a letter, a digit or a sign stands, or
/// zero if it stands nowhere.
pub open spec fn node_of(c: char) -> nat {
    match c {
        'A' => 5,
        'B' => 24,
        'C' => 26,
        'D' => 12,
        'E' => 2,
        'F' => 18,
        'G' => 14,
        'H' => 16,
        'I' => 4,
        'J' => 23,
        'K' => 13,
        'L' => 20,
        'M' => 7,
        'N' => 6,
        'O' => 15,
        'P' => 22,
        'Q' => 29,
        'R' => 10,
        'S' => 8,
        'T' => 3,
        'U' => 9,
        'V' => 17,
        'W' => 11,
        'X' => 25,
        'Y' => 27,
        'Z' => 28,
        '0' => 63,
        '1' => 47,
        '2' => 39,
        '3' => 35,
        '4' => 33,
        '5' => 32,
        '6' => 48,
        '7' => 56,
        '8' => 60,
        '9' => 62,
        '.' => 85,
        ',' => 115,
        '?' => 76,
        '\'' => 94,
        '!' => 107,
        '/' => 50,
        '(' => 54,
        ')' => 109,
        '&' => 40,
        ':' => 120,
        ';' => 106,
        '=' => 49,
        '+' => 42,
        '-' => 97,
        '_' => 77,
        '"' => 82,
        '$' => 137,
        '@' => 90,
        _ => 0,
    }
}

proof fn lemma_pattern_shape(c: char)
    ensures
        code_table(c) matches Some(p) ==> {
            &&& 1 <= p.len() <= 7
            &&& forall|i: int| 0 <= i < p.len() ==> p[i] == '.' || p[i] == '-'
            &&& tree_node(p) == node_of(c)
        },
        code_table(c) is Some <==> node_of(c) != 0,
{
    reveal_strlit(".-");
    reveal_strlit("-...");
    reveal_strlit("-.-.");
    reveal_strlit("-..");
    reveal_strlit(".");
    reveal_strlit("..-.");
    reveal_strlit("--.");
    reveal_strlit("....");
    reveal_strlit("..");
    reveal_strlit(".---");
    reveal_strlit("-.-");
    reveal_strlit(".-..");
    reveal_strlit("--");
    reveal_strlit("-.");
    reveal_strlit("---");
    reveal_strlit(".--.");
    reveal_strlit("--.-");
    reveal_strlit(".-.");
    reveal_strlit("...");
    reveal_strlit("-");
    reveal_strlit("..-");
    reveal_strlit("...-");
    reveal_strlit(".--");
    reveal_strlit("-..-");
    reveal_strlit("-.--");
    reveal_strlit("--..");
    reveal_strlit("-----");
    reveal_strlit(".----");
    reveal_strlit("..---");
    reveal_strlit("...--");
    reveal_strlit("....-");
    reveal_strlit(".....");
    reveal_strlit("-....");
    reveal_strlit("--...");
    reveal_strlit("---..");
    reveal_strlit("----.");
    reveal_strlit(".-.-.-");
    reveal_strlit("--..--");
    reveal_strlit("..--..");
    reveal_strlit(".----.");
    reveal_strlit("-.-.--");
    reveal_strlit("-..-.");
    reveal_strlit("-.--.");
    reveal_strlit("-.--.-");
    reveal_strlit(".-...");
    reveal_strlit("---...");
    reveal_strlit("-.-.-.");
    reveal_strlit("-...-");
    reveal_strlit(".-.-.");
    reveal_strlit("-....-");
    reveal_strlit("..--.-");
    reveal_strlit(".-..-.");
    reveal_strlit("...-..-");
    reveal_strlit(".--.-.");
    if let Some(p) = code_table(c) {
        reveal_with_fuel(tree_node, 8);
    }
}

/// A code is one to seven dots and dashes.
pub proof fn codes_are_dots_and_dashes(c: char)
    ensures
        morse_code(c) matches Some(p) ==> {
            &&& 1 <= p.len() <= 7
            &&& forall|i: int| 0 <= i < p.len() ==> p[i] == '.' || p[i] == '-'
        },
{
    lemma_pattern_shape(ascii_upper(c));
}

/// Every letter, digit and sign has the code of its node in the code tree, and
/// nothing else has one. A code can be told from its node.
pub proof fn codes_follow_the_code_tree(c: char)
    ensures
        ({
            let letter = if 'a' <= c <= 'z' {
                (c as u32 - 32) as char
            } else {
                c
            };
            &&& morse_code(c) is Some <==> node_of(letter) != 0
            &&& morse_code(c) matches Some(pattern) ==> tree_node(pattern) == node_of(letter)
        }),
{
    lemma_pattern_shape(ascii_upper(c));
}

/// Patterns of dots and dashes that lead to the same node are the same.
pub proof fn nodes_tell_patterns_apart(one: Seq<char>, other: Seq<char>)
    requires
        forall|i: int| 0 <= i < one.len() ==> one[i] == '.' || one[i] == '-',
        forall|i: int| 0 <= i < other.len() ==> other[i] == '.' || other[i] == '-',
        tree_node(one) == tree_node(other),
    ensures
        one == other,
    decreases one.len(),
{
    lemma_node_positive(one);
    lemma_node_positive(other);
    if one.len() == 0 || other.len() == 0 {
        assert(one =~= other);
    } else {
        nodes_tell_patterns_apart(one.drop_last(), other.drop_last());
        assert(one =~= one.drop_last().push(one.last()));
        assert(other =~= other.drop_last().push(other.last()));
    }
}

proof fn lemma_node_positive(pattern: Seq<char>)
    ensures
        tree_node(pattern) >= 1,
        pattern.len() > 0 ==> tree_node(pattern) >= 2,
    decreases pattern.len(),
{
    if pattern.len() > 0 {
        lemma_node_positive(pattern.drop_last());
    }
}

/// A digit has five marks: one to five begin with as many dots, six to nine
/// with one to four dashes and zero with five, and the other marks follow.
pub proof fn digits_have_five_marks(c: char)
    requires
        '0' <= c <= '9',
    ensures
        morse_code(c) matches Some(pattern) && pattern.len() == 5 && forall|i: int|
            0 <= i < 5 ==> pattern[i] == (if c == '0' {
                '-'
            } else if c <= '5' {
                if i < c as u32 - 48 {
                    '.'
                } else {
                    '-'
                }
            } else if i < c as u32 - 53 {
                '-'
            } else {
                '.'
            }),
{
    reveal_strlit("-----");
    reveal_strlit(".----");
    reveal_strlit("..---");
    reveal_strlit("...--");
    reveal_strlit("....-");
    reveal_strlit(".....");
    reveal_strlit("-....");
    reveal_strlit("--...");
    reveal_strlit("---..");
    reveal_strlit("----.");
}

/// The codes of the characters of a text that have one, in order.
pub open spec fn codes_of(text: Seq<char>) -> Seq<Seq<char>>
    decreases text.len(),
{
    if text.len() == 0 {
        seq![]
    } else {
        match morse_code(text.last()) {
            Some(pattern) => codes_of(text.drop_last()).push(pattern),
            None => codes_of(text.drop_last()),
        }
    }
}

/// The patterns of the characters among tokens, in order.
pub open spec fn patterns_of(tokens: Seq<TokenModel>) -> Seq<Seq<char>>
    decreases tokens.len(),
{
    if tokens.len() == 0 {
        seq![]
    } else {
        match tokens.last() {
            TokenModel::Char(pattern) => patterns_of(tokens.drop_last()).push(pattern),
            TokenModel::WordGap => patterns_of(tokens.drop_last()),
        }
    }
}

/// The characters among the tokens of a text have the codes of the characters
/// of the text that have one, all of them and in order.
pub proof fn tokens_hold_every_code(text: Seq<char>)
    ensures
        patterns_of(tokens_of(text)) == codes_of(text),
    decreases text.len(),
{
    if text.len() > 0 {
        let shorter = text.drop_last();
        let last = token_at(text, text.len() - 1);
        tokens_hold_every_code(shorter);
        if is_white_space(text.last()) {
            white_space_has_no_code(text.last());
        }
        if last.len() > 0 {
            assert(tokens_of(text) =~= tokens_of(shorter).push(last[0]));
            assert(tokens_of(text).drop_last() =~= tokens_of(shorter));
        } else {
            assert(tokens_of(text) =~= tokens_of(shorter));
        }
    }
}

/// A word, that is a text without white space, has no word gap: its tokens are
/// the codes of its characters. If all of them have a code, there is one token
/// for each.
pub proof fn tokens_of_a_word_are_its_codes(word: Seq<char>)
    requires
        forall|i: int| 0 <= i < word.len() ==> !is_white_space(#[trigger] word[i]),
    ensures
        tokens_of(word) == codes_of(word).map_values(|p: Seq<char>| TokenModel::Char(p)),
        (forall|i: int| 0 <= i < word.len() ==> morse_code(#[trigger] word[i]) is Some) ==> {
            &&& tokens_of(word).len() == word.len()
            &&& forall|i: int|
                0 <= i < word.len() ==> #[trigger] tokens_of(word)[i] == TokenModel::Char(
                    morse_code(word[i])->Some_0,
                )
        },
    decreases word.len(),
{
    let as_token = |p: Seq<char>| TokenModel::Char(p);
    if word.len() > 0 {
        let shorter = word.drop_last();
        let last = word[word.len() - 1];
        assert forall|i: int| 0 <= i < shorter.len() implies !is_white_space(
            #[trigger] shorter[i],
        ) by {
            assert(shorter[i] == word[i]);
        }
        tokens_of_a_word_are_its_codes(shorter);
        assert(!is_white_space(last));
        assert(tokens_of(word) =~= codes_of(word).map_values(as_token));
        if forall|i: int| 0 <= i < word.len() ==> morse_code(#[trigger] word[i]) is Some {
            assert forall|i: int| 0 <= i < shorter.len() implies morse_code(
                #[trigger] shorter[i],
            ) is Some by {
                assert(shorter[i] == word[i]);
            }
            assert(morse_code(last) is Some);
            assert forall|i: int| 0 <= i < word.len() implies #[trigger] tokens_of(word)[i]
                == TokenModel::Char(morse_code(word[i])->Some_0) by {
                if i < shorter.len() {
                    assert(tokens_of(shorter)[i] == TokenModel::Char(
                        morse_code(shorter[i])->Some_0,
                    ));
                    assert(tokens_of(word)[i] == tokens_of(shorter)[i]);
                }
            }
        }
    } else {
        assert(tokens_of(word) =~= codes_of(word).map_values(as_token));
    }
}

/// Two characters with the same code differ at most in case.
pub proof fn codes_are_distinct(a: char, b: char)
    requires
        morse_code(a) is Some,
        morse_code(a) == morse_code(b),
    ensures
        ascii_upper(a) == ascii_upper(b),
{
    lemma_pattern_shape(ascii_upper(a));
    lemma_pattern_shape(ascii_upper(b));
    assert(node_of(ascii_upper(a)) == node_of(ascii_upper(b)));
}

/// In a text without characters that cannot be sent, every word gap follows a
/// character: there is none at the start and never two in a row.
pub proof fn word_gaps_stand_alone(text: Seq<char>)
    requires
        is_sendable(text),
    ensures
        forall|i: int|
            0 <= i < tokens_of(text).len() && #[trigger] tokens_of(text)[i] is WordGap ==> i > 0
                && tokens_of(text)[i - 1] is Char,
{
    lemma_gaps_and_last(text);
}

proof fn lemma_gaps_and_last(text: Seq<char>)
    requires
        is_sendable(text),
    ensures
        forall|i: int|
            0 <= i < tokens_of(text).len() && #[trigger] tokens_of(text)[i] is WordGap ==> i > 0
                && tokens_of(text)[i - 1] is Char,
        text.len() > 0 && !is_white_space(text.last()) ==> tokens_of(text).len() > 0
            && tokens_of(text).last() is Char,
    decreases text.len(),
{
    if text.len() > 0 {
        let shorter = text.drop_last();
        assert forall|i: int| 0 <= i < shorter.len() implies is_white_space(#[trigger] shorter[i])
            || morse_code(shorter[i]) is Some by {
            assert(shorter[i] == text[i]);
        }
        lemma_gaps_and_last(shorter);
        let tokens = tokens_of(text);
        let earlier = tokens_of(shorter);
        assert(is_white_space(text[text.len() - 1]) || morse_code(text[text.len() - 1]) is Some);
        assert forall|i: int| 0 <= i < tokens.len() && #[trigger] tokens[i] is WordGap implies i > 0
            && tokens[i - 1] is Char by {
            if i < earlier.len() {
                assert(earlier[i] is WordGap);
            } else {
                assert(!is_white_space(shorter.last()));
            }
        }
    }
}

/// What the characters of `tail` add to the tokens of a text that they end,
/// where `after_space` says whether a word gap may not follow what precedes.
spec fn tail_tokens(after_space: bool, tail: Seq<char>) -> Seq<TokenModel>
    decreases tail.len(),
{
    if tail.len() == 0 {
        seq![]
    } else {
        let last = if tail.len() > 1 {
            token_at(tail, tail.len() - 1)
        } else if is_white_space(tail[0]) && !after_space {
            seq![TokenModel::WordGap]
        } else {
            token_at(tail, 0)
        };
        tail_tokens(after_space, tail.drop_last()) + last
    }
}

proof fn lemma_tokens_of_joined(head: Seq<char>, tail: Seq<char>)
    ensures
        tokens_of(head + tail) == tokens_of(head) + tail_tokens(
            head.len() == 0 || is_white_space(head.last()),
            tail,
        ),
    decreases tail.len(),
{
    let after_space = head.len() == 0 || is_white_space(head.last());
    if tail.len() == 0 {
        assert(head + tail =~= head);
        assert(tokens_of(head) + tail_tokens(after_space, tail) =~= tokens_of(head));
    } else {
        lemma_tokens_of_joined(head, tail.drop_last());
        assert((head + tail).drop_last() =~= head + tail.drop_last());
        assert(tokens_of(head + tail) =~= tokens_of(head) + tail_tokens(after_space, tail));
    }
}

proof fn lemma_blank_tail(after_space: bool, tail: Seq<char>)
    requires
        is_blank(tail),
    ensures
        tail_tokens(after_space, tail) == (if after_space || tail.len() == 0 {
            seq![]
        } else {
            seq![TokenModel::WordGap]
        }),
    decreases tail.len(),
{
    if tail.len() > 0 {
        let shorter = tail.drop_last();
        assert forall|i: int| 0 <= i < shorter.len() implies is_white_space(
            #[trigger] shorter[i],
        ) by {
            assert(shorter[i] == tail[i]);
        }
        lemma_blank_tail(after_space, shorter);
        assert(is_white_space(tail[tail.len() - 1]));
        if tail.len() > 1 {
            assert(is_white_space(tail[tail.len() - 2]));
        }
        assert(tail_tokens(after_space, tail) =~= (if after_space {
            seq![]
        } else {
            seq![TokenModel::WordGap]
        }));
    }
}

/// White space between words counts as one gap, however much of it there is
/// and whatever it is made of.
pub proof fn any_white_space_is_one_gap(
    head: Seq<char>,
    one: Seq<char>,
    other: Seq<char>,
    tail: Seq<char>,
)
    requires
        is_blank(one),
        is_blank(other),
        one.len() > 0,
        other.len() > 0,
    ensures
        tokens_of(head + one + tail) == tokens_of(head + other + tail),
{
    lemma_tokens_of_joined(head + one, tail);
    lemma_tokens_of_joined(head + other, tail);
    lemma_tokens_of_joined(head, one);
    lemma_tokens_of_joined(head, other);
    lemma_blank_tail(head.len() == 0 || is_white_space(head.last()), one);
    lemma_blank_tail(head.len() == 0 || is_white_space(head.last()), other);
    assert(is_white_space(one[one.len() - 1]));
    assert(is_white_space(other[other.len() - 1]));
    assert((head + one).last() == one.last());
    assert((head + other).last() == other.last());
}

/// White space after a character parts a text into two: its tokens are those
/// of what precedes, a word gap, and those of what follows.
pub proof fn white_space_parts_a_text(head: Seq<char>, blank: Seq<char>, tail: Seq<char>)
    requires
        head.len() > 0,
        !is_white_space(head.last()),
        is_blank(blank),
        blank.len() > 0,
    ensures
        tokens_of(head + blank + tail) == tokens_of(head) + seq![TokenModel::WordGap] + tokens_of(
            tail,
        ),
{
    let none = Seq::<char>::empty();
    lemma_tokens_of_joined(head + blank, tail);
    lemma_tokens_of_joined(head, blank);
    lemma_blank_tail(false, blank);
    assert(is_white_space(blank[blank.len() - 1]));
    assert((head + blank).last() == blank.last());
    lemma_tokens_of_joined(none, tail);
    assert(none + tail =~= tail);
    assert(tokens_of(none) + tail_tokens(true, tail) =~= tail_tokens(true, tail));
}

/// White space at the start of a text adds nothing.
pub proof fn leading_white_space_is_dropped(blank: Seq<char>, text: Seq<char>)
    requires
        is_blank(blank),
    ensures
        tokens_of(blank + text) == tokens_of(text),
{
    let none = Seq::<char>::empty();
    lemma_tokens_of_joined(blank, text);
    lemma_tokens_of_joined(none, text);
    lemma_tokens_of_joined(none, blank);
    lemma_blank_tail(true, blank);
    assert(none + blank =~= blank);
    assert(none + text =~= text);
    if blank.len() > 0 {
        assert(is_white_space(blank[blank.len() - 1]));
    }
    assert(tokens_of(none) =~= seq![]);
}

} // verus!
