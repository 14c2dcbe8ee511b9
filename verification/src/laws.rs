//! What holds of the grammar whatever the input: properties of a single
//! scanning step and of repeated steps, proved from the definitions.

use vstd::prelude::*;
use crate::charclass::{
    CharClass,
    is_ascii_letter,
    is_blank,
    is_digit,
    is_operator,
    is_word_part,
    is_word_start,
};
use crate::grammar::{
    Lexeme,
    is_longest_run,
    lemma_run_len_is_longest,
    lemma_scan_advances,
    residue,
    run_len,
    scan,
    skip_whitespace,
    tokens,
    word,
};

verus! {

/// The characters that never stop the scan, wherever they stand: ASCII
/// letters and digits, the underscore, the two operator characters, and
/// whitespace. Letters and digits of other scripts are not among them: they
/// may continue a word but begin no token.
pub open spec fn is_recognized(c: char) -> bool {
    is_ascii_letter(c) || is_digit(c) || c == '_' || is_operator(c) || is_blank(c)
}

/// The characters that begin the three kinds of token are kept apart: a
/// word start is a word character and neither a digit nor an operator, a
/// digit is a word character and neither a word start nor an operator, an
/// operator character is none of the others, and none of them is whitespace.
pub proof fn lemma_token_starts_are_distinct(c: char)
    ensures
        is_word_start(c) ==> is_word_part(c) && !is_blank(c) && !is_digit(c) && !is_operator(c),
        is_digit(c) ==> is_word_part(c) && !is_blank(c) && !is_word_start(c) && !is_operator(c),
        is_operator(c) ==> !is_word_part(c) && !is_blank(c) && !is_word_start(c) && !is_digit(c),
{
}

/// Every lexeme that a step yields is valid: its text is not empty and fits
/// its kind.
pub proof fn lemma_scan_yields_valid(s: Seq<char>)
    ensures
        scan(s).lexeme matches Some(lexeme) ==> lexeme.valid(),
{
    let r = skip_whitespace(s);
    lemma_run_len_is_longest(r, CharClass::Word);
    lemma_run_len_is_longest(r, CharClass::Digit);
}

/// Every lexeme among those that repeated steps yield is valid.
pub proof fn lemma_tokens_are_valid(s: Seq<char>)
    ensures
        forall|i: int| 0 <= i < tokens(s).len() ==> (#[trigger] tokens(s)[i]).valid(),
    decreases s.len(),
{
    lemma_scan_yields_valid(s);
    if scan(s).lexeme is Some {
        lemma_scan_advances(s);
        lemma_tokens_are_valid(scan(s).rest);
        let later = tokens(scan(s).rest);
        assert forall|i: int| 0 <= i < tokens(s).len() implies (#[trigger] tokens(s)[i]).valid() by {
            if i > 0 {
                assert(tokens(s)[i] == later[i - 1]);
            }
        }
    }
}

/// A step accounts for every character it passes: the input is the skipped
/// whitespace, then the text of the lexeme if one was found, then what is
/// left unread.
pub proof fn lemma_scan_accounts_for_input(s: Seq<char>)
    ensures
        ({
            let blank = s.take(run_len(s, CharClass::Whitespace) as int);
            let step = scan(s);
            &&& forall|i: int| 0 <= i < blank.len() ==> is_blank(#[trigger] blank[i])
            &&& match step.lexeme {
                Some(lexeme) => s == blank + lexeme.text() + step.rest,
                None => s == blank + step.rest,
            }
        }),
{
    lemma_run_len_is_longest(s, CharClass::Whitespace);
    let k: int = run_len(s, CharClass::Whitespace) as int;
    let blank = s.take(k);
    let r = skip_whitespace(s);
    lemma_run_len_is_longest(r, CharClass::Word);
    lemma_run_len_is_longest(r, CharClass::Digit);
    let step = scan(s);
    assert forall|i: int| 0 <= i < blank.len() implies is_blank(#[trigger] blank[i]) by {
        assert(blank[i] == s[i]);
    }
    match step.lexeme {
        Some(lexeme) => {
            assert(r =~= lexeme.text() + step.rest);
            assert(s =~= blank + lexeme.text() + step.rest);
        },
        None => {
            assert(s =~= blank + step.rest);
        },
    }
}

/// The cursor never moves back: what a step leaves unread is the end of what
/// it was given.
pub proof fn lemma_scan_leaves_suffix(s: Seq<char>)
    ensures
        scan(s).rest.is_suffix_of(s),
{
    lemma_scan_accounts_for_input(s);
}

/// A step that yields nothing leaves the cursor at the end of the input or
/// before a character that is neither whitespace nor the start of a token.
pub proof fn lemma_halt_is_at_end_or_unrecognized(s: Seq<char>)
    requires
        scan(s).lexeme is None,
    ensures
        scan(s).rest == skip_whitespace(s),
        scan(s).rest.len() > 0 ==> {
            let c = scan(s).rest[0];
            !is_blank(c) && !is_word_start(c) && !is_digit(c) && !is_operator(c)
        },
{
    lemma_run_len_is_longest(s, CharClass::Whitespace);
    let r = skip_whitespace(s);
    if r.len() > 0 {
        assert(r[0] == s[run_len(s, CharClass::Whitespace) as int]);
    }
}

/// The end of the tokens is final: once a step has yielded nothing, every
/// further step yields nothing and leaves the input where it is.
pub proof fn lemma_halt_is_final(s: Seq<char>)
    requires
        scan(s).lexeme is None,
    ensures
        scan(scan(s).rest).lexeme is None,
        scan(scan(s).rest).rest == scan(s).rest,
{
    lemma_run_len_is_longest(s, CharClass::Whitespace);
    let r = skip_whitespace(s);
    assert(scan(s).rest == r);
    if r.len() > 0 {
        assert(r[0] == s[run_len(s, CharClass::Whitespace) as int]);
        assert(is_longest_run(r, 0, CharClass::Whitespace));
    }
    lemma_run_len_is_longest(r, CharClass::Whitespace);
    assert(skip_whitespace(r) =~= r);
}

/// Repeated steps are one step and then repeated steps on what it left: the
/// lexeme of the first step, if there is one, comes before the lexemes of the
/// rest, and what is finally left unread is the same from either point.
pub proof fn lemma_first_step_of_many(s: Seq<char>)
    ensures
        tokens(s) == match scan(s).lexeme {
            Some(lexeme) => seq![lexeme] + tokens(scan(s).rest),
            None => Seq::<Lexeme>::empty(),
        },
        residue(s) == residue(scan(s).rest),
{
    if scan(s).lexeme is None {
        lemma_halt_is_final(s);
    }
}

/// Where repeated steps stop, they stop for good: a step on what they left
/// unread yields nothing and leaves it as it is.
pub proof fn lemma_residue_is_final(s: Seq<char>)
    ensures
        scan(residue(s)).lexeme is None,
        scan(residue(s)).rest == residue(s),
        tokens(residue(s)) == Seq::<Lexeme>::empty(),
        residue(residue(s)) == residue(s),
    decreases s.len(),
{
    if scan(s).lexeme is Some {
        lemma_scan_advances(s);
        lemma_residue_is_final(scan(s).rest);
    } else {
        lemma_halt_is_final(s);
    }
}

/// Whitespace before the input changes nothing about what a step yields or
/// leaves, nor about what repeated steps yield or leave.
pub proof fn lemma_leading_whitespace_is_ignored(blank: Seq<char>, s: Seq<char>)
    requires
        forall|i: int| 0 <= i < blank.len() ==> is_blank(#[trigger] blank[i]),
    ensures
        scan(blank + s) == scan(s),
        tokens(blank + s) == tokens(s),
        residue(blank + s) == residue(s),
{
    let whole = blank + s;
    let k: int = run_len(s, CharClass::Whitespace) as int;
    lemma_run_len_is_longest(s, CharClass::Whitespace);
    assert forall|i: int| 0 <= i < blank.len() + k implies CharClass::Whitespace.contains(
        #[trigger] whole[i],
    ) by {
        if i < blank.len() {
            assert(whole[i] == blank[i]);
        } else {
            assert(whole[i] == s[i - blank.len()]);
        }
    }
    if blank.len() + k < whole.len() {
        assert(whole[blank.len() + k] == s[k]);
    }
    assert(is_longest_run(whole, blank.len() + k, CharClass::Whitespace));
    lemma_run_len_is_longest(whole, CharClass::Whitespace);
    assert(skip_whitespace(whole) =~= skip_whitespace(s));
}

/// Maximal munch for numbers: a run of one or more digits that no digit
/// follows comes out as a single number that covers the whole run.
pub proof fn lemma_digit_run_is_one_number(digits: Seq<char>, rest: Seq<char>)
    requires
        digits.len() >= 1,
        forall|i: int| 0 <= i < digits.len() ==> is_digit(#[trigger] digits[i]),
        rest.len() > 0 ==> !is_digit(rest[0]),
    ensures
        scan(digits + rest).lexeme == Some(Lexeme::Number(digits)),
        scan(digits + rest).rest == rest,
{
    let s = digits + rest;
    assert(s[0] == digits[0]);
    assert(is_longest_run(s, 0, CharClass::Whitespace));
    lemma_run_len_is_longest(s, CharClass::Whitespace);
    assert(skip_whitespace(s) =~= s);
    let n: int = digits.len() as int;
    assert forall|i: int| 0 <= i < n implies CharClass::Digit.contains(#[trigger] s[i]) by {
        assert(s[i] == digits[i]);
    }
    if n < s.len() {
        assert(s[n] == rest[0]);
    }
    assert(is_longest_run(s, n, CharClass::Digit));
    lemma_run_len_is_longest(s, CharClass::Digit);
    assert(s.take(n) =~= digits);
    assert(s.skip(n) =~= rest);
}

/// Maximal munch for words: a word start followed by word characters, with no
/// word character after them, comes out as a single word that covers the
/// whole run. It is a keyword only if the run as a whole is a reserved word.
pub proof fn lemma_word_run_is_one_word(run: Seq<char>, rest: Seq<char>)
    requires
        run.len() >= 1,
        is_word_start(run[0]),
        forall|i: int| 0 <= i < run.len() ==> is_word_part(#[trigger] run[i]),
        rest.len() > 0 ==> !is_word_part(rest[0]),
    ensures
        scan(run + rest).lexeme == Some(word(run)),
        scan(run + rest).rest == rest,
{
    let s = run + rest;
    assert(s[0] == run[0]);
    assert(is_longest_run(s, 0, CharClass::Whitespace));
    lemma_run_len_is_longest(s, CharClass::Whitespace);
    assert(skip_whitespace(s) =~= s);
    let n: int = run.len() as int;
    assert forall|i: int| 0 <= i < n implies CharClass::Word.contains(#[trigger] s[i]) by {
        assert(s[i] == run[i]);
    }
    if n < s.len() {
        assert(s[n] == rest[0]);
    }
    assert(is_longest_run(s, n, CharClass::Word));
    lemma_run_len_is_longest(s, CharClass::Word);
    assert(s.take(n) =~= run);
    assert(s.skip(n) =~= rest);
}

/// An operator character at the front of the input comes out as an operator
/// of that one character, whatever follows it.
pub proof fn lemma_operator_stands_alone(c: char, rest: Seq<char>)
    requires
        is_operator(c),
    ensures
        scan(seq![c] + rest).lexeme == Some(Lexeme::Operator(seq![c])),
        scan(seq![c] + rest).rest == rest,
{
    let s = seq![c] + rest;
    assert(s[0] == c);
    assert(is_longest_run(s, 0, CharClass::Whitespace));
    lemma_run_len_is_longest(s, CharClass::Whitespace);
    assert(skip_whitespace(s) =~= s);
    assert(s.take(1) =~= seq![c]);
    assert(s.skip(1) =~= rest);
}

/// A character that is neither whitespace nor the start of a token stops the
/// scan: the step yields nothing and leaves the character and all that
/// follows it unread, and so does every step after it.
pub proof fn lemma_unrecognized_character_halts(c: char, rest: Seq<char>)
    requires
        !is_blank(c),
        !is_word_start(c),
        !is_digit(c),
        !is_operator(c),
    ensures
        scan(seq![c] + rest).lexeme is None,
        scan(seq![c] + rest).rest == seq![c] + rest,
        tokens(seq![c] + rest) == Seq::<Lexeme>::empty(),
        residue(seq![c] + rest) == seq![c] + rest,
{
    let s = seq![c] + rest;
    assert(s[0] == c);
    assert(is_longest_run(s, 0, CharClass::Whitespace));
    lemma_run_len_is_longest(s, CharClass::Whitespace);
    assert(skip_whitespace(s) =~= s);
}

/// Input made of recognized characters alone is read to its end: when the
/// steps stop, nothing is left unread.
///
/// This does not extend to letters and digits of other scripts: a text that
/// begins with one of them is left unread as a whole.
pub proof fn lemma_recognized_input_is_consumed(s: Seq<char>)
    requires
        forall|i: int| 0 <= i < s.len() ==> is_recognized(#[trigger] s[i]),
    ensures
        residue(s).len() == 0,
    decreases s.len(),
{
    lemma_run_len_is_longest(s, CharClass::Whitespace);
    lemma_scan_advances(s);
    lemma_scan_accounts_for_input(s);
    let k: int = run_len(s, CharClass::Whitespace) as int;
    let r = skip_whitespace(s);
    let step = scan(s);
    if r.len() > 0 {
        assert(r[0] == s[k]);
        assert(is_recognized(s[k]));
        assert(step.lexeme is Some);
        let offset: int = s.len() - step.rest.len();
        assert forall|i: int| 0 <= i < step.rest.len() implies is_recognized(
            #[trigger] step.rest[i],
        ) by {
            assert(step.rest[i] == s[offset + i]);
        }
        lemma_recognized_input_is_consumed(step.rest);
    }
}

} // verus!
