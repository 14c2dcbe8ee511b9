//! The token grammar as mathematics: what one scanning step yields on a
//! sequence of characters, and what repeated steps yield.

use vstd::prelude::*;
use crate::charclass::{CharClass, is_digit, is_operator, is_word_part, is_word_start};

verus! {

/// A token as a mathematical value: its kind and the characters it spells.
pub enum Lexeme {
    Keyword(Seq<char>),
    Identifier(Seq<char>),
    Number(Seq<char>),
    Operator(Seq<char>),
}

/// The reserved word `if`.
pub open spec fn word_if() -> Seq<char> {
    seq!['i', 'f']
}

/// The reserved word `int`.
pub open spec fn word_int() -> Seq<char> {
    seq!['i', 'n', 't']
}

/// Whether `text` is, letter for letter, one of the reserved words.
pub open spec fn is_reserved(text: Seq<char>) -> bool {
    text == word_if() || text == word_int()
}

impl Lexeme {
    /// The characters the lexeme was read from.
    pub open spec fn text(self) -> Seq<char> {
        match self {
            Lexeme::Keyword(t) => t,
            Lexeme::Identifier(t) => t,
            Lexeme::Number(t) => t,
            Lexeme::Operator(t) => t,
        }
    }

    /// What every lexeme that the grammar produces satisfies: its text is not
    /// empty and has the shape that its kind prescribes.
    pub open spec fn valid(self) -> bool {
        match self {
            Lexeme::Keyword(t) => is_reserved(t),
            Lexeme::Identifier(t) => {
                &&& t.len() > 0
                &&& is_word_start(t[0])
                &&& forall|i: int| 0 <= i < t.len() ==> is_word_part(#[trigger] t[i])
                &&& !is_reserved(t)
            },
            Lexeme::Number(t) => {
                &&& t.len() > 0
                &&& forall|i: int| 0 <= i < t.len() ==> is_digit(#[trigger] t[i])
            },
            Lexeme::Operator(t) => t.len() == 1 && is_operator(t[0]),
        }
    }
}

/// Whether the first `n` characters of `s` are the longest prefix of `s` made
/// of characters of `class` alone.
pub open spec fn is_longest_run(s: Seq<char>, n: int, class: CharClass) -> bool {
    &&& 0 <= n <= s.len()
    &&& forall|i: int| 0 <= i < n ==> class.contains(#[trigger] s[i])
    &&& n < s.len() ==> !class.contains(s[n])
}

/// The length of the longest prefix of `s` made of characters of `class`.
pub open spec fn run_len(s: Seq<char>, class: CharClass) -> nat
    decreases s.len(),
{
    if s.len() > 0 && class.contains(s[0]) {
        1 + run_len(s.drop_first(), class)
    } else {
        0
    }
}

/// `run_len` is the one length that `is_longest_run` accepts.
pub proof fn lemma_run_len_is_longest(s: Seq<char>, class: CharClass)
    ensures
        is_longest_run(s, run_len(s, class) as int, class),
        forall|n: int| is_longest_run(s, n, class) ==> n == run_len(s, class),
    decreases s.len(),
{
    if s.len() > 0 && class.contains(s[0]) {
        let tail = s.drop_first();
        lemma_run_len_is_longest(tail, class);
        let k = run_len(tail, class) as int;
        assert forall|i: int| 0 <= i < k + 1 implies class.contains(#[trigger] s[i]) by {
            if i > 0 {
                assert(s[i] == tail[i - 1]);
            }
        }
        if k + 1 < s.len() {
            assert(s[k + 1] == tail[k]);
        }
        assert forall|n: int| is_longest_run(s, n, class) implies n == k + 1 by {
            assert(n > 0);
            assert forall|i: int| 0 <= i < n - 1 implies class.contains(#[trigger] tail[i]) by {
                assert(tail[i] == s[i + 1]);
            }
            if n - 1 < tail.len() {
                assert(tail[n - 1] == s[n]);
            }
            assert(is_longest_run(tail, n - 1, class));
        }
    } else {
        assert forall|n: int| is_longest_run(s, n, class) implies n == 0 by {
            if n > 0 {
                assert(class.contains(s[0]));
            }
        }
    }
}

/// `s` without its leading whitespace.
pub open spec fn skip_whitespace(s: Seq<char>) -> Seq<char> {
    s.skip(run_len(s, CharClass::Whitespace) as int)
}

/// The lexeme that a word spells: a keyword if the word is reserved, an
/// identifier otherwise.
pub open spec fn word(text: Seq<char>) -> Lexeme {
    if is_reserved(text) {
        Lexeme::Keyword(text)
    } else {
        Lexeme::Identifier(text)
    }
}

/// The outcome of one scanning step.
pub struct Step {
    /// The lexeme that was found, if any.
    pub lexeme: Option<Lexeme>,
    /// The input that is left unread.
    pub rest: Seq<char>,
}

/// One scanning step on the unread input `s`.
///
/// Leading whitespace is dropped first. What follows decides: a word start
/// opens the longest run of word characters, a digit the longest run of
/// digits, an operator character stands alone. At the end of the input, and
/// before any other character, the step yields nothing and leaves that
/// character unread.
pub open spec fn scan(s: Seq<char>) -> Step {
    let r = skip_whitespace(s);
    if r.len() == 0 {
        Step { lexeme: None, rest: r }
    } else if is_word_start(r[0]) {
        let n = run_len(r, CharClass::Word) as int;
        Step { lexeme: Some(word(r.take(n))), rest: r.skip(n) }
    } else if is_digit(r[0]) {
        let n = run_len(r, CharClass::Digit) as int;
        Step { lexeme: Some(Lexeme::Number(r.take(n))), rest: r.skip(n) }
    } else if is_operator(r[0]) {
        Step { lexeme: Some(Lexeme::Operator(r.take(1))), rest: r.skip(1) }
    } else {
        Step { lexeme: None, rest: r }
    }
}

/// A step that yields a lexeme consumes at least one character, and no step
/// ever hands back more input than it was given.
pub proof fn lemma_scan_advances(s: Seq<char>)
    ensures
        scan(s).rest.len() <= s.len(),
        scan(s).lexeme is Some ==> scan(s).rest.len() < s.len(),
{
    lemma_run_len_is_longest(s, CharClass::Whitespace);
    let r = skip_whitespace(s);
    lemma_run_len_is_longest(r, CharClass::Word);
    lemma_run_len_is_longest(r, CharClass::Digit);
}

/// The lexemes that repeated steps yield on `s`, up to the first step that
/// yields nothing.
pub open spec fn tokens(s: Seq<char>) -> Seq<Lexeme>
    decreases s.len(),
{
    match scan(s).lexeme {
        Some(lexeme) => {
            proof {
                lemma_scan_advances(s);
            }
            seq![lexeme] + tokens(scan(s).rest)
        },
        None => Seq::empty(),
    }
}

/// The input that is still unread when repeated steps on `s` come to the
/// first step that yields nothing.
pub open spec fn residue(s: Seq<char>) -> Seq<char>
    decreases s.len(),
{
    match scan(s).lexeme {
        Some(_) => {
            proof {
                lemma_scan_advances(s);
            }
            residue(scan(s).rest)
        },
        None => scan(s).rest,
    }
}

} // verus!
