//! The tokenizer: a cursor over the characters of an input text that hands
//! out one token per call.

use vstd::prelude::*;
use crate::charclass::{CharClass, is_digit, is_word_part};
use crate::grammar::{
    Lexeme,
    is_longest_run,
    is_reserved,
    lemma_run_len_is_longest,
    lemma_scan_advances,
    residue,
    scan,
    skip_whitespace,
    tokens,
    word_if,
    word_int,
};
use crate::laws::{
    lemma_first_step_of_many,
    lemma_halt_is_final,
    lemma_scan_leaves_suffix,
    lemma_scan_yields_valid,
};

verus! {

/// A classified piece of source text, which owns the characters it spells.
#[derive(Debug)]
pub enum Token {
    Keyword(String),
    Identifier(String),
    Number(String),
    Operator(String),
}

impl View for Token {
    type V = Lexeme;

    open spec fn view(&self) -> Lexeme {
        match self {
            Token::Keyword(text) => Lexeme::Keyword(text@),
            Token::Identifier(text) => Lexeme::Identifier(text@),
            Token::Number(text) => Lexeme::Number(text@),
            Token::Operator(text) => Lexeme::Operator(text@),
        }
    }
}

impl PartialEq for Token {
    /// Two tokens are equal when they are of the same kind and spell the same
    /// text.
    fn eq(&self, other: &Token) -> (equal: bool) {
        match (self, other) {
            (Token::Keyword(a), Token::Keyword(b)) => a.eq(b),
            (Token::Identifier(a), Token::Identifier(b)) => a.eq(b),
            (Token::Number(a), Token::Number(b)) => a.eq(b),
            (Token::Operator(a), Token::Operator(b)) => a.eq(b),
            _ => false,
        }
    }
}

impl vstd::std_specs::cmp::PartialEqSpecImpl for Token {
    open spec fn obeys_eq_spec() -> bool {
        true
    }

    open spec fn eq_spec(&self, other: &Token) -> bool {
        self@ == other@
    }
}

/// A cursor over the characters of an input text, which hands out the tokens
/// of the text one by one.
///
/// The view of a tokenizer is the part of the text that it has not read yet.
/// The tokenizer keeps the characters of the text for itself; once made, it
/// does not depend on the text it was made from.
pub struct Tokenizer {
    input: Vec<char>,
    cursor: usize,
}

impl View for Tokenizer {
    type V = Seq<char>;

    closed spec fn view(&self) -> Seq<char> {
        self.input@.skip(self.cursor as int)
    }
}

impl Tokenizer {
    /// The cursor lies within the input or at its end.
    #[verifier::type_invariant]
    spec fn in_bounds(self) -> bool {
        self.cursor <= self.input.len()
    }

    /// Makes a tokenizer that has all of `input` before it. Any text will do,
    /// the empty one too.
    pub fn new(input: &str) -> (tokenizer: Tokenizer)
        ensures
            tokenizer@ == input@,
    {
        let mut chars: Vec<char> = Vec::new();
        for c in it: input.chars()
            invariant
                chars@ == it.history(),
        {
            chars.push(c);
        }
        Tokenizer { input: chars, cursor: 0 }
    }

    /// Returns the next token of the input, or `None` where the input ends or
    /// goes on with a character that begins no token.
    ///
    /// Whitespace before the token is skipped. A character that begins no
    /// token is not skipped: the cursor stays before it, and every later call
    /// returns `None` as well. A caller cannot tell the two ways of ending
    /// apart.
    ///
    /// The first two clauses say what is returned and where the cursor stands
    /// afterwards. The others follow from them and are stated for callers'
    /// convenience: the token is valid; a token costs at least one character;
    /// the cursor never moves back; the end is final; and a caller who goes
    /// on calling until `None` gets `tokens` of the unread text, token by
    /// token, and ends with `residue` of it unread.
    pub fn next_token(&mut self) -> (token: Option<Token>)
        ensures
            match token {
                Some(t) => scan(old(self)@).lexeme == Some(t@),
                None => scan(old(self)@).lexeme is None,
            },
            final(self)@ == scan(old(self)@).rest,
            token matches Some(t) ==> t@.valid(),
            token is Some ==> final(self)@.len() < old(self)@.len(),
            final(self)@.is_suffix_of(old(self)@),
            token is None ==> scan(final(self)@).lexeme is None && scan(final(self)@).rest
                == final(self)@,
            tokens(old(self)@) == match token {
                Some(t) => seq![t@] + tokens(final(self)@),
                None => Seq::<Lexeme>::empty(),
            },
            residue(final(self)@) == residue(old(self)@),
    {
        proof {
            lemma_first_step_of_many(self@);
            lemma_scan_yields_valid(self@);
            lemma_scan_advances(self@);
            lemma_scan_leaves_suffix(self@);
            if scan(self@).lexeme is None {
                lemma_halt_is_final(self@);
            }
        }
        self.consume_whitespace();
        let ghost unread = self@;
        let current_char = self.peek()?;
        match current_char {
            'a'..='z' | 'A'..='Z' | '_' => {
                let identifier = self.consume_while(continues_word);
                proof {
                    let n: int = identifier@.len() as int;
                    assert forall|i: int| 0 <= i < n implies is_word_part(#[trigger] unread[i]) by {
                        assert(call_ensures(continues_word, (identifier@[i],), true));
                    }
                    assert(is_longest_run(unread, n, CharClass::Word));
                    lemma_run_len_is_longest(unread, CharClass::Word);
                }
                if is_keyword(identifier.as_str()) {
                    Some(Token::Keyword(identifier))
                } else {
                    Some(Token::Identifier(identifier))
                }
            },
            '0'..='9' => {
                let number = self.consume_while(is_decimal_digit);
                proof {
                    let n: int = number@.len() as int;
                    assert forall|i: int| 0 <= i < n implies is_digit(#[trigger] unread[i]) by {
                        assert(call_ensures(is_decimal_digit, (number@[i],), true));
                    }
                    assert(is_longest_run(unread, n, CharClass::Digit));
                    lemma_run_len_is_longest(unread, CharClass::Digit);
                }
                Some(Token::Number(number))
            },
            '=' => {
                self.advance();
                let operator = "=".to_string();
                proof {
                    reveal_strlit("=");
                    assert(operator@ =~= unread.take(1));
                }
                Some(Token::Operator(operator))
            },
            ';' => {
                self.advance();
                let operator = ";".to_string();
                proof {
                    reveal_strlit(";");
                    assert(operator@ =~= unread.take(1));
                }
                Some(Token::Operator(operator))
            },
            _ => None,
        }
    }

    /// The next unread character, if any is left.
    fn peek(&self) -> (next: Option<char>)
        ensures
            match next {
                Some(c) => self@.len() > 0 && c == self@[0],
                None => self@.len() == 0,
            },
    {
        proof {
            use_type_invariant(self);
        }
        if self.cursor < self.input.len() {
            Some(self.input[self.cursor])
        } else {
            None
        }
    }

    /// Moves the cursor past the next unread character.
    fn advance(&mut self)
        requires
            old(self)@.len() > 0,
        ensures
            final(self)@ == old(self)@.drop_first(),
    {
        proof {
            use_type_invariant(&*self);
        }
        self.cursor = self.cursor + 1;
    }

    /// Moves the cursor past all whitespace that lies directly before it.
    fn consume_whitespace(&mut self)
        ensures
            final(self)@ == skip_whitespace(old(self)@),
    {
        let ghost start = self@;
        let ghost n: int = 0;
        loop
            invariant
                0 <= n <= start.len(),
                self@ == start.skip(n),
                forall|i: int| 0 <= i < n ==> CharClass::Whitespace.contains(#[trigger] start[i]),
            ensures
                self@ == start.skip(n),
                is_longest_run(start, n, CharClass::Whitespace),
            decreases self@.len(),
        {
            match self.peek() {
                Some(ch) => {
                    if ch.is_whitespace() {
                        self.advance();
                        proof {
                            n = n + 1;
                        }
                    } else {
                        break ;
                    }
                },
                None => {
                    break ;
                },
            }
        }
        proof {
            lemma_run_len_is_longest(start, CharClass::Whitespace);
        }
    }

    /// Reads characters for as long as `test` accepts them and returns what
    /// was read. The cursor stops before the first character that `test`
    /// turns down, or at the end of the input.
    fn consume_while<F>(&mut self, test: F) -> (text: String) where F: Fn(char) -> bool
        requires
            forall|c: char| call_requires(test, (c,)),
        ensures
            text@.len() <= old(self)@.len(),
            text@ == old(self)@.take(text@.len() as int),
            final(self)@ == old(self)@.skip(text@.len() as int),
            forall|i: int| 0 <= i < text@.len() ==> call_ensures(test, (#[trigger] text@[i],), true),
            final(self)@.len() > 0 ==> call_ensures(test, (final(self)@[0],), false),
    {
        let ghost start = self@;
        let mut result = String::new();
        loop
            invariant
                forall|c: char| call_requires(test, (c,)),
                result@.len() <= start.len(),
                result@ == start.take(result@.len() as int),
                self@ == start.skip(result@.len() as int),
                forall|i: int|
                    0 <= i < result@.len() ==> call_ensures(test, (#[trigger] result@[i],), true),
            ensures
                self@.len() > 0 ==> call_ensures(test, (self@[0],), false),
            decreases self@.len(),
        {
            match self.peek() {
                Some(ch) => {
                    if test(ch) {
                        result.push(ch);
                        self.advance();
                    } else {
                        break ;
                    }
                },
                None => {
                    break ;
                },
            }
        }
        result
    }
}

/// Whether `c` may continue a word.
fn continues_word(c: char) -> (b: bool)
    ensures
        b == is_word_part(c),
{
    c.is_alphanumeric() || c == '_'
}

/// Whether `c` is a decimal digit.
fn is_decimal_digit(c: char) -> (b: bool)
    ensures
        b == is_digit(c),
{
    '0' <= c && c <= '9'
}

/// Whether `text` is one of the reserved words.
fn is_keyword(text: &str) -> (reserved: bool)
    ensures
        reserved == is_reserved(text@),
{
    let n: usize = text.unicode_len();
    let is_if = n == 2 && text.get_char(0) == 'i' && text.get_char(1) == 'f';
    let is_int = n == 3 && text.get_char(0) == 'i' && text.get_char(1) == 'n' && text.get_char(2)
        == 't';
    proof {
        if is_if {
            assert(text@ =~= word_if());
        }
        if is_int {
            assert(text@ =~= word_int());
        }
    }
    is_if || is_int
}

} // verus!
