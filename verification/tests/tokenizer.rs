use btb::tokenizer::{Token, Tokenizer};

fn keyword(text: &str) -> Token {
    Token::Keyword(text.to_string())
}

fn identifier(text: &str) -> Token {
    Token::Identifier(text.to_string())
}

fn number(text: &str) -> Token {
    Token::Number(text.to_string())
}

fn operator(text: &str) -> Token {
    Token::Operator(text.to_string())
}

/// Pulls tokens until the tokenizer reports that there are no more.
fn tokenize(input: &str) -> Vec<Token> {
    let mut tokenizer = Tokenizer::new(input);
    let mut tokens = Vec::new();
    while let Some(token) = tokenizer.next_token() {
        tokens.push(token);
    }
    tokens
}

fn text_of(token: &Token) -> &str {
    match token {
        Token::Keyword(text) => text,
        Token::Identifier(text) => text,
        Token::Number(text) => text,
        Token::Operator(text) => text,
    }
}

#[test]
fn test_tokenizer() {
    let input = "int x = 42;";
    let mut tokenizer = Tokenizer::new(input);
    let mut tokens = Vec::new();

    while let Some(token) = tokenizer.next_token() {
        tokens.push(token);
    }

    assert_eq!(
        tokens,
        vec![
            Token::Keyword("int".to_string()),
            Token::Identifier("x".to_string()),
            Token::Operator("=".to_string()),
            Token::Number("42".to_string()),
            Token::Operator(";".to_string()),
        ]
    );
}

#[test]
fn empty_input_has_no_tokens() {
    assert_eq!(tokenize(""), vec![]);
    let mut tokenizer = Tokenizer::new("");
    assert_eq!(tokenizer.next_token(), None);
}

#[test]
fn whitespace_alone_has_no_tokens() {
    assert_eq!(tokenize("   \t\r\n  "), vec![]);
}

#[test]
fn spacing_between_tokens_does_not_matter() {
    let expected = vec![
        keyword("int"),
        identifier("x"),
        operator("="),
        number("42"),
        operator(";"),
    ];
    assert_eq!(tokenize("int x=42;"), expected);
    assert_eq!(tokenize("int   x = 42 ;"), expected);
    assert_eq!(tokenize("\n\tint\nx\r\n=\t42\n;\n"), expected);
}

#[test]
fn trailing_newline_of_a_line_is_skipped() {
    assert_eq!(tokenize("int\n"), vec![keyword("int")]);
}

#[test]
fn reserved_words_are_keywords() {
    assert_eq!(tokenize("if"), vec![keyword("if")]);
    assert_eq!(tokenize("int"), vec![keyword("int")]);
    assert_eq!(tokenize("if int if"), vec![keyword("if"), keyword("int"), keyword("if")]);
}

#[test]
fn reserved_word_inside_a_longer_word_is_no_keyword() {
    assert_eq!(tokenize("iffy"), vec![identifier("iffy")]);
    assert_eq!(tokenize("integer"), vec![identifier("integer")]);
    assert_eq!(tokenize("_if"), vec![identifier("_if")]);
    assert_eq!(tokenize("if_"), vec![identifier("if_")]);
    assert_eq!(tokenize("int1"), vec![identifier("int1")]);
    assert_eq!(tokenize("i"), vec![identifier("i")]);
    assert_eq!(tokenize("in"), vec![identifier("in")]);
}

#[test]
fn reserved_words_are_case_sensitive() {
    assert_eq!(tokenize("If"), vec![identifier("If")]);
    assert_eq!(tokenize("INT"), vec![identifier("INT")]);
    assert_eq!(tokenize("iF"), vec![identifier("iF")]);
}

#[test]
fn identifiers_take_letters_digits_and_underscores() {
    assert_eq!(tokenize("a1_b2"), vec![identifier("a1_b2")]);
    assert_eq!(tokenize("_"), vec![identifier("_")]);
    assert_eq!(tokenize("__x__"), vec![identifier("__x__")]);
    assert_eq!(tokenize("Zebra9"), vec![identifier("Zebra9")]);
    assert_eq!(tokenize("a b"), vec![identifier("a"), identifier("b")]);
}

#[test]
fn identifier_goes_on_through_letters_and_digits_of_other_scripts() {
    assert_eq!(tokenize("x\u{e9}"), vec![identifier("x\u{e9}")]);
    assert_eq!(tokenize("a\u{663}=1"), vec![identifier("a\u{663}"), operator("="), number("1")]);
    assert_eq!(tokenize("x\u{b2}"), vec![identifier("x\u{b2}")]);
    assert_eq!(tokenize("na\u{ef}ve_\u{3b1}\u{3b2} 1"), vec![
        identifier("na\u{ef}ve_\u{3b1}\u{3b2}"),
        number("1"),
    ]);
}

#[test]
fn identifier_does_not_start_with_a_letter_of_another_script() {
    assert_eq!(tokenize("\u{e9}"), vec![]);
    assert_eq!(tokenize("x \u{e9}t\u{e9}"), vec![identifier("x")]);
}

#[test]
fn digit_run_is_one_number() {
    assert_eq!(tokenize("12345"), vec![number("12345")]);
    assert_eq!(tokenize("007"), vec![number("007")]);
    assert_eq!(tokenize("0"), vec![number("0")]);
    assert_eq!(tokenize("18446744073709551616000"), vec![number("18446744073709551616000")]);
    assert_eq!(tokenize("12 34"), vec![number("12"), number("34")]);
}

#[test]
fn number_ends_where_the_digits_end() {
    assert_eq!(tokenize("42abc"), vec![number("42"), identifier("abc")]);
    assert_eq!(tokenize("42;"), vec![number("42"), operator(";")]);
    assert_eq!(tokenize("4_2"), vec![number("4"), identifier("_2")]);
    assert_eq!(tokenize("1if"), vec![number("1"), keyword("if")]);
}

#[test]
fn digits_of_other_scripts_begin_no_number() {
    assert_eq!(tokenize("\u{663}"), vec![]);
    assert_eq!(tokenize("1\u{663}"), vec![number("1")]);
}

#[test]
fn number_stops_at_a_decimal_point() {
    let mut tokenizer = Tokenizer::new("3.14");
    assert_eq!(tokenizer.next_token(), Some(number("3")));
    assert_eq!(tokenizer.next_token(), None);
    assert_eq!(tokenizer.next_token(), None);
}

#[test]
fn sign_begins_no_number() {
    assert_eq!(tokenize("-1"), vec![]);
    assert_eq!(tokenize("x = -1"), vec![identifier("x"), operator("=")]);
}

#[test]
fn operators_stand_alone() {
    assert_eq!(tokenize("="), vec![operator("=")]);
    assert_eq!(tokenize(";"), vec![operator(";")]);
    assert_eq!(tokenize("==;;"), vec![operator("="), operator("="), operator(";"), operator(";")]);
    assert_eq!(tokenize("a=b;"), vec![identifier("a"), operator("="), identifier("b"), operator(";")]);
}

#[test]
fn scanning_stops_at_an_unrecognized_character() {
    assert_eq!(tokenize("x+y"), vec![identifier("x")]);
    assert_eq!(tokenize("if (x) y = 1;"), vec![keyword("if")]);
    assert_eq!(tokenize("\"int\""), vec![]);
    assert_eq!(tokenize("a , b"), vec![identifier("a")]);
    assert_eq!(tokenize("+"), vec![]);
}

#[test]
fn end_of_tokens_is_final() {
    let mut at_end = Tokenizer::new("x");
    assert_eq!(at_end.next_token(), Some(identifier("x")));
    for _ in 0..5 {
        assert_eq!(at_end.next_token(), None);
    }

    let mut halted = Tokenizer::new("x + y = 1;");
    assert_eq!(halted.next_token(), Some(identifier("x")));
    for _ in 0..5 {
        assert_eq!(halted.next_token(), None);
    }

    let mut empty = Tokenizer::new("");
    for _ in 0..5 {
        assert_eq!(empty.next_token(), None);
    }
}

#[test]
fn recognized_input_is_read_to_its_end() {
    let input = "int   x1 = 42 ;\n\tif _y=007;;; x1 = y_2 ; int if";
    let tokens = tokenize(input);
    let spelled: String = tokens.iter().map(text_of).collect();
    let without_blanks: String = input.chars().filter(|c| !c.is_whitespace()).collect();
    assert_eq!(spelled, without_blanks);
    assert_eq!(tokens.len(), 18);
    assert_eq!(tokens[17], keyword("if"));
}

#[test]
fn token_text_is_never_empty() {
    for token in tokenize("int a=1; if b2 = 20 ; _ ; 0") {
        assert!(!text_of(&token).is_empty());
    }
}

#[test]
fn every_ascii_whitespace_character_is_skipped() {
    for blank in ['\t', '\n', '\u{b}', '\u{c}', '\r', ' '] {
        let input = format!("{}a{}{}1{}", blank, blank, blank, blank);
        assert_eq!(tokenize(&input), vec![identifier("a"), number("1")]);
    }
}

#[test]
fn whitespace_of_other_scripts_is_skipped() {
    assert_eq!(
        tokenize("\u{a0}x\u{3000}=\u{2003}1\u{85}\u{2028};\u{1680}"),
        vec![identifier("x"), operator("="), number("1"), operator(";")]
    );
}

#[test]
fn control_characters_that_are_no_whitespace_stop_the_scan() {
    assert_eq!(tokenize("a\u{0}b"), vec![identifier("a")]);
    assert_eq!(tokenize("a\u{1f}b"), vec![identifier("a")]);
    assert_eq!(tokenize("a \u{200b}b"), vec![identifier("a")]);
    assert_eq!(tokenize("\u{7f}"), vec![]);
}

#[test]
fn whitespace_before_an_unrecognized_character_is_still_skipped() {
    let mut tokenizer = Tokenizer::new("a   +   b");
    assert_eq!(tokenizer.next_token(), Some(identifier("a")));
    assert_eq!(tokenizer.next_token(), None);
    assert_eq!(tokenizer.next_token(), None);
}

#[test]
fn tokens_are_equal_by_kind_and_text() {
    assert_eq!(keyword("if"), keyword("if"));
    assert_ne!(keyword("if"), identifier("if"));
    assert_ne!(keyword("if"), keyword("int"));
    assert_ne!(number("1"), number("01"));
    assert_ne!(number("1"), identifier("1"));
    assert_ne!(operator("="), operator(";"));
    assert_eq!(operator(";"), operator(";"));
    assert_ne!(identifier("a"), identifier("b"));
    assert_ne!(operator("="), number("="));
}

#[test]
fn tokens_print_their_kind_and_text() {
    assert_eq!(format!("{:?}", keyword("int")), "Keyword(\"int\")");
    assert_eq!(format!("{:?}", identifier("x")), "Identifier(\"x\")");
    assert_eq!(format!("{:?}", number("42")), "Number(\"42\")");
    assert_eq!(format!("{:?}", operator(";")), "Operator(\";\")");
}

#[test]
fn tokens_outlive_the_input_text() {
    let tokens = {
        let input = String::from("int x;");
        tokenize(&input)
    };
    assert_eq!(tokens, vec![keyword("int"), identifier("x"), operator(";")]);
}

#[test]
fn two_tokenizers_over_one_text_do_not_disturb_each_other() {
    let input = "a b";
    let mut first = Tokenizer::new(input);
    let mut second = Tokenizer::new(input);
    assert_eq!(first.next_token(), Some(identifier("a")));
    assert_eq!(second.next_token(), Some(identifier("a")));
    assert_eq!(first.next_token(), Some(identifier("b")));
    assert_eq!(first.next_token(), None);
    assert_eq!(second.next_token(), Some(identifier("b")));
    assert_eq!(second.next_token(), None);
}
