use just_lang::pipeline::tokenize;
use just_lang::tokenize::{Keyword, Operator, Token, TokenizeError, Tokenizer};

fn feed(words: &[&str]) -> Tokenizer {
    let mut tokenizer = Tokenizer::new();
    for word in words {
        tokenizer.add_token(word.to_string()).expect("the word is taken in");
    }
    tokenizer
}

fn refused(tokenizer: &mut Tokenizer, word: &str) -> String {
    match tokenizer.add_token(word.to_string()) {
        Err(TokenizeError::NumberOutOfRange { word }) => word,
        Ok(()) => panic!("{} was taken in", word),
    }
}

fn shown(words: &[&str]) -> String {
    format!("{:?}", feed(words).tokens)
}

#[test]
fn new_tokenizer_has_no_tokens() {
    let tokenizer = Tokenizer::new();
    assert!(tokenizer.tokens.is_empty());
    assert!(tokenizer.tokens().is_empty());
}

#[test]
fn let_is_a_keyword() {
    assert!(matches!(feed(&["let"]).tokens[..], [Token::Keyword { kw: Keyword::Let }]));
}

#[test]
fn true_and_false_are_booleans() {
    assert!(matches!(
        feed(&["true", "false"]).tokens[..],
        [Token::Boolean { value: true }, Token::Boolean { value: false }]
    ));
}

#[test]
fn operators_are_recognised() {
    assert!(matches!(
        feed(&["=", "+", "-", "*", "/"]).tokens[..],
        [
            Token::Operator { op: Operator::Equals },
            Token::Operator { op: Operator::Plus },
            Token::Operator { op: Operator::Subtract },
            Token::Operator { op: Operator::Multiply },
            Token::Operator { op: Operator::Divide },
        ]
    ));
}

#[test]
fn numbers_are_recognised() {
    assert!(matches!(
        feed(&["0", "42", "-17", "007"]).tokens[..],
        [
            Token::Number { value: 0 },
            Token::Number { value: 42 },
            Token::Number { value: -17 },
            Token::Number { value: 7 },
        ]
    ));
}

#[test]
fn number_range_is_that_of_64_signed_bits() {
    assert!(matches!(
        feed(&["9223372036854775807", "-9223372036854775808"]).tokens[..],
        [Token::Number { value: i64::MAX }, Token::Number { value: i64::MIN }]
    ));
}

#[test]
fn number_out_of_range_is_refused() {
    for word in ["9223372036854775808", "-9223372036854775809", "99999999999999999999999"] {
        let mut tokenizer = Tokenizer::new();
        assert_eq!(refused(&mut tokenizer, word), word);
        assert!(tokenizer.tokens.is_empty());
    }
}

#[test]
fn number_out_of_range_is_refused_with_leading_zeros() {
    let mut tokenizer = Tokenizer::new();
    assert_eq!(refused(&mut tokenizer, "009223372036854775808"), "009223372036854775808");
}

#[test]
fn number_out_of_range_between_brackets_is_refused() {
    for (word, inside) in [
        ("[9223372036854775808]", "9223372036854775808"),
        ("[9223372036854775808", "9223372036854775808"),
        ("-9223372036854775809]", "-9223372036854775809"),
        ("[[99999999999999999999]", "99999999999999999999"),
    ] {
        let mut tokenizer = feed(&["x", "[1"]);
        let before = format!("{:?}", tokenizer);
        assert_eq!(refused(&mut tokenizer, word), inside);
        assert_eq!(format!("{:?}", tokenizer), before);
    }
}

#[test]
fn refused_word_leaves_the_tokenizer_as_it_was() {
    let mut tokenizer = feed(&["let", "x", "=", "[1", "2"]);
    let before = format!("{:?}", tokenizer);
    assert_eq!(refused(&mut tokenizer, "9223372036854775808"), "9223372036854775808");
    assert_eq!(format!("{:?}", tokenizer), before);
    tokenizer.add_token("3]".to_string()).unwrap();
    assert_eq!(
        format!("{:?}", tokenizer.tokens),
        "[Keyword { kw: Let }, Variable { identifier: \"x\" }, Operator { op: Equals }, \
         Array { value: [Number { value: 1 }, Number { value: 2 }, Number { value: 3 }] }]"
    );
}

#[test]
fn number_out_of_range_inside_a_string_is_text() {
    assert_eq!(
        shown(&["\"a", "9223372036854775808", "[99999999999999999999", "b\""]),
        "[]"
    );
    assert_eq!(
        shown(&["\"a", "9223372036854775808", "b\""]),
        "[String { value: \"a 9223372036854775808 b\" }]"
    );
    assert_eq!(
        shown(&["\"99999999999999999999\""]),
        "[String { value: \"99999999999999999999\" }]"
    );
}

#[test]
fn digits_with_another_character_are_a_variable_however_long() {
    assert_eq!(
        shown(&["99999999999999999999x", "-", "9223372036854775808-", "+9223372036854775808"]),
        "[Variable { identifier: \"99999999999999999999x\" }, Operator { op: Subtract }, \
         Variable { identifier: \"9223372036854775808-\" }, \
         Variable { identifier: \"+9223372036854775808\" }]"
    );
}

#[test]
fn tokenize_error_message() {
    let error = TokenizeError::NumberOutOfRange { word: "123".to_string() };
    assert_eq!(error.message(), "Number out of range 123");
}

#[test]
fn long_number_with_leading_zeros_is_in_range() {
    assert!(matches!(
        feed(&["0000000000000000000000000000012"]).tokens[..],
        [Token::Number { value: 12 }]
    ));
}

#[test]
fn words_that_only_look_like_numbers_are_variables() {
    assert_eq!(
        shown(&["+5", "1.5", "--3", "12a", "1_000"]),
        "[Variable { identifier: \"+5\" }, Variable { identifier: \"1.5\" }, \
         Variable { identifier: \"--3\" }, Variable { identifier: \"12a\" }, \
         Variable { identifier: \"1_000\" }]"
    );
}

#[test]
fn bare_word_is_a_variable() {
    assert_eq!(shown(&["foo"]), "[Variable { identifier: \"foo\" }]");
}

#[test]
fn keywords_match_exactly() {
    assert_eq!(
        shown(&["Let", "lets", "TRUE"]),
        "[Variable { identifier: \"Let\" }, Variable { identifier: \"lets\" }, \
         Variable { identifier: \"TRUE\" }]"
    );
}

#[test]
fn empty_word_is_a_variable_without_a_name() {
    assert_eq!(shown(&[""]), "[Variable { identifier: \"\" }]");
}

#[test]
fn one_word_string() {
    assert_eq!(shown(&["\"hello\""]), "[String { value: \"hello\" }]");
}

#[test]
fn one_word_string_loses_every_outer_quote() {
    assert_eq!(
        shown(&["\"\"hi\"\"", "\"", "\"a\"b\""]),
        "[String { value: \"hi\" }, String { value: \"\" }, String { value: \"a\\\"b\" }]"
    );
}

#[test]
fn split_string_is_joined_by_spaces() {
    assert_eq!(shown(&["\"hello", "world\""]), "[String { value: \"hello world\" }]");
}

#[test]
fn split_string_of_three_words() {
    assert_eq!(shown(&["\"a", "b", "c\""]), "[String { value: \"a b c\" }]");
}

#[test]
fn open_string_emits_nothing() {
    assert!(feed(&["\"hello", "there"]).tokens.is_empty());
}

#[test]
fn words_inside_a_string_are_not_classified() {
    assert_eq!(
        shown(&["\"let", "1", "+", "true", "x\""]),
        "[String { value: \"let 1 + true x\" }]"
    );
}

#[test]
fn tokenizer_is_ready_again_after_a_string() {
    assert_eq!(
        shown(&["\"a", "b\"", "c", "\"d", "e\""]),
        "[String { value: \"a b\" }, Variable { identifier: \"c\" }, String { value: \"d e\" }]"
    );
}

#[test]
fn bracketed_span_is_one_array() {
    let tokenizer = feed(&["[1", "2", "3]"]);
    assert_eq!(tokenizer.tokens.len(), 1);
    match &tokenizer.tokens[0] {
        Token::Array { value } => assert!(matches!(
            value[..],
            [Token::Number { value: 1 }, Token::Number { value: 2 }, Token::Number { value: 3 }]
        )),
        other => panic!("not an array: {:?}", other),
    }
}

#[test]
fn array_in_one_word() {
    assert_eq!(shown(&["[7]"]), "[Array { value: [Number { value: 7 }] }]");
}

#[test]
fn array_of_two_words() {
    assert_eq!(
        shown(&["[x", "true]"]),
        "[Array { value: [Variable { identifier: \"x\" }, Boolean { value: true }] }]"
    );
}

#[test]
fn open_array_emits_nothing() {
    assert!(feed(&["[1", "2"]).tokens.is_empty());
}

#[test]
fn array_elements_are_classified_like_other_words() {
    assert_eq!(
        shown(&["[let", "+", "-5", "\"s\"", "y]"]),
        "[Array { value: [Keyword { kw: Let }, Operator { op: Plus }, Number { value: -5 }, \
         String { value: \"s\" }, Variable { identifier: \"y\" }] }]"
    );
}

#[test]
fn tokenizer_is_ready_again_after_an_array() {
    assert_eq!(
        shown(&["[1", "2]", "x", "[3", "4]"]),
        "[Array { value: [Number { value: 1 }, Number { value: 2 }] }, \
         Variable { identifier: \"x\" }, \
         Array { value: [Number { value: 3 }, Number { value: 4 }] }]"
    );
}

#[test]
fn tokens_before_an_array_stay_in_the_output() {
    assert_eq!(
        shown(&["let", "a", "=", "[1", "2]"]),
        "[Keyword { kw: Let }, Variable { identifier: \"a\" }, Operator { op: Equals }, \
         Array { value: [Number { value: 1 }, Number { value: 2 }] }]"
    );
}

#[test]
fn lone_brackets_hold_variables_without_a_name() {
    assert_eq!(
        shown(&["[", "1", "]"]),
        "[Array { value: [Variable { identifier: \"\" }, Number { value: 1 }, \
         Variable { identifier: \"\" }] }]"
    );
    assert_eq!(shown(&["[]"]), "[Array { value: [Variable { identifier: \"\" }] }]");
}

#[test]
fn doubled_brackets_nest() {
    assert_eq!(
        shown(&["[[1]]"]),
        "[Array { value: [Array { value: [Number { value: 1 }] }] }]"
    );
}

#[test]
fn string_that_closes_with_the_array_is_its_last_element() {
    assert_eq!(
        shown(&["[1", "\"a", "b\"]"]),
        "[Array { value: [Number { value: 1 }, String { value: \"a b\" }] }]"
    );
}

#[test]
fn string_completed_inside_an_array_joins_the_array() {
    assert_eq!(
        shown(&["[1", "\"a", "b\"", "2]"]),
        "[Array { value: [Number { value: 1 }, String { value: \"a b\" }, \
         Number { value: 2 }] }]"
    );
}

#[test]
fn bracketed_word_that_opens_a_string_holds_the_empty_token() {
    let tokenizer = feed(&["[\"a", "b\""]);
    assert!(tokenizer.tokens.is_empty());
    let tokenizer = feed(&["[\"a", "b\"", "c]"]);
    assert_eq!(
        format!("{:?}", tokenizer.tokens),
        "[Array { value: [Nothing, String { value: \"a b\" }, Variable { identifier: \"c\" }] }]"
    );
}

#[test]
fn each_word_appends_at_most_one_token() {
    let words = [
        "let", "x", "=", "[1", "2", "[3", "4]", "\"a", "[b", "c\"", "5]", "[[6", "]", "\"", "[7]",
    ];
    let mut tokenizer = Tokenizer::new();
    for word in words {
        let before = format!("{:?}", tokenizer.tokens);
        let count = tokenizer.tokens.len();
        tokenizer.add_token(word.to_string()).unwrap();
        let after = tokenizer.tokens.len();
        assert!(after == count || after == count + 1);
        let kept = format!("{:?}", &tokenizer.tokens[..count]);
        assert_eq!(before, kept);
    }
}

#[test]
fn match_keyword_on_the_keyword_list() {
    assert!(matches!(
        Tokenizer::match_keyword("let".to_string()),
        Token::Keyword { kw: Keyword::Let }
    ));
    assert!(matches!(
        Tokenizer::match_keyword("true".to_string()),
        Token::Boolean { value: true }
    ));
    assert!(matches!(
        Tokenizer::match_keyword("false".to_string()),
        Token::Boolean { value: false }
    ));
}

#[test]
fn match_keyword_on_another_word() {
    assert!(matches!(
        Tokenizer::match_keyword("while".to_string()),
        Token::Keyword { kw: Keyword::Nothing }
    ));
}

#[test]
fn match_operator_on_the_operator_list() {
    let expected = [
        ("=", Operator::Equals),
        ("+", Operator::Plus),
        ("-", Operator::Subtract),
        ("*", Operator::Multiply),
        ("/", Operator::Divide),
        ("[", Operator::OpenSquareBrace),
        ("]", Operator::CloseSquareBrace),
    ];
    for (word, op) in expected {
        match Tokenizer::match_operator(word.to_string()) {
            Token::Operator { op: found } => assert_eq!(found, op),
            other => panic!("not an operator: {:?}", other),
        }
    }
}

#[test]
fn match_operator_on_another_word() {
    assert!(matches!(
        Tokenizer::match_operator("%".to_string()),
        Token::Operator { op: Operator::Nothing }
    ));
    assert!(matches!(
        Tokenizer::match_operator("==".to_string()),
        Token::Operator { op: Operator::Nothing }
    ));
}

#[test]
fn cloned_token_is_the_same_token() {
    let tokens = feed(&["[1", "\"a", "b\"", "x", "[true]", "let]", "-"]).into_tokens();
    let copies = tokens.clone();
    assert_eq!(format!("{:?}", tokens), format!("{:?}", copies));
    assert_eq!(copies.len(), 3);
}

#[test]
fn tokenize_splits_and_feeds() {
    assert_eq!(
        format!(
            "{:?}",
            tokenize("let x = [1, 2, 3];\nlet s = \"hello world\"".to_string()).unwrap()
        ),
        "[Keyword { kw: Let }, Variable { identifier: \"x\" }, Operator { op: Equals }, \
         Array { value: [Number { value: 1 }, Number { value: 2 }, Number { value: 3 }] }, \
         Keyword { kw: Let }, Variable { identifier: \"s\" }, Operator { op: Equals }, \
         String { value: \"hello world\" }]"
    );
}

#[test]
fn tokenize_of_empty_text() {
    assert!(tokenize(String::new()).unwrap().is_empty());
}

#[test]
fn tokenize_stops_at_the_first_refused_word() {
    match tokenize("let x = 1; let y = 9223372036854775808; let z = 99999999999999999999".to_string())
    {
        Err(TokenizeError::NumberOutOfRange { word }) => assert_eq!(word, "9223372036854775808"),
        Ok(tokens) => panic!("tokenized: {:?}", tokens),
    }
}
