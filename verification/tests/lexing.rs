use scebpl_system::lexer::{
    lex_sorted, lexed_number, CharClass, LexError, Lexer, Sorted, Token, UnlexedTokens,
};
use scebpl_system::number::Number;
use scebpl_system::parser::LexedTokens;

fn lex(source: &str) -> Result<Vec<Token>, LexError> {
    Lexer::new().unwrap().lex(source.to_string())
}

fn literal(text: &str) -> Number {
    Number::parse(text).unwrap()
}

fn written(tokens: &[Token]) -> String {
    tokens.iter().map(|token| token.to_string()).collect()
}

#[test]
fn empty_script_has_no_tokens() {
    assert_eq!(lex("").unwrap(), vec![]);
}

#[test]
fn a_run_of_whitespace_is_one_space() {
    assert_eq!(
        lex("a \t\n  b").unwrap(),
        vec![
            Token::Ident("a".into()),
            Token::Space,
            Token::Ident("b".into())
        ]
    );
}

#[test]
fn comma_is_a_symbol() {
    assert_eq!(
        lex("(1,2)").unwrap(),
        vec![
            Token::Param('('),
            Token::Number(literal("1")),
            Token::Symbol(','),
            Token::Number(literal("2")),
            Token::Param(')')
        ]
    );
}

#[test]
fn numbers_keep_their_digits() {
    assert_eq!(
        lex("10.00 007").unwrap(),
        vec![
            Token::Number(literal("10.00")),
            Token::Space,
            Token::Number(literal("007"))
        ]
    );
}

#[test]
fn a_number_may_end_with_its_point() {
    assert_eq!(lex("1.").unwrap(), vec![Token::Number(literal("1."))]);
}

#[test]
fn two_points_make_a_range() {
    assert_eq!(
        lex("1..5").unwrap(),
        vec![Token::Range(literal("1"), literal("5"))]
    );
    assert_eq!(
        lex("0.5..1.5;").unwrap(),
        vec![Token::Range(literal("0.5"), literal("1.5")), Token::Break]
    );
}

#[test]
fn an_unknown_character_is_named() {
    assert_eq!(
        lex("ab %"),
        Err(LexError::UnknownChar { found: '%', at: 3 })
    );
    assert_eq!(lex("#"), Err(LexError::UnknownChar { found: '#', at: 0 }));
}

#[test]
fn a_number_with_two_points_apart_is_refused() {
    assert_eq!(lex("F 1.2.3"), Err(LexError::Number { at: 2 }));
}

#[test]
fn a_range_without_end_is_refused() {
    assert_eq!(lex("1.."), Err(LexError::RangeEndMissing { at: 0 }));
}

#[test]
fn a_range_with_a_bad_start_is_refused() {
    assert_eq!(lex("1.2.3..4"), Err(LexError::RangeStart { at: 0 }));
}

#[test]
fn a_range_with_a_bad_end_is_refused() {
    assert_eq!(lex("1..2..3"), Err(LexError::RangeEnd { at: 0 }));
}

#[test]
fn lexed_number_reads_the_run_it_is_given() {
    let chars: Vec<char> = "xx12.5yy".chars().collect();
    assert_eq!(
        lexed_number(&chars, 2, 6),
        Ok(Token::Number(literal("12.5")))
    );
    assert_eq!(lexed_number(&chars, 2, 2), Err(LexError::Number { at: 2 }));
}

#[test]
fn the_texts_of_the_tokens_make_the_script() {
    let source = "lsystem Koch { axiom F; replace F by F+F-F; interpret + as Turn(0.5..1.5, 3.25); }";
    let tokens = lex(source).unwrap();
    assert_eq!(written(&tokens), source);
}

#[test]
fn whitespace_other_than_one_blank_is_written_as_one_blank() {
    let tokens = lex("a\n\tb").unwrap();
    assert_eq!(written(&tokens), "a b");
}

#[test]
fn every_token_has_its_text() {
    assert_eq!(Token::Ident("abc".into()).to_string(), "abc");
    assert_eq!(Token::Number(literal("1.50")).to_string(), "1.50");
    assert_eq!(
        Token::Range(literal("1"), literal("2.5")).to_string(),
        "1..2.5"
    );
    assert_eq!(Token::Symbol('+').to_string(), "+");
    assert_eq!(Token::Param('(').to_string(), "(");
    assert_eq!(Token::Bracket(']').to_string(), "]");
    assert_eq!(Token::Break.to_string(), ";");
    assert_eq!(Token::Parentesis('{').to_string(), "{");
    assert_eq!(Token::Space.to_string(), " ");
}

#[test]
fn the_text_cursor_moves_over_the_characters() {
    let mut text = UnlexedTokens::new("ab".to_string());
    assert!(!text.finished());
    assert_eq!(text.current_token(), "a");
    assert_eq!(UnlexedTokens::first_char("xyz"), 'x');
    text.advance();
    assert_eq!(text.current_token(), "b");
    text.advance_by(1);
    assert!(text.finished());
    text.advance_by(usize::MAX);
    text.advance();
    assert!(text.finished());
    assert!(UnlexedTokens::new(String::new()).finished());
}

#[test]
fn the_token_cursor_skips_spaces() {
    let mut tokens = LexedTokens::new(vec![
        Token::Space,
        Token::Ident("a".into()),
        Token::Space,
        Token::Break,
        Token::Space,
    ]);
    assert_eq!(
        tokens.tokens,
        vec![Token::Ident("a".into()), Token::Break]
    );
    assert!(!tokens.finished());
    assert_eq!(tokens.current_token(), Some(Token::Ident("a".into())));
    tokens.advance();
    assert_eq!(tokens.current_token_ref(), Some(&Token::Break));
    tokens.advance_by(5);
    assert!(tokens.finished());
    assert_eq!(tokens.current_token(), None);
    assert_eq!(tokens.current_token_ref(), None);
    tokens.advance_by(usize::MAX);
    tokens.advance();
    assert!(tokens.finished());
    assert!(LexedTokens::new(vec![]).finished());
}

#[test]
fn literals_are_what_the_float_parser_takes() {
    let samples = [
        "", "0", "1", "007", "1.5", "1.", ".5", ".", "..", "1..2", "1.2.3", "+1", "-1", "+", "-",
        "+-1", "1e5", "1E5", "1e", "e5", "1e+5", "1e-5", "1e+", "1.5e3", ".5e3", "1.e3", ".e3",
        "1e5.5", "1e5e5", "inf", "INF", "Inf", "+inf", "-inf", "infinity", "INFINITY", "-Infinity",
        "infinit", "infinityy", "nan", "NaN", "-nan", "+NAN", "na", "nann", "1f", "f", "0x10",
        " 1", "1 ", "1,5", "１", "٣", "1_000", "--1", "1-", "I", "in", "i",
    ];
    for sample in samples {
        assert_eq!(
            Number::parse(sample).is_some(),
            sample.parse::<f32>().is_ok(),
            "{:?}",
            sample
        );
    }
}

#[test]
fn a_literal_knows_whether_it_is_whole() {
    assert!(literal("123").is_integer());
    assert!(!literal("1.5").is_integer());
    assert!(!literal("-1").is_integer());
    assert!(!literal("1e5").is_integer());
    assert_eq!(literal("10.00").as_str(), "10.00");
    assert_eq!(
        Number::with_fraction(&literal("3"), &literal("14")),
        Some(literal("3.14"))
    );
    assert_eq!(Number::with_fraction(&literal("3.5"), &literal("14")), None);
    assert_eq!(Number::with_fraction(&literal("3"), &literal("-1")), None);
    assert_eq!(Number::parse("x"), None);
    let chars: Vec<char> = "a12b".chars().collect();
    assert_eq!(Number::from_chars(&chars, 1, 3), Some(literal("12")));
    assert_eq!(Number::from_chars(&chars, 0, 3), None);
}

const NOTHING: Sorted = Sorted {
    symbol: false,
    end: false,
    brace: false,
    bracket: false,
    param: false,
    letter: false,
    digit: false,
    blank: false,
};

/// Sorts as the patterns of the lexer do.
fn sorted(text: &str) -> Vec<(char, Sorted)> {
    text.chars()
        .map(|c| {
            (
                c,
                Sorted {
                    symbol: "+-*/><&|\\^=,.".contains(c),
                    end: c == ';',
                    brace: c == '{' || c == '}',
                    bracket: c == '[' || c == ']',
                    param: c == '(' || c == ')',
                    letter: c.is_ascii_alphabetic(),
                    digit: c.is_numeric(),
                    blank: c.is_whitespace(),
                },
            )
        })
        .collect()
}

#[test]
fn the_patterns_sort_the_characters() {
    let lexer = Lexer::new().unwrap();
    let text = "azAZ09+-*/><&|\\^=,.;{}[]() \t\n\r\u{b}\u{c}_%#@!?'\"~`$:é٣\u{a0}\u{2003}";
    assert_eq!(lexer.sort(text.to_string()), sorted(text));
    assert_eq!(lexer.sort(String::new()), vec![]);
}

#[test]
fn a_class_is_the_first_pattern_that_matches() {
    let classes = [
        CharClass::Symbol,
        CharClass::Break,
        CharClass::Parentesis,
        CharClass::Bracket,
        CharClass::Param,
        CharClass::Letter,
        CharClass::Digit,
        CharClass::Blank,
    ];
    for first in 0..classes.len() {
        // Every pattern from `first` on matches.
        let sorted = Sorted {
            symbol: first <= 0,
            end: first <= 1,
            brace: first <= 2,
            bracket: first <= 3,
            param: first <= 4,
            letter: first <= 5,
            digit: first <= 6,
            blank: first <= 7,
        };
        assert_eq!(sorted.char_class(), classes[first]);
    }
    assert_eq!(NOTHING.char_class(), CharClass::Unknown);
}

#[test]
fn a_sorted_text_is_cut_by_its_sorting() {
    // Whatever the characters are, the sorting decides.
    let letter = Sorted {
        letter: true,
        ..NOTHING
    };
    let digit = Sorted {
        digit: true,
        ..NOTHING
    };
    let blank = Sorted {
        blank: true,
        ..NOTHING
    };
    let end = Sorted {
        end: true,
        ..NOTHING
    };
    let both = Sorted {
        symbol: true,
        letter: true,
        ..NOTHING
    };
    assert_eq!(
        lex_sorted(&[
            ('1', letter),
            ('2', letter),
            ('x', digit),
            ('.', NOTHING),
            ('y', blank),
            ('z', blank),
            ('!', end),
        ]),
        Err(LexError::Number { at: 2 })
    );
    assert_eq!(
        lex_sorted(&[
            ('1', letter),
            ('2', letter),
            ('7', digit),
            ('.', NOTHING),
            ('y', blank),
            ('z', blank),
            ('!', end),
            ('#', both),
            ('a', letter),
            ('#', both),
            ('b', letter),
        ]),
        Ok(vec![
            Token::Ident("12".into()),
            Token::Number(literal("7.")),
            Token::Space,
            Token::Break,
            // A character that two patterns match starts as the first of
            // them has it, and goes on in a run as the pattern of the run
            // has it.
            Token::Symbol('#'),
            Token::Ident("a#b".into()),
        ])
    );
    assert_eq!(
        lex_sorted(&[('a', letter), ('?', NOTHING)]),
        Err(LexError::UnknownChar { found: '?', at: 1 })
    );
    assert_eq!(lex_sorted(&[]), Ok(vec![]));
}
