use dumb_json_parser::number::{decimal_literal, is_decimal_text};
use dumb_json_parser::parser::scalar_value;
use dumb_json_parser::text::{chars_of, string_of};
use dumb_json_parser::tokenizer::{keyword_token, push_escaped};
use dumb_json_parser::{Parser, Token, Tokenizer, Value};

fn scan(doc: &str) -> Vec<Token> {
    Tokenizer::new(doc.to_string()).generate()
}

fn s(text: &str) -> Token {
    Token::Str(text.to_string())
}

fn n(text: &str) -> Token {
    Token::Number(text.to_string())
}

#[test]
fn empty_input_gives_only_the_end_marker() {
    assert_eq!(scan(""), vec![Token::Eof]);
}

#[test]
fn structural_markers_in_order() {
    assert_eq!(
        scan("{}[],:"),
        vec![
            Token::LeftBrace,
            Token::RightBrace,
            Token::LeftBracket,
            Token::RightBracket,
            Token::Comma,
            Token::Colon,
            Token::Eof,
        ]
    );
}

#[test]
fn object_tokens() {
    assert_eq!(
        scan("{\"a\":1,\"b\":2}"),
        vec![
            Token::LeftBrace,
            Token::Quote,
            s("a"),
            Token::Quote,
            Token::Colon,
            n("1"),
            Token::Comma,
            Token::Quote,
            s("b"),
            Token::Quote,
            Token::Colon,
            n("2"),
            Token::RightBrace,
            Token::Eof,
        ]
    );
}

#[test]
fn string_is_one_token_between_two_quotes() {
    assert_eq!(
        scan("\"a{,}b\""),
        vec![Token::Quote, s("a{,}b"), Token::Quote, Token::Eof]
    );
}

#[test]
fn empty_string_gives_two_quotes_and_no_text() {
    assert_eq!(scan("\"\""), vec![Token::Quote, Token::Quote, Token::Eof]);
}

#[test]
fn escaped_quote_does_not_end_the_string() {
    assert_eq!(
        scan("\"a\\\"b\""),
        vec![Token::Quote, s("a\"b"), Token::Quote, Token::Eof]
    );
}

#[test]
fn unclosed_string_runs_to_the_end() {
    assert_eq!(scan("\"abc"), vec![Token::Quote, s("abc"), Token::Eof]);
    assert_eq!(scan("\"abc\\"), vec![Token::Quote, s("abc"), Token::Eof]);
}

#[test]
fn keywords_and_numbers() {
    assert_eq!(
        scan("true false null -1.5e+3"),
        vec![
            Token::Bool(true),
            Token::Bool(false),
            Token::Null,
            n("-1.5e+3"),
            Token::Eof,
        ]
    );
}

#[test]
fn number_takes_every_number_character_greedily() {
    assert_eq!(scan("1-2"), vec![Token::Eof]);
    assert_eq!(scan("1.2.3,4"), vec![Token::Comma, n("4"), Token::Eof]);
    assert_eq!(scan("12]"), vec![n("12"), Token::RightBracket, Token::Eof]);
}

#[test]
fn whitespace_and_stray_characters_give_no_token() {
    assert_eq!(scan(" \t\n\r"), vec![Token::Eof]);
    assert_eq!(scan("@#;x+."), vec![Token::Eof]);
}

#[test]
fn alphabetic_run_may_hold_letters_beyond_ascii() {
    assert_eq!(scan("trueé,"), vec![Token::Comma, Token::Eof]);
    assert_eq!(scan("true,"), vec![Token::Bool(true), Token::Comma, Token::Eof]);
    assert_eq!(scan("null_"), vec![Token::Null, Token::Eof]);
}

#[test]
fn tokens_always_end_with_the_end_marker() {
    for doc in ["", "{", "[1,2", "not json", "\"open", "{\"a\":1}"] {
        let tokens = scan(doc);
        assert_eq!(tokens.last(), Some(&Token::Eof));
        assert_eq!(tokens.iter().filter(|t| **t == Token::Eof).count(), 1);
    }
}

#[test]
fn new_tokenizer_has_read_nothing() {
    let t = Tokenizer::new("ab".to_string());
    assert_eq!(t.input, vec!['a', 'b']);
    assert_eq!(t.pos, 0);
    assert!(!t.string_mode);
    assert_eq!(t.curr_char, None);
}

#[test]
fn advance_reads_one_character_and_stops_at_the_end() {
    let mut t = Tokenizer::new("ab".to_string());
    t.advance();
    assert_eq!((t.curr_char, t.pos), (Some('a'), 1));
    t.advance();
    assert_eq!((t.curr_char, t.pos), (Some('b'), 2));
    t.advance();
    assert_eq!((t.curr_char, t.pos), (None, 2));
    t.advance();
    assert_eq!((t.curr_char, t.pos), (None, 2));
}

#[test]
fn make_string_gathers_a_word() {
    let mut t = Tokenizer::new("true,1".to_string());
    t.advance();
    assert_eq!(t.make_string(true), "true");
    assert_eq!((t.curr_char, t.pos), (Some('e'), 4));
}

#[test]
fn make_string_gathers_text_up_to_the_quote() {
    let mut t = Tokenizer::new("a\\tb\"c".to_string());
    t.advance();
    assert_eq!(t.make_string(false), "a\tb");
    assert_eq!((t.curr_char, t.pos), (Some('b'), 4));
}

#[test]
fn make_number_gathers_number_characters() {
    let mut t = Tokenizer::new("-1e5.+x".to_string());
    t.advance();
    assert_eq!(t.make_number(), vec!['-', '1', 'e', '5', '.', '+']);
    assert_eq!((t.curr_char, t.pos), (Some('+'), 6));
}

#[test]
fn generate_leaves_nothing_to_read() {
    let mut t = Tokenizer::new("[\"a".to_string());
    let tokens = t.generate();
    assert_eq!(tokens, vec![Token::LeftBracket, Token::Quote, s("a"), Token::Eof]);
    assert_eq!((t.curr_char, t.pos), (None, 3));
    assert!(t.string_mode);
}

#[test]
fn push_escaped_maps_each_code() {
    let mut text = String::from("x");
    for c in ['"', '\\', '/', 'b', 'f', 'n', 'r', 't', 'q', 'u'] {
        push_escaped(&mut text, c);
    }
    assert_eq!(text, "x\"\\/\u{0008}\u{000c}\n\r\t");
}

#[test]
fn chars_and_strings_convert_both_ways() {
    assert_eq!(chars_of("héllo"), vec!['h', 'é', 'l', 'l', 'o']);
    assert_eq!(string_of(&vec!['h', 'é', 'l', 'l', 'o']), "héllo");
    assert_eq!(string_of(&Vec::new()), "");
}

#[test]
fn decimal_literal_agrees_with_float_parsing() {
    let samples = [
        "0", "1", "-1", "+1", "12.5", "5.", ".5", "-.5", "1e5", "1E5", "1e+5", "1e-5", "1.e5",
        ".5e1", "", "-", "+", ".", "-.", "e", "e5", ".e5", "1e", "1e+", "1e-", "1ee5", "1e5e5",
        "1.2.3", "1-2", "--1", "+-1", "1+", "1e5.", "1e5.0", "1.5e", "00", "-0", "1e+-5",
        "123456789012345678901234567890", "1e400", "0.1e-400",
    ];
    for text in samples {
        assert_eq!(is_decimal_text(text), text.parse::<f64>().is_ok(), "{:?}", text);
        let chars: Vec<char> = text.chars().collect();
        assert_eq!(decimal_literal(&chars), text.parse::<f64>().is_ok(), "{:?}", text);
    }
}

#[test]
fn decimal_literal_exact_answers() {
    assert!(is_decimal_text("-12.5e2"));
    assert!(is_decimal_text("5."));
    assert!(is_decimal_text(".5"));
    assert!(!is_decimal_text("."));
    assert!(!is_decimal_text("-"));
    assert!(!is_decimal_text("1e"));
    assert!(!is_decimal_text("1-2"));
    assert!(!is_decimal_text(""));
}

#[test]
fn scalar_value_of_each_token() {
    assert_eq!(scalar_value(&Token::Null), Some(Value::Null));
    assert_eq!(scalar_value(&Token::Bool(true)), Some(Value::Bool(true)));
    assert_eq!(scalar_value(&n("7")), Some(Value::Num("7".to_string())));
    assert_eq!(scalar_value(&s("x")), Some(Value::Str("x".to_string())));
    for t in [
        Token::LeftBrace,
        Token::RightBrace,
        Token::LeftBracket,
        Token::RightBracket,
        Token::Quote,
        Token::Comma,
        Token::Colon,
        Token::Eof,
    ] {
        assert_eq!(scalar_value(&t), None);
    }
}

#[test]
fn parser_advance_stops_at_the_end() {
    let mut p = Parser::new(vec![Token::Null, Token::Eof]);
    assert_eq!(p.curr_pos, 0);
    p.advance();
    assert_eq!(p.curr_pos, 1);
    p.advance();
    assert_eq!(p.curr_pos, 2);
    p.advance();
    assert_eq!(p.curr_pos, 2);
}

#[test]
fn parse_array_stops_on_the_closing_bracket() {
    let mut p = Parser::new(vec![
        Token::LeftBracket,
        n("1"),
        Token::Comma,
        Token::Bool(false),
        Token::RightBracket,
        Token::Null,
        Token::Eof,
    ]);
    let a = p.parse_array();
    assert_eq!(a.children, vec![Value::Num("1".to_string()), Value::Bool(false)]);
    assert_eq!(p.curr_pos, 4);
}

#[test]
fn parse_object_stops_on_the_end_marker() {
    let mut p = Parser::new(vec![
        Token::LeftBrace,
        Token::Quote,
        s("k"),
        Token::Quote,
        Token::Colon,
        Token::Null,
        Token::Comma,
        Token::Eof,
        Token::Quote,
    ]);
    let o = p.parse_object();
    assert_eq!(o.children.len(), 1);
    assert_eq!(o.children[0].lhs, "k");
    assert_eq!(o.children[0].rhs, Value::Null);
    assert_eq!(p.curr_pos, 7);
}

#[test]
fn parse_object_with_quote_as_last_token() {
    let mut p = Parser::new(vec![Token::LeftBrace, Token::Quote]);
    let o = p.parse_object();
    assert!(o.children.is_empty());
    assert_eq!(p.curr_pos, 2);
}

#[test]
fn parse_property_stops_on_comma_or_closing_brace() {
    let mut p = Parser::new(vec![
        s("k"),
        Token::Colon,
        n("1"),
        Token::Bool(true),
        Token::Comma,
        Token::Null,
    ]);
    let prop = p.parse_property("k".to_string());
    assert_eq!(prop.lhs, "k");
    assert_eq!(prop.rhs, Value::Bool(true));
    assert_eq!(p.curr_pos, 4);

    let mut q = Parser::new(vec![s("k"), Token::RightBrace, Token::Null]);
    let prop = q.parse_property("k".to_string());
    assert_eq!(prop.rhs, Value::Null);
    assert_eq!(q.curr_pos, 1);
}

#[test]
fn parser_parse_takes_the_first_value_and_stops_behind_it() {
    let mut p = Parser::new(vec![
        Token::Comma,
        Token::LeftBracket,
        Token::RightBracket,
        Token::Null,
        Token::Eof,
    ]);
    let root = p.parse();
    assert_eq!(root.child, Some(Value::Arr(dumb_json_parser::Array { children: vec![] })));
    assert_eq!(p.curr_pos, 3);

    let mut q = Parser::new(vec![Token::Colon, Token::Eof]);
    assert_eq!(q.parse().child, None);
    assert_eq!(q.curr_pos, 2);
}

#[test]
fn parser_over_no_tokens_finds_nothing() {
    let mut p = Parser::new(Vec::new());
    assert_eq!(p.parse().child, None);
    assert_eq!(p.curr_pos, 0);
}

#[test]
fn keyword_token_knows_three_words() {
    assert_eq!(keyword_token(&vec!['t', 'r', 'u', 'e']), Some(Token::Bool(true)));
    assert_eq!(keyword_token(&vec!['f', 'a', 'l', 's', 'e']), Some(Token::Bool(false)));
    assert_eq!(keyword_token(&vec!['n', 'u', 'l', 'l']), Some(Token::Null));
    assert_eq!(keyword_token(&vec!['t', 'r', 'u']), None);
    assert_eq!(keyword_token(&vec!['T', 'r', 'u', 'e']), None);
    assert_eq!(keyword_token(&vec!['n', 'u', 'l', 'l', 's']), None);
    assert_eq!(keyword_token(&Vec::new()), None);
}

#[test]
fn blank_between_tokens_leaves_the_tokens_as_they_were() {
    let doc = "{\"a\":[1,true],\"b\":null}";
    let plain = scan(doc);
    let boundaries = [0, 1, 4, 5, 6, 7, 8, 12, 13, 14, 17, 18, 22, 23];
    for k in boundaries {
        for b in [' ', '\t', '\n', '\r'] {
            let mut spaced = String::from(&doc[..k]);
            spaced.push(b);
            spaced.push_str(&doc[k..]);
            assert_eq!(scan(&spaced), plain, "{:?}", spaced);
        }
    }
}
