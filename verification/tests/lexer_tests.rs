use script_lang::lexer::{Lexer, Token};
use script_lang::tokenizer::Tokenizer;
use script_lang::types::TokenType;

fn lex(src: &str) -> Vec<Token> {
    let mut lexer = Lexer::new_with_value("main.sc".to_string(), src.to_string());
    lexer.tokenize().unwrap()
}

fn shape(tokens: &[Token]) -> Vec<(String, TokenType, usize, usize)> {
    tokens.iter().map(|t| (t.token_value(), t.token_type(), t.line(), t.column())).collect()
}

#[test]
fn lexes_a_declaration() {
    let tokens = lex("l a = 2;");
    assert_eq!(
        shape(&tokens),
        vec![
            ("l".to_string(), TokenType::Ident, 1, 1),
            ("a".to_string(), TokenType::Ident, 1, 3),
            ("=".to_string(), TokenType::Equals, 1, 5),
            ("2".to_string(), TokenType::Ident, 1, 7),
            (";".to_string(), TokenType::Semi, 1, 8),
            ("".to_string(), TokenType::Eof, 1, 8),
        ]
    );
}

#[test]
fn end_of_input_marks_the_last_token_once() {
    let tokens = lex("a\n  b");
    let eofs = tokens.iter().filter(|t| t.token_type() == TokenType::Eof).count();
    assert_eq!(eofs, 1);
    let last = tokens.last().unwrap();
    assert_eq!(last.token_type(), TokenType::Eof);
    assert_eq!((last.line(), last.column()), (2, 3));
}

#[test]
fn empty_input_gives_only_the_end() {
    let tokens = lex("");
    assert_eq!(shape(&tokens), vec![("".to_string(), TokenType::Eof, 1, 1)]);
}

#[test]
fn lexes_two_character_operators() {
    let tokens = lex("a += b -> c <= d && e || f ++ g -- h -= i *= j == k != l >= m");
    let kinds: Vec<TokenType> = tokens.iter().map(|t| t.token_type()).collect();
    assert_eq!(
        kinds,
        vec![
            TokenType::Ident,
            TokenType::AddAssign,
            TokenType::Ident,
            TokenType::RightArrow,
            TokenType::Ident,
            TokenType::Le,
            TokenType::Ident,
            TokenType::And,
            TokenType::Ident,
            TokenType::Or,
            TokenType::Ident,
            TokenType::Increment,
            TokenType::Ident,
            TokenType::Decrement,
            TokenType::Ident,
            TokenType::SubAssign,
            TokenType::Ident,
            TokenType::MulAssign,
            TokenType::Ident,
            TokenType::Eq,
            TokenType::Ident,
            TokenType::Ne,
            TokenType::Ident,
            TokenType::Ge,
            TokenType::Ident,
            TokenType::Eof,
        ]
    );
}

#[test]
fn lexes_one_character_symbols() {
    let tokens = lex("( ) , ; @ { } : [ ] & < > x");
    let kinds: Vec<TokenType> = tokens.iter().map(|t| t.token_type()).collect();
    assert_eq!(
        kinds,
        vec![
            TokenType::LeftParen,
            TokenType::RightParen,
            TokenType::Conma,
            TokenType::Semi,
            TokenType::AtSign,
            TokenType::LeftCurlyBrace,
            TokenType::RightCurlyBrace,
            TokenType::Colon,
            TokenType::LeftSquareBrace,
            TokenType::RightSquareBrace,
            TokenType::Reference,
            TokenType::Lt,
            TokenType::Gt,
            TokenType::Ident,
            TokenType::Eof,
        ]
    );
}

#[test]
fn a_lone_equals_sign_at_the_end_gives_no_token() {
    let tokens = lex("a =");
    let kinds: Vec<TokenType> = tokens.iter().map(|t| t.token_type()).collect();
    assert_eq!(kinds, vec![TokenType::Ident, TokenType::Eof]);
}

#[test]
fn an_unknown_character_is_reported() {
    colored::control::set_override(false);
    let mut lexer = Lexer::new_with_value("main.sc".to_string(), "a.".to_string());
    let err = lexer.tokenize().unwrap_err();
    assert_eq!(err, "error: Unable to process input_content\n  --> main.sc:1:2\n1 |   a.  \n   |    ^  \n");
}

#[test]
fn lexes_strings_without_their_quotes() {
    let tokens = lex("\"hi there\" 'x'");
    assert_eq!(
        shape(&tokens),
        vec![
            ("hi there".to_string(), TokenType::DoubleQuote, 1, 1),
            ("x".to_string(), TokenType::SingleQuote, 1, 12),
            ("".to_string(), TokenType::Eof, 1, 12),
        ]
    );
}

#[test]
fn lexes_a_decimal_number_with_one_point() {
    let tokens = lex("3.14 5");
    assert_eq!(tokens[0].token_value(), "3.14");
    assert_eq!(tokens[0].token_type(), TokenType::Ident);
    assert_eq!((tokens[1].token_value(), tokens[1].column()), ("5".to_string(), 6));
    let mut lexer = Lexer::new_with_value("main.sc".to_string(), "3.14.5".to_string());
    assert!(lexer.tokenize().is_err());
}

#[test]
fn lexes_a_line_comment() {
    let tokens = lex("// note\nx");
    assert_eq!(tokens[0].token_value(), " note");
    assert_eq!(tokens[0].token_type(), TokenType::SingleComment(" note".to_string(), (1, 1)));
    assert_eq!((tokens[1].line(), tokens[1].column()), (2, 1));
}

#[test]
fn unclosed_double_quote_is_reported() {
    colored::control::set_override(false);
    let mut lexer = Lexer::new_with_value("main.sc".to_string(), "x \"abc".to_string());
    let err = lexer.tokenize().unwrap_err();
    assert_eq!(err, "error: Double quote not closed\n  --> main.sc:1:3\n1 |   x \"abc  \n   |     ^  \n");
}

#[test]
fn unclosed_single_quote_is_reported() {
    colored::control::set_override(false);
    let mut lexer = Lexer::new_with_value("main.sc".to_string(), "'abc".to_string());
    let err = lexer.tokenize().unwrap_err();
    assert!(err.starts_with("error: Single quote not closed\n  --> main.sc:1:1\n"));
}

#[test]
fn lexer_reads_a_list_of_texts_in_order() {
    let mut lexer = Lexer::new_with_value_vec(vec!["a".to_string(), "b".to_string()]);
    let tokens = lexer.tokenize().unwrap();
    let values: Vec<String> = tokens.iter().map(|t| t.token_value()).collect();
    assert_eq!(values, vec!["a".to_string(), "b".to_string(), "".to_string()]);
}

#[test]
fn lexer_accessors_read_and_replace() {
    let mut lexer = Lexer::new();
    assert_eq!(lexer.input_content(), "");
    lexer.set_input_content("x".to_string());
    lexer.set_input_path("p.sc".to_string());
    lexer.set_input_content_vec(vec!["y".to_string()]);
    assert_eq!(lexer.input_content(), "x");
    assert_eq!(lexer.input_path(), "p.sc");
    assert_eq!(lexer.input_content_vec(), vec!["y".to_string()]);
    assert_eq!((lexer.line(), lexer.column()), (1, 1));
}

#[test]
fn token_debug_text_matches_debug_formatting() {
    let tokens = lex("x \"a\\b\" // c\n/* m\nn */");
    for t in &tokens {
        assert_eq!(t.debug_text(), format!("{:?}", t));
    }
}

#[test]
fn tokenizer_lexes_from_line_zero() {
    let mut tokenizer = Tokenizer::new_with_value("a = 1;".to_string());
    let tokens = tokenizer.tokenize().unwrap();
    let kinds: Vec<TokenType> = tokens.iter().map(|t| t.token_type()).collect();
    assert_eq!(
        kinds,
        vec![TokenType::Ident, TokenType::Equals, TokenType::Ident, TokenType::Semi, TokenType::Eof]
    );
    assert_eq!((tokens[0].line(), tokens[0].column()), (0, 0));
}

#[test]
fn tokenizer_accessors_read_and_replace() {
    let mut tokenizer = Tokenizer::new();
    tokenizer.set_input("z".to_string());
    tokenizer.set_input_vec(vec!["w".to_string()]);
    assert_eq!(tokenizer.input(), "z");
    assert_eq!(tokenizer.input_vec(), vec!["w".to_string()]);
    assert_eq!((tokenizer.line(), tokenizer.column()), (0, 0));
}

#[test]
fn from_tokenize_lexes_a_fresh_text() {
    let a = Lexer::from_tokenize("main.sc", "x = 1;".to_string()).unwrap();
    assert_eq!(shape(&a), shape(&lex("x = 1;")));
}

#[test]
fn tokenizer_stops_at_a_character_it_cannot_read() {
    let mut tokenizer = Tokenizer::new_with_value("a.b".to_string());
    assert!(tokenizer.try_tokenize().is_none());
    let mut ok = Tokenizer::new_with_value("a+b".to_string());
    let tokens = ok.try_tokenize().unwrap();
    assert_eq!(tokens.len(), 4);
}

#[test]
fn tokens_come_in_the_order_of_the_text() {
    let tokens = lex("a /* one\n two */ b\n  c = 'q' // end\nd");
    for w in tokens.windows(2) {
        assert!((w[0].line(), w[0].column()) <= (w[1].line(), w[1].column()));
    }
    let positions: Vec<(usize, usize)> = tokens.iter().map(|t| (t.line(), t.column())).collect();
    assert_eq!(positions, vec![(1, 1), (1, 3), (2, 8), (3, 3), (3, 5), (3, 7), (3, 11), (4, 1), (4, 1)]);
}

#[test]
fn tokenizer_tokens_come_in_the_order_of_the_text() {
    let mut tokenizer = Tokenizer::new_with_value("a /* x\ny */ b\n c".to_string());
    let tokens = tokenizer.tokenize().unwrap();
    for w in tokens.windows(2) {
        assert!((w[0].line(), w[0].column()) <= (w[1].line(), w[1].column()));
    }
    assert_eq!(tokens.last().unwrap().token_type(), TokenType::Eof);
}

#[test]
fn the_single_text_is_ignored_once_a_list_is_given() {
    let mut a = Lexer::new_with_value_vec(vec!["x + 1".to_string(), "y".to_string()]);
    let mut b = Lexer::new_with_value_vec(vec!["x + 1".to_string(), "y".to_string()]);
    b.set_input_content("z = \"unclosed".to_string());
    let ta = a.tokenize().unwrap();
    let tb = b.tokenize().unwrap();
    assert_eq!(shape(&ta), shape(&tb));
    assert_eq!(ta.len(), 5);
}
