use ngl::error::ErrorOf;
use ngl::lexer::Lexer;
use ngl::token::TokenOf;

fn lex(src: &str) -> Vec<ngl::token::Token> {
    let mut lexer = Lexer::new(src);
    lexer.tokenize().expect("lexes")
}

fn s(t: &str) -> String {
    t.to_string()
}

#[test]
fn peek_and_advance_walk_the_characters() {
    let mut lexer = Lexer::new("ab");
    assert_eq!(lexer.peek(), Some('a'));
    assert_eq!(lexer.peek_next(), Some('b'));
    assert_eq!(lexer.advance(), Some('a'));
    assert_eq!(lexer.peek(), Some('b'));
    assert_eq!(lexer.peek_next(), None);
    assert_eq!(lexer.advance(), Some('b'));
    assert_eq!(lexer.advance(), None);
    assert_eq!(lexer.peek(), None);
}

#[test]
fn skip_whitespace_stops_at_line_break() {
    let mut lexer = Lexer::new(" \t \nx");
    lexer.skip_whitespace();
    assert_eq!(lexer.peek(), Some('\n'));
}

#[test]
fn read_identifier_takes_letters_digits_and_underscores() {
    let mut lexer = Lexer::new("abc_1 rest");
    assert_eq!(lexer.read_identifier(), "abc_1");
    assert_eq!(lexer.peek(), Some(' '));
}

#[test]
fn read_comment_stops_before_line_break() {
    let mut lexer = Lexer::new("// note\nx");
    lexer.read_comment();
    assert_eq!(lexer.peek(), Some('\n'));
}

#[test]
fn read_number_gives_integer_or_float_text() {
    let mut lexer = Lexer::new("42;");
    assert_eq!(lexer.read_number(), TokenOf::Integer(42));
    let mut lexer = Lexer::new("3.25.5");
    assert_eq!(lexer.read_number(), TokenOf::Float(s("3.25")));
    assert_eq!(lexer.peek(), Some('.'));
}

#[test]
fn read_string_handles_escapes() {
    let mut lexer = Lexer::new("\"a\\nb\\tc\\\"d\" rest");
    assert_eq!(lexer.read_string(), TokenOf::String(s("a\nb\tc\"d")));
    assert_eq!(lexer.peek(), Some(' '));
}

#[test]
fn tokenize_let_statement() {
    assert_eq!(
        lex("let x = 1 + 2.5"),
        vec![
            TokenOf::Let,
            TokenOf::Identifier(s("x")),
            TokenOf::Assign,
            TokenOf::Integer(1),
            TokenOf::Plus,
            TokenOf::Float(s("2.5")),
            TokenOf::EOF,
        ]
    );
}

#[test]
fn tokenize_operators_with_and_without_equals() {
    assert_eq!(
        lex("== != >= <= = ! > < / * % -"),
        vec![
            TokenOf::Equal,
            TokenOf::NotEqual,
            TokenOf::GreaterEqual,
            TokenOf::LessEqual,
            TokenOf::Assign,
            TokenOf::Not,
            TokenOf::Greater,
            TokenOf::Less,
            TokenOf::Divide,
            TokenOf::Multiply,
            TokenOf::Modulo,
            TokenOf::Minus,
            TokenOf::EOF,
        ]
    );
}

#[test]
fn tokenize_keywords_and_words() {
    assert_eq!(
        lex("fn class new this and or not import_py download from foo"),
        vec![
            TokenOf::Function,
            TokenOf::Class,
            TokenOf::New,
            TokenOf::This,
            TokenOf::And,
            TokenOf::Or,
            TokenOf::Not,
            TokenOf::ImportPy,
            TokenOf::Download,
            TokenOf::From,
            TokenOf::Identifier(s("foo")),
            TokenOf::EOF,
        ]
    );
}

#[test]
fn tokenize_keeps_line_breaks_and_drops_comments() {
    assert_eq!(
        lex("1 // one\n2"),
        vec![TokenOf::Integer(1), TokenOf::Newline, TokenOf::Integer(2), TokenOf::EOF]
    );
}

#[test]
fn tokenize_brackets_and_punctuation() {
    assert_eq!(
        lex("a.b([1], {});"),
        vec![
            TokenOf::Identifier(s("a")),
            TokenOf::Dot,
            TokenOf::Identifier(s("b")),
            TokenOf::LParen,
            TokenOf::LBracket,
            TokenOf::Integer(1),
            TokenOf::RBracket,
            TokenOf::Comma,
            TokenOf::LBrace,
            TokenOf::RBrace,
            TokenOf::RParen,
            TokenOf::Semicolon,
            TokenOf::EOF,
        ]
    );
}

#[test]
fn tokenize_rejects_an_invalid_character() {
    let mut lexer = Lexer::new("let a = @");
    assert_eq!(lexer.tokenize(), Err(ErrorOf::Syntax(s("无效字符: '@'"))));
}

#[test]
fn tokenize_integer_too_large_is_zero() {
    assert_eq!(lex("99999999999999999999"), vec![TokenOf::Integer(0), TokenOf::EOF]);
}

#[test]
fn tokenize_empty_source_is_just_eof() {
    assert_eq!(lex(""), vec![TokenOf::EOF]);
    assert_eq!(lex("   "), vec![TokenOf::EOF]);
}

#[test]
fn tokenize_unterminated_string_runs_to_the_end() {
    assert_eq!(lex("\"abc"), vec![TokenOf::String(s("abc")), TokenOf::EOF]);
}

#[test]
fn lexing_the_text_of_an_integer_gives_it_back() {
    for n in [0i64, 7, 12345, i64::MAX] {
        assert_eq!(lex(&n.to_string()), vec![TokenOf::Integer(n), TokenOf::EOF]);
    }
}

#[test]
fn every_token_list_ends_with_one_eof() {
    for src in ["let a = 1", "print \"x\"\n", "fn f() { return 1 }", ""] {
        let ts = lex(src);
        assert_eq!(ts.last(), Some(&TokenOf::EOF));
        assert_eq!(ts.iter().filter(|t| **t == TokenOf::EOF).count(), 1);
    }
}

#[test]
fn identifiers_continue_with_any_alphanumeric_character() {
    assert_eq!(
        lex("a变量2 = 1"),
        vec![TokenOf::Identifier(s("a变量2")), TokenOf::Assign, TokenOf::Integer(1), TokenOf::EOF]
    );
}

#[test]
fn non_ascii_white_space_separates_tokens() {
    assert_eq!(lex("1\u{3000}2"), vec![TokenOf::Integer(1), TokenOf::Integer(2), TokenOf::EOF]);
}
