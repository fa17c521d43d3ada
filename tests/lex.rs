use lox::scanner::{scan_all, LexError, LexErrorKind, Lox};
use lox::token::{LiteralValue, Token, TokenType};

fn kinds(tokens: &[Token]) -> Vec<TokenType> {
    tokens.iter().map(|t| t.token_type).collect()
}

#[test]
fn lex_test() {
    let file = "let x = \"smth\";";
    let mut lex = Lox::new(file);
    let a = lex.get_token_list();
    let a_correct = vec![
        Token::new(TokenType::LET, LiteralValue::Nil, 1, "let".to_string()),
        Token::new(TokenType::IDENTIFIER, LiteralValue::Nil, 1, "x".to_string()),
        Token::new(TokenType::EQUAL, LiteralValue::Nil, 1, "=".to_string()),
        Token::new(
            TokenType::STRING,
            LiteralValue::String("smth".to_string()),
            1,
            "\"smth\"".to_string(),
        ),
        Token::new(TokenType::SEMICOLON, LiteralValue::Nil, 1, ";".to_string()),
        Token::new(TokenType::EOF, LiteralValue::Nil, 1, "".to_string()),
    ];
    assert_eq!(a.len(), a_correct.len());
    for i in 0..a.len() {
        assert_eq!(a[i].to_string(), a_correct[i].to_string());
    }
    assert!(!lex.had_error());
}

#[test]
fn round_trip_kinds_and_literals() {
    let (tokens, errors) = scan_all("let x = \"smth\";");
    assert!(errors.is_empty());
    assert_eq!(
        kinds(&tokens),
        vec![
            TokenType::LET,
            TokenType::IDENTIFIER,
            TokenType::EQUAL,
            TokenType::STRING,
            TokenType::SEMICOLON,
            TokenType::EOF
        ]
    );
    match &tokens[3].literal {
        LiteralValue::String(s) => assert_eq!(s, "smth"),
        _ => panic!("string literal expected"),
    }
    assert_eq!(tokens[5].lexeme, "");
}

#[test]
fn line_comment_contributes_no_tokens() {
    let (tokens, errors) = scan_all("// a comment\n1");
    assert!(errors.is_empty());
    assert_eq!(kinds(&tokens), vec![TokenType::NUMBER, TokenType::EOF]);
    assert_eq!(tokens[0].line, 2);
    assert_eq!(tokens[1].line, 2);
}

#[test]
fn block_comment_contributes_no_tokens() {
    let (tokens, errors) = scan_all("/* one\ntwo */ 1");
    assert!(errors.is_empty());
    assert_eq!(kinds(&tokens), vec![TokenType::NUMBER, TokenType::EOF]);
    assert_eq!(tokens[0].line, 2);
}

#[test]
fn unterminated_block_comment_reports_opening_line() {
    let (tokens, errors) = scan_all("1\n/* never\nclosed\n");
    assert_eq!(kinds(&tokens), vec![TokenType::NUMBER, TokenType::EOF]);
    assert_eq!(errors, vec![LexError { line: 2, kind: LexErrorKind::UnterminatedComment }]);
    assert_eq!(tokens[1].line, 4);
}

#[test]
fn maximal_munch_less_equal() {
    let (tokens, _) = scan_all("<=");
    assert_eq!(kinds(&tokens), vec![TokenType::LESS_EQUAL, TokenType::EOF]);
    assert_eq!(tokens[0].lexeme, "<=");
    let (tokens, _) = scan_all("< =");
    assert_eq!(kinds(&tokens), vec![TokenType::LESS, TokenType::EQUAL, TokenType::EOF]);
    let (tokens, _) = scan_all("!= == >= ! = >");
    assert_eq!(
        kinds(&tokens),
        vec![
            TokenType::BANG_EQUAL,
            TokenType::EQUAL_EQUAL,
            TokenType::GREATER_EQUAL,
            TokenType::BANG,
            TokenType::EQUAL,
            TokenType::GREATER,
            TokenType::EOF
        ]
    );
}

#[test]
fn trailing_dot_is_not_part_of_number() {
    let (tokens, errors) = scan_all("3.");
    assert!(errors.is_empty());
    assert_eq!(kinds(&tokens), vec![TokenType::NUMBER, TokenType::DOT, TokenType::EOF]);
    assert_eq!(tokens[0].lexeme, "3");
    assert_eq!(tokens[1].lexeme, ".");
}

#[test]
fn number_with_fraction() {
    let (tokens, _) = scan_all("45.67;");
    assert_eq!(kinds(&tokens), vec![TokenType::NUMBER, TokenType::SEMICOLON, TokenType::EOF]);
    assert_eq!(tokens[0].lexeme, "45.67");
    match &tokens[0].literal {
        LiteralValue::Number(n) => {
            assert_eq!(n.whole, "45");
            assert_eq!(n.fraction, "67");
        }
        _ => panic!("number literal expected"),
    }
    assert_eq!(tokens[0].to_string(), "Number 45.67 45.67");
}

#[test]
fn number_text_is_shortest_decimal() {
    let (tokens, _) = scan_all("007.50 1.0 0");
    assert_eq!(tokens[0].to_string(), "Number 007.50 7.5");
    assert_eq!(tokens[1].to_string(), "Number 1.0 1");
    assert_eq!(tokens[2].to_string(), "Number 0 0");
}

#[test]
fn unexpected_character_is_reported_and_skipped() {
    let (tokens, errors) = scan_all("1 @ 2");
    assert_eq!(kinds(&tokens), vec![TokenType::NUMBER, TokenType::NUMBER, TokenType::EOF]);
    assert_eq!(errors, vec![LexError { line: 1, kind: LexErrorKind::UnexpectedCharacter }]);
}

#[test]
fn unterminated_string_is_reported() {
    let mut lox = Lox::new("x \"abc\ndef");
    let tokens = lox.get_token_list();
    assert_eq!(kinds(&tokens), vec![TokenType::IDENTIFIER, TokenType::EOF]);
    assert!(lox.had_error());
    assert_eq!(lox.errors().clone(), vec![LexError { line: 2, kind: LexErrorKind::UnterminatedString }]);
}

#[test]
fn string_token_keeps_starting_line() {
    let (tokens, errors) = scan_all("\"a\nb\" x");
    assert!(errors.is_empty());
    assert_eq!(kinds(&tokens), vec![TokenType::STRING, TokenType::IDENTIFIER, TokenType::EOF]);
    assert_eq!(tokens[0].line, 1);
    assert_eq!(tokens[1].line, 2);
    assert_eq!(tokens[0].lexeme, "\"a\nb\"");
}

#[test]
fn keywords_and_identifiers() {
    let (tokens, _) = scan_all("and box else false for fun if let nil or print return self super true while whiles _x x_1");
    assert_eq!(
        kinds(&tokens),
        vec![
            TokenType::AND,
            TokenType::BOX,
            TokenType::ELSE,
            TokenType::FALSE,
            TokenType::FOR,
            TokenType::FUN,
            TokenType::IF,
            TokenType::LET,
            TokenType::NIL,
            TokenType::OR,
            TokenType::PRINT,
            TokenType::RETURN,
            TokenType::SELF,
            TokenType::SUPER,
            TokenType::TRUE,
            TokenType::WHILE,
            TokenType::IDENTIFIER,
            TokenType::IDENTIFIER,
            TokenType::IDENTIFIER,
            TokenType::EOF
        ]
    );
    assert_eq!(tokens[17].lexeme, "x");
    assert_eq!(tokens[18].lexeme, "x_1");
}

#[test]
fn punctuation() {
    let (tokens, errors) = scan_all("(){},.-+;/ *\t\r");
    assert!(errors.is_empty());
    assert_eq!(
        kinds(&tokens),
        vec![
            TokenType::LEFT_PAREN,
            TokenType::RIGHT_PAREN,
            TokenType::LEFT_BRACE,
            TokenType::RIGHT_BRACE,
            TokenType::COMMA,
            TokenType::DOT,
            TokenType::MINUS,
            TokenType::PLUS,
            TokenType::SEMICOLON,
            TokenType::SLASH,
            TokenType::STAR,
            TokenType::EOF
        ]
    );
}

#[test]
fn empty_source_gives_only_end_of_input() {
    let (tokens, errors) = scan_all("");
    assert!(errors.is_empty());
    assert_eq!(kinds(&tokens), vec![TokenType::EOF]);
    assert_eq!(tokens[0].line, 1);
    assert_eq!(tokens[0].to_string(), "EOF  Nil");
}

#[test]
fn scanner_primitives() {
    let mut lox = Lox::new("ab=");
    assert_eq!(lox.peek_by(0), Some('a'));
    assert_eq!(lox.peek_by(2), Some('='));
    assert_eq!(lox.peek_by(3), None);
    assert_eq!(lox.advance(), Some('a'));
    assert!(!lox.matching('x'));
    assert!(lox.matching('b'));
    assert_eq!(lox.advance_by(1), Some('='));
    assert_eq!(lox.advance(), None);
    assert_eq!(lox.peek_by(0), None);
    assert!(!lox.had_error());
    lox.error(3, LexErrorKind::UnexpectedCharacter);
    assert!(lox.had_error());
    assert_eq!(lox.errors().clone(), vec![LexError { line: 3, kind: LexErrorKind::UnexpectedCharacter }]);
}

#[test]
fn scan_number_reads_fraction() {
    let mut lox = Lox::new("12.5x");
    assert_eq!(lox.advance(), Some('1'));
    let n = lox.scan_number();
    assert_eq!(n.whole, "12");
    assert_eq!(n.fraction, "5");
    assert_eq!(n.to_string(), "12.5");
    assert_eq!(lox.peek_by(0), Some('x'));
}

#[test]
fn scan_identifier_and_keyword() {
    let mut lox = Lox::new("while1 x");
    lox.advance();
    assert_eq!(lox.scan_identifier(), TokenType::IDENTIFIER);
    assert_eq!(lox.peek_by(0), Some(' '));
    let mut lox = Lox::new("while");
    lox.advance();
    assert_eq!(lox.scan_identifier(), TokenType::WHILE);
}

#[test]
fn scan_string_returns_contents() {
    let mut lox = Lox::new("\"ab\" c");
    lox.advance();
    assert_eq!(lox.scan_string(), Some("ab".to_string()));
    assert_eq!(lox.peek_by(1), Some('c'));
    let mut lox = Lox::new("\"ab");
    lox.advance();
    assert_eq!(lox.scan_string(), None);
    assert!(lox.had_error());
}
