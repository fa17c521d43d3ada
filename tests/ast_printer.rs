use lox::ast::{Expr, Object};
use lox::parser::{ParseMessage, Parser};
use lox::printer::AstPrinter;
use lox::scanner::scan_all;
use lox::token::{LiteralValue, Number, Token, TokenType};

fn print_source(source: &str) -> Result<String, (TokenType, String, ParseMessage)> {
    let (tokens, errors) = scan_all(source);
    assert!(errors.is_empty());
    let mut parser = Parser::new(tokens);
    match parser.parse() {
        Ok(expr) => Ok(AstPrinter {}.visit_expr(&expr)),
        Err(e) => Err((e.token.token_type, e.token.lexeme.clone(), e.message)),
    }
}

#[test]
fn ast_printer_test() {
    let some_expr = Expr::Binary {
        left: Box::new(Expr::Unary {
            operator: Token {
                token_type: TokenType::MINUS,
                line: 1,
                lexeme: "-".to_string(),
                literal: LiteralValue::Nil,
            },
            right: Box::new(Expr::Literal {
                value: Object::Number(Number { whole: "123".to_string(), fraction: String::new() }),
            }),
        }),
        operator: Token {
            token_type: TokenType::STAR,
            line: 1,
            lexeme: "*".to_string(),
            literal: LiteralValue::Nil,
        },
        right: Box::new(Expr::Grouping {
            expression: Box::new(Expr::Literal {
                value: Object::Number(Number { whole: "45".to_string(), fraction: "67".to_string() }),
            }),
        }),
    };
    let mut ast_printer = AstPrinter {};
    let string = ast_printer.visit_expr(&some_expr);
    assert_eq!(string, "(* (- 123) (group 45.67))")
}

#[test]
fn precedence_unary_and_factor() {
    assert_eq!(print_source("-123 * 45.67").unwrap(), "(* (- 123) 45.67)");
}

#[test]
fn precedence_grouping() {
    assert_eq!(print_source("(1 + 2) * 3").unwrap(), "(* (group (+ 1 2)) 3)");
    assert_eq!(print_source("1 + 2 * 3").unwrap(), "(+ 1 (* 2 3))");
}

#[test]
fn subtraction_is_left_associative() {
    assert_eq!(print_source("1 - 2 - 3").unwrap(), "(- (- 1 2) 3)");
    assert_eq!(print_source("8 / 4 / 2").unwrap(), "(/ (/ 8 4) 2)");
}

#[test]
fn equality_and_comparison() {
    assert_eq!(print_source("1 == 2 != 3").unwrap(), "(!= (== 1 2) 3)");
    assert_eq!(print_source("1 < 2 == 3 >= 4").unwrap(), "(== (< 1 2) (>= 3 4))");
    assert_eq!(print_source("1 <= 2 > 3").unwrap(), "(> (<= 1 2) 3)");
}

#[test]
fn literals_render_canonically() {
    assert_eq!(print_source("!true").unwrap(), "(! true)");
    assert_eq!(print_source("false").unwrap(), "false");
    assert_eq!(print_source("nil").unwrap(), "nil");
    assert_eq!(print_source("\"hi\" + \"x\"").unwrap(), "(+ hi x)");
    assert_eq!(print_source("- -2.50").unwrap(), "(- (- 2.5))");
}

#[test]
fn missing_right_paren_is_reported_at_end() {
    let r = print_source("(1 + 2");
    assert_eq!(r, Err((TokenType::EOF, String::new(), ParseMessage::ExpectRightParen)));
}

#[test]
fn missing_operand_is_reported_at_token() {
    let r = print_source("1 + )");
    assert_eq!(r, Err((TokenType::RIGHT_PAREN, ")".to_string(), ParseMessage::ExpectExpression)));
    let r = print_source("");
    assert_eq!(r, Err((TokenType::EOF, String::new(), ParseMessage::ExpectExpression)));
}

#[test]
fn trailing_tokens_are_left_in_place() {
    let (tokens, _) = scan_all("1 2");
    let mut parser = Parser::new(tokens);
    let e = parser.parse().ok().unwrap();
    assert_eq!(AstPrinter {}.visit_expr(&e), "1");
    assert_eq!(parser.peek().lexeme, "2");
}

#[test]
fn sync_stops_after_semicolon() {
    let (tokens, _) = scan_all("a b ; c");
    let mut parser = Parser::new(tokens);
    parser.sync();
    assert_eq!(parser.peek().lexeme, "c");
    assert_eq!(parser.previous().token_type, TokenType::SEMICOLON);
}

#[test]
fn sync_stops_before_statement_keyword() {
    let (tokens, _) = scan_all("a b let c");
    let mut parser = Parser::new(tokens);
    parser.sync();
    assert_eq!(parser.peek().token_type, TokenType::LET);
    let (tokens, _) = scan_all("a b");
    let mut parser = Parser::new(tokens);
    parser.sync();
    assert!(parser.is_at_end());
}

#[test]
fn check_and_advance() {
    let (tokens, _) = scan_all("( 1");
    let mut parser = Parser::new(tokens);
    assert!(parser.check(TokenType::LEFT_PAREN));
    parser.advance();
    assert!(parser.check(TokenType::NUMBER));
    parser.advance();
    assert!(parser.is_at_end());
    assert!(!parser.check(TokenType::EOF));
    parser.advance();
    assert!(parser.is_at_end());
}
