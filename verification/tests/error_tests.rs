use lib::ast::AST;
use lib::parsing::{Parser, ParserError, ParserErrorKind};
use lib::token::TokenType;
use lib::types::{Primitive, Type, TypeTable};

fn module_error(src: &str, prelude: bool) -> ParserError {
    let mut parser = Parser::from_string(src.to_string());
    match parser.parse_module(prelude) {
        Ok(_) => panic!("expected an error for {:?}", src),
        Err(e) => e,
    }
}

fn expression_error(src: &str, prelude: bool) -> ParserError {
    let mut parser = Parser::from_string(src.to_string());
    match parser.parse_tl_expression(prelude) {
        Ok(_) => panic!("expected an error for {:?}", src),
        Err(e) => e,
    }
}

fn error_with_table(src: &str, tm: &TypeTable) -> ParserError {
    let mut parser = Parser::from_string(src.to_string());
    let mut ast = AST::new();
    match parser.parse_expression(&mut ast, tm) {
        Ok(_) => panic!("expected an error for {:?}", src),
        Err(e) => e,
    }
}

#[test]
fn unexpected_lambda_argument() {
    let e = module_error("f 1 = 2", false);
    assert!(matches!(e.kind, ParserErrorKind::UnexpectedLambdaArgument(ref v) if v == "1"));
}

#[test]
fn expected_lambda_identifier() {
    let e = module_error("f (1) = 2", false);
    assert!(matches!(e.kind, ParserErrorKind::ExpectedLambdaIdentifier));
}

#[test]
fn string_type_malformed() {
    let mut tm = TypeTable::new();
    tm.insert("String".to_string(), Type::Primitive(Primitive::Char));
    let e = error_with_table("\"a\"", &tm);
    assert!(matches!(e.kind, ParserErrorKind::StringTypeMalformed));

    let mut tm = TypeTable::new();
    tm.insert(
        "String".to_string(),
        Type::Alias(
            "String".to_string(),
            Box::new(Type::Union("List".to_string(), vec![Type::Primitive(Primitive::Int64)])),
        ),
    );
    let e = error_with_table("\"a\"", &tm);
    assert!(matches!(e.kind, ParserErrorKind::StringTypeMalformed));
}

#[test]
fn string_type_missing() {
    let e = expression_error("\"a\"", false);
    assert!(matches!(e.kind, ParserErrorKind::StringTypeMissing));
}

#[test]
fn list_constructors_missing() {
    let mut tm = TypeTable::new();
    tm.insert(
        "String".to_string(),
        Type::Alias(
            "String".to_string(),
            Box::new(Type::Union("List".to_string(), vec![Type::Primitive(Primitive::Char)])),
        ),
    );
    let e = error_with_table("\"a\"", &tm);
    assert!(matches!(e.kind, ParserErrorKind::ListConstructorsMissing));
}

#[test]
fn unbound_identifier() {
    let e = expression_error("x", false);
    assert!(matches!(e.kind, ParserErrorKind::UnboundIdentifier(ref v) if v == "x"));
    assert_eq!(e.line, 1);
    assert_eq!(e.col, 2);
}

#[test]
fn list_syntax_unavailable() {
    let e = expression_error("[1]", false);
    assert!(matches!(e.kind, ParserErrorKind::ListSyntaxUnavailable));
}

#[test]
fn unexpected_token_in_primary() {
    let e = expression_error(")", false);
    assert!(matches!(e.kind, ParserErrorKind::UnexpectedTokenInPrimary(TokenType::RParen, ref v) if v == ")"));
}

#[test]
fn expected_closing_parenthesis() {
    let e = expression_error("Nil (Nil", true);
    assert!(matches!(e.kind, ParserErrorKind::ExpectedClosingParenthesis(TokenType::LParen, _)));
}

#[test]
fn unexpected_closing_parenthesis() {
    let e = expression_error("(Nil $ Nil)", true);
    assert!(matches!(e.kind, ParserErrorKind::UnexpectedClosingParenthesis));
}

#[test]
fn unexpected_token_in_expression() {
    let e = expression_error("Nil .", true);
    assert!(matches!(e.kind, ParserErrorKind::UnexpectedTokenInExpression(TokenType::Dot, _)));
}

#[test]
fn unknown_type() {
    let e = module_error("f (x :: Foo) = x", false);
    assert!(matches!(e.kind, ParserErrorKind::UnknownType(ref v) if v == "Foo"));
}

#[test]
fn expected_token() {
    let e = module_error("1", false);
    assert!(matches!(e.kind, ParserErrorKind::Expected(TokenType::Id, TokenType::IntLit, ref v) if v == "1"));
    let e = module_error("x = 1 )", false);
    assert!(matches!(e.kind, ParserErrorKind::Expected(TokenType::Newline, TokenType::RParen, _)));
}

#[test]
fn unparsable_list_element() {
    let e = expression_error("[Nil )", true);
    assert!(matches!(e.kind, ParserErrorKind::Unparsable));
}

#[test]
fn unparsable_parenthesis() {
    let e = expression_error("(Nil ]", true);
    assert!(matches!(e.kind, ParserErrorKind::Unparsable));
}
