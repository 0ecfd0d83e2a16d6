use lib::lexer::lex;
use lib::token::TokenType;

fn kinds(src: &str) -> Vec<TokenType> {
    lex(&src.to_string()).iter().map(|t| t.tt).collect()
}

#[test]
fn lexes_an_assignment() {
    let toks = lex(&"f x = x + 1.5 // note\ng".to_string());
    let got: Vec<(TokenType, String, usize, usize)> =
        toks.iter().map(|t| (t.tt, t.value.clone(), t.line, t.col)).collect();
    assert_eq!(
        got,
        vec![
            (TokenType::Id, "f".to_string(), 1, 1),
            (TokenType::Id, "x".to_string(), 1, 3),
            (TokenType::Assignment, "=".to_string(), 1, 5),
            (TokenType::Id, "x".to_string(), 1, 7),
            (TokenType::Id, "+".to_string(), 1, 9),
            (TokenType::FloatLit, "1.5".to_string(), 1, 11),
            (TokenType::Newline, "\n".to_string(), 1, 22),
            (TokenType::Id, "g".to_string(), 2, 1),
            (TokenType::EOF, "".to_string(), 2, 2),
        ]
    );
}

#[test]
fn lexes_literals_and_keywords() {
    assert_eq!(
        kinds("match true 'c' \"str\" 'ab' 42 Cons"),
        vec![
            TokenType::Match,
            TokenType::BoolLit,
            TokenType::CharLit,
            TokenType::StringLit,
            TokenType::StringLit,
            TokenType::IntLit,
            TokenType::UppercaseId,
            TokenType::EOF,
        ]
    );
}

#[test]
fn lexes_punctuation() {
    assert_eq!(
        kinds("\\ . , :: -> ( ) [ ] { } | $"),
        vec![
            TokenType::Lambda,
            TokenType::Dot,
            TokenType::Comma,
            TokenType::DoubleColon,
            TokenType::RArrow,
            TokenType::LParen,
            TokenType::RParen,
            TokenType::LBrackets,
            TokenType::RBrackets,
            TokenType::LBrace,
            TokenType::RBrace,
            TokenType::Bar,
            TokenType::Dollar,
            TokenType::EOF,
        ]
    );
}

#[test]
fn empty_input_is_end_of_input() {
    let toks = lex(&String::new());
    assert_eq!(toks.len(), 1);
    assert_eq!(toks[0].tt, TokenType::EOF);
}
