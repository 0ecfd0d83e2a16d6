use lib::parsing::{Parser, ParserError};

#[test]
fn assign() -> Result<(), ParserError> {
    let str = "x = 'a'";
    let mut parser = Parser::from_string(str.to_string());

    let ast = parser.parse_module(false)?.ast;
    let module = 0;
    let assign = ast.get_assign_to(module, "x".to_string()).unwrap();
    let exp = ast.get_assign_exp(assign);

    let node = ast.get(exp);
    assert_eq!(node.get_value(), "a".to_string());

    println!("{}", ast.to_string_sugar(exp, true));
    assert_eq!(ast.to_string_sugar(exp, true), "'a'".to_string());

    Ok(())
}

#[test]
fn string_literal_prints_as_string() {
    let mut parser = Parser::from_string("\"abc\"".to_string());
    let ast = parser.parse_tl_expression(true).unwrap().ast;
    assert_eq!(ast.to_string_sugar(ast.get_root(), false), "\"abc\"".to_string());
}

#[test]
fn string_literal_is_a_list_of_chars() {
    let mut parser = Parser::from_string("\"ab\"".to_string());
    let ast = parser.parse_tl_expression(true).unwrap().ast;
    let root = ast.get_root();
    // Cons 'a' (Cons 'b' Nil)
    let lhs = ast.get_func(root);
    let first = ast.get_arg(lhs);
    assert_eq!(ast.get(first).get_value(), "a".to_string());
    let rest = ast.get_arg(root);
    let second = ast.get_arg(ast.get_func(rest));
    assert_eq!(ast.get(second).get_value(), "b".to_string());
    let nil = ast.get_arg(rest);
    assert_eq!(ast.get(nil).get_value(), "Nil".to_string());
    assert_eq!(ast.get(ast.get_app_head(lhs)).get_value(), "Cons".to_string());
}

#[test]
fn empty_string_literal_is_nil() {
    let mut parser = Parser::from_string("\"\"".to_string());
    let ast = parser.parse_tl_expression(true).unwrap().ast;
    let root = ast.get_root();
    assert_eq!(ast.get(root).get_value(), "Nil".to_string());
    assert_eq!(ast.len(), 1);
}
