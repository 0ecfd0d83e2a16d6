use lib::ast::ASTStringListScanResult;
use lib::parsing::{Parser, ParserError};
use lib::token::{Token, TokenType};

fn scan_is_list(str: String) -> Result<bool, ParserError> {
    let mut parser = Parser::from_string(str.to_string());

    let ast = parser.parse_tl_expression(true)?.ast;
    Ok(ast.list_string_scan(ast.get_root()) != ASTStringListScanResult::NotList)
}

fn scan_is_string(str: String) -> Result<bool, ParserError> {
    let mut parser = Parser::from_string(str.to_string());

    let ast = parser.parse_tl_expression(true)?.ast;
    Ok(ast.list_string_scan(ast.get_root()) == ASTStringListScanResult::ListAndString)
}

fn scan_of(str: &str) -> ASTStringListScanResult {
    let mut parser = Parser::from_string(str.to_string());
    let ast = parser.parse_tl_expression(true).unwrap().ast;
    ast.list_string_scan(ast.get_root())
}

#[test]
fn is_list_test() {
    assert!(scan_is_list("Nil".to_string()).unwrap());
    assert!(scan_is_list("Cons 1 (Cons 2 Nil)".to_string()).unwrap());

    assert!(!scan_is_list("Cons".to_string()).unwrap());
    assert!(!scan_is_list("Cons 1".to_string()).unwrap());
}

#[test]
fn is_string_test() {
    assert!(!scan_is_string("Nil".to_string()).unwrap());
    assert!(!scan_is_string("Cons 1 (Cons 2 Nil)".to_string()).unwrap());
    assert!(!scan_is_string("Cons".to_string()).unwrap());
    assert!(!scan_is_string("Cons 1".to_string()).unwrap());

    assert!(scan_is_string("\'\\n\'".to_string()).unwrap());
}

#[test]
fn scan_results() {
    assert_eq!(scan_of("Nil"), ASTStringListScanResult::ListMaybeString);
    assert_eq!(scan_of("Cons 'a' Nil"), ASTStringListScanResult::ListAndString);
    assert_eq!(scan_of("Cons 1 Nil"), ASTStringListScanResult::ListNotString);
    assert_eq!(scan_of("Cons 'a' (Cons 1 Nil)"), ASTStringListScanResult::ListNotString);
    assert_eq!(scan_of("[1, 2]"), ASTStringListScanResult::ListNotString);
    assert_eq!(scan_of("\"hi\""), ASTStringListScanResult::ListAndString);
    assert_eq!(scan_of("1"), ASTStringListScanResult::NotList);
    assert_eq!(scan_of("+ 1 Nil"), ASTStringListScanResult::NotList);
}

#[test]
fn expr_eq_compares_structure() {
    let mut parser = Parser::from_string("(Cons 1 Nil, Cons 1 Nil)".to_string());
    let ast = parser.parse_tl_expression(true).unwrap().ast;
    let root = ast.get_root();
    let a = ast.get_first(root);
    let b = ast.get_second(root);
    assert!(a != b);
    assert!(ast.expr_eq(a, b));
    assert!(ast.expr_eq(a, a));

    let mut parser = Parser::from_string("(Cons 1 Nil, Cons 2 Nil)".to_string());
    let ast = parser.parse_tl_expression(true).unwrap().ast;
    let root = ast.get_root();
    assert!(!ast.expr_eq(ast.get_first(root), ast.get_second(root)));
}

#[test]
fn eq_across_trees() {
    let mut p1 = Parser::from_string("Cons 1 Nil".to_string());
    let t1 = p1.parse_tl_expression(true).unwrap().ast;
    let mut p2 = Parser::from_string("(Nil, Cons 1 Nil)".to_string());
    let t2 = p2.parse_tl_expression(true).unwrap().ast;
    let second = t2.get_second(t2.get_root());
    assert!(lib::ast::AST::eq(&t1, &t2, t1.get_root(), second));
    assert!(lib::ast::AST::eq(&t2, &t1, second, t1.get_root()));
    assert!(!lib::ast::AST::eq(&t1, &t2, t1.get_root(), t2.get_root()));
}

#[test]
fn abstraction_parts() {
    let mut parser = Parser::from_string("f x y = x".to_string());
    let ast = parser.parse_module(false).unwrap().ast;
    let outer = ast.get_assign_exp(ast.get_assign_to(0, "f".to_string()).unwrap());
    let x = ast.get_abstr_var(outer);
    assert_eq!(ast.get(x).get_value(), "x".to_string());
    let inner = ast.get_abstr_expr(outer);
    let y = ast.get_abstr_var(inner);
    assert_eq!(ast.get(y).get_value(), "y".to_string());
    let body = ast.get_abstr_expr(inner);
    assert_eq!(ast.get(body).get_value(), "x".to_string());
    assert_eq!(ast.to_string_sugar(outer, false), "\\x. \\y. x".to_string());
}

#[test]
fn app_head_follows_function_side() {
    let mut parser = Parser::from_string("Cons 1 Nil".to_string());
    let ast = parser.parse_tl_expression(true).unwrap().ast;
    let head = ast.get_app_head(ast.get_root());
    assert_eq!(ast.get(head).get_value(), "Cons".to_string());
    let one = ast.get_arg(ast.get_func(ast.get_root()));
    assert_eq!(ast.get_app_head(one), one);
}

#[test]
fn module_assignments() {
    let src = "f x = x\nmain = f 1\nf y = y\n";
    let mut parser = Parser::from_string(src.to_string());
    let ast = parser.parse_module(false).unwrap().ast;
    let module = ast.get_root();
    assert_eq!(module, 0);
    let names = ast.get_assignee_names(module);
    assert_eq!(names, vec!["f".to_string(), "main".to_string(), "f".to_string()]);

    let first_f = ast.get_assign_to(module, "f".to_string()).unwrap();
    assert_eq!(ast.get_assignee(first_f), "f".to_string());
    let main = ast.get_main(module).unwrap();
    assert_eq!(ast.get_assignee(main), "main".to_string());
    assert_eq!(ast.get_assign_to(module, "g".to_string()), None);

    let map = ast.get_assigns_map(module);
    assert_eq!(map.len(), 2);
    let last_f = map.get(&"f".to_string()).unwrap();
    assert!(last_f != first_f);
    assert_eq!(ast.get_assignee(last_f), "f".to_string());
    assert_eq!(map.get(&"main".to_string()), Some(main));
    assert_eq!(map.get(&"g".to_string()), None);
}

#[test]
fn module_without_main() {
    let mut parser = Parser::from_string("x = 1".to_string());
    let ast = parser.parse_module(false).unwrap().ast;
    assert_eq!(ast.get_main(0), None);
}

#[test]
fn match_cases_are_pairs() {
    let src = "f l = match l {\n| Nil -> 0\n| Cons h t -> h\n}";
    let mut parser = Parser::from_string(src.to_string());
    let ast = parser.parse_module(true).unwrap().ast;
    let f = ast.get_assign_to(0, "f".to_string()).unwrap();
    let abs = ast.get_assign_exp(f);
    let m = ast.get_abstr_expr(abs);
    let unpacked = ast.get_match_unpack_pattern(m);
    assert_eq!(ast.get(unpacked).get_value(), "l".to_string());
    let cases = ast.get_match_cases(m);
    assert_eq!(cases.len(), 2);
    assert_eq!(ast.get(cases[0].0).get_value(), "Nil".to_string());
    assert_eq!(ast.get(cases[0].1).get_value(), "0".to_string());
    assert_eq!(ast.get(ast.get_app_head(cases[1].0)).get_value(), "Cons".to_string());
    assert_eq!(ast.get(cases[1].1).get_value(), "h".to_string());
}

#[test]
fn sugar_of_module() {
    let src = "f x = [x, 2]\nmain = f $ (1, 'c')";
    let mut parser = Parser::from_string(src.to_string());
    let ast = parser.parse_module(true).unwrap().ast;
    assert_eq!(
        ast.to_string_sugar(0, false),
        "f = \\x. [x, 2]\nmain = f (1, 'c')\n".to_string()
    );
}

#[test]
fn sugar_of_applications() {
    let mut parser = Parser::from_string("h f g = f (g 1) 2".to_string());
    let ast = parser.parse_module(false).unwrap().ast;
    assert_eq!(ast.to_string_sugar(0, false), "h = \\f. \\g. f (g 1) 2\n".to_string());

    let mut parser = Parser::from_string("1 + 2".to_string());
    let ast = parser.parse_tl_expression(true).unwrap().ast;
    assert_eq!(ast.to_string_sugar(ast.get_root(), false), "+ 1 2".to_string());
}

#[test]
fn sugar_shows_types() {
    let mut parser = Parser::from_string("f (x :: Int -> Bool) = x".to_string());
    let ast = parser.parse_module(false).unwrap().ast;
    assert_eq!(ast.to_string_sugar(0, true), "f = \\(x :: Int -> Bool). x\n".to_string());
    assert_eq!(ast.to_string_sugar(0, false), "f = \\x. x\n".to_string());
}

#[test]
fn rc_to_str_joins_with_arrow() {
    let mut p1 = Parser::from_string("Cons 1 Nil".to_string());
    let t1 = p1.parse_tl_expression(true).unwrap().ast;
    let mut p2 = Parser::from_string("1".to_string());
    let t2 = p2.parse_tl_expression(false).unwrap().ast;
    let rc = lib::output::RCPair { from: t1.get_root(), to: t2 };
    assert_eq!(t1.rc_to_str(&rc), "[1] -> 1".to_string());
}

#[test]
fn print_vec_string_has_a_line_per_node() {
    let mut parser = Parser::from_string("f".to_string());
    parser.bind_name("f".to_string());
    let ast = parser.parse_tl_expression(false).unwrap().ast;
    let s = ast.print_vec_string();
    assert_eq!(s.lines().count(), ast.len());
    assert!(s.contains("Identifier"));
    assert!(s.ends_with('\n'));
    assert_eq!(lib::ast::AST::new().print_vec_string(), String::new());
}

#[test]
fn new_tree_is_empty() {
    let ast = lib::ast::AST::new();
    assert_eq!(ast.len(), 0);
    assert_eq!(ast.get_root(), 0);
}

#[test]
fn scope_is_restored_after_abstraction() {
    let mut parser = Parser::from_string("g = 1\nf x = match x {\n| Cons h t -> h\n}".to_string());
    parser.parse_module(true).unwrap();
    assert!(parser.is_bound(&"f".to_string()));
    assert!(parser.is_bound(&"g".to_string()));
    assert!(parser.is_bound(&"Cons".to_string()));
    assert!(!parser.is_bound(&"x".to_string()));
    assert!(!parser.is_bound(&"h".to_string()));
    assert!(!parser.is_bound(&"t".to_string()));
}

#[test]
fn builders_and_getters_round_trip() {
    let mut ast = lib::ast::AST::new();
    let x = ast.add_id(Token { tt: TokenType::Id, value: "x".to_string(), line: 1, col: 1 }, 1, 1);
    let one = ast.add_lit(Token { tt: TokenType::IntLit, value: "1".to_string(), line: 1, col: 3 }, 1, 3);
    let p = ast.add_pair(x, one, 1, 1);
    assert_eq!(ast.get_first(p), x);
    assert_eq!(ast.get_second(p), one);
    let a = ast.add_app(x, one, 1, 1, true);
    assert_eq!(ast.get_func(a), x);
    assert_eq!(ast.get_arg(a), one);
    let l = ast.add_abstraction(x, a, 1, 1);
    assert_eq!(ast.get_abstr_var(l), x);
    assert_eq!(ast.get_abstr_expr(l), a);
    let asg = ast.add_assignment(x, l, 1, 1);
    assert_eq!(ast.get_assign_exp(asg), l);
    assert_eq!(ast.get_assignee(asg), "x".to_string());
    assert_eq!(ast.len(), 6);
}
