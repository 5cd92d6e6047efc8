use script_lang::lexer::{Lexer, Token};
use script_lang::parser::syntax::Parser;
use script_lang::types::{ControlFlow, DataType, Declaration, Node, NodeValue, Operator};

fn lex(src: &str) -> Vec<Token> {
    let mut lexer = Lexer::new_with_value("main.sc".to_string(), src.to_string());
    lexer.tokenize().unwrap()
}

fn parse(src: &str) -> Result<Box<Node>, String> {
    let tokens = lex(src);
    Parser::from_parse(&tokens, "main.sc", src.to_string())
}

fn at(value: NodeValue, line: usize, column: usize) -> Node {
    Node { value, next: None, line, column, is_statement: false }
}

fn null(line: usize, column: usize) -> Box<Node> {
    Box::new(at(NodeValue::Null, line, column))
}

fn var(name: &str, line: usize, column: usize) -> Box<Node> {
    Box::new(at(NodeValue::Variable(null(line, column), name.to_string()), line, column))
}

#[test]
fn parses_a_block_with_a_declaration() {
    let node = parse("{ l a = 2; }").unwrap();
    let end = at(NodeValue::EndStatement, 1, 12);
    let decl = Node {
        value: NodeValue::Declaration(Declaration::Variable(
            var("a", 1, 10),
            Box::new(at(NodeValue::DataType(DataType::Unit(())), 1, 5)),
            var("2", 1, 10),
            true,
            false,
            false,
        )),
        next: Some(Box::new(end)),
        line: 1,
        column: 10,
        is_statement: true,
    };
    let expected = at(NodeValue::Block(vec![Box::new(decl)]), 1, 12);
    assert_eq!(*node, expected);
}

#[test]
fn products_bind_tighter_than_sums() {
    let node = parse("1 + 2 * 3").unwrap();
    let product = at(NodeValue::Operator(Operator::Mul(var("2", 1, 7), var("3", 1, 9))), 1, 9);
    let expected = at(NodeValue::Operator(Operator::Add(var("1", 1, 3), Box::new(product))), 1, 9);
    assert_eq!(*node, expected);
}

#[test]
fn parses_a_call_statement() {
    let node = parse("print(a, b);").unwrap();
    let call = Node {
        value: NodeValue::Call("print".to_string(), vec![*var("a", 1, 8), *var("b", 1, 11)], false),
        next: Some(Box::new(at(NodeValue::EndStatement, 1, 12))),
        line: 1,
        column: 12,
        is_statement: true,
    };
    assert_eq!(*node, call);
    let chain = node.iter();
    assert_eq!(chain.len(), 2);
    assert_eq!(*chain[1].value(), NodeValue::EndStatement);
}

#[test]
fn parses_a_while_loop() {
    let node = parse("while x { y; }").unwrap();
    let body = Node {
        value: NodeValue::Variable(null(1, 12), "y".to_string()),
        next: Some(Box::new(at(NodeValue::EndStatement, 1, 14))),
        line: 1,
        column: 12,
        is_statement: false,
    };
    let block = at(NodeValue::Block(vec![Box::new(body)]), 1, 14);
    let expected = at(NodeValue::ControlFlow(ControlFlow::While(var("x", 1, 9), Box::new(block))), 1, 14);
    assert_eq!(*node, expected);
}

#[test]
fn parses_a_loop_with_break() {
    let node = parse("loop { break; }").unwrap();
    let brk = Node {
        value: NodeValue::ControlFlow(ControlFlow::Break),
        next: Some(Box::new(at(NodeValue::EndStatement, 1, 15))),
        line: 1,
        column: 13,
        is_statement: false,
    };
    let block = at(NodeValue::Block(vec![Box::new(brk)]), 1, 15);
    let expected = at(NodeValue::ControlFlow(ControlFlow::Loop(Box::new(block))), 1, 15);
    assert_eq!(*node, expected);
}

#[test]
fn parses_a_function_declaration() {
    let node = parse("fn f() { }").unwrap();
    let expected = at(
        NodeValue::Declaration(Declaration::Function(
            "f".to_string(),
            vec![],
            Box::new(at(NodeValue::Block(vec![]), 1, 10)),
            null(1, 6),
            false,
        )),
        1,
        10,
    );
    assert_eq!(*node, expected);
}

#[test]
fn parses_an_array() {
    let node = parse("[1, 2]").unwrap();
    let expected = at(
        NodeValue::Declaration(Declaration::Array(null(1, 1), vec![var("1", 1, 3), var("2", 1, 6)])),
        1,
        6,
    );
    assert_eq!(*node, expected);
}

#[test]
fn statements_stop_at_a_closing_brace() {
    let node = parse("a; } b;").unwrap();
    let chain = node.iter();
    assert_eq!(chain.len(), 2);
    assert_eq!(*chain[0].value(), NodeValue::Variable(null(1, 2), "a".to_string()));
    assert_eq!(*chain[1].value(), NodeValue::EndStatement);
}

#[test]
fn empty_input_has_no_statements() {
    assert_eq!(parse("").unwrap_err(), "No statements found");
}

#[test]
fn unclosed_parenthesis_is_reported() {
    colored::control::set_override(false);
    let err = parse("(1").unwrap_err();
    assert_eq!(
        err,
        "error: no closing parenthesis in factor: Token { token_value: \"\", token_type: Eof, line: 1, column: 2 }\n  --> main.sc:1:2\n1 |   (1  \n   |    ^  \n"
    );
}

#[test]
fn unexpected_token_is_reported_inside_some() {
    colored::control::set_override(false);
    let err = parse(")").unwrap_err();
    assert_eq!(
        err,
        "error: Unexpected token in factor: Some(Token { token_value: \")\", token_type: RightParen, line: 1, column: 1 })\n  --> main.sc:1:1\n1 |   )  \n   |   ^  \n"
    );
}

#[test]
fn unclosed_block_is_reported() {
    colored::control::set_override(false);
    let err = parse("{ a;").unwrap_err();
    assert_eq!(
        err,
        "error: Unexpected end of input, no closing curly brace found: Token { token_value: \"\", token_type: Eof, line: 1, column: 4 }\n  --> main.sc:1:4\n1 |   { a;  \n   |      ^  \n"
    );
}

#[test]
fn a_name_alone_has_no_parse() {
    let tokens = lex("x");
    let mut parser = Parser::new(&tokens, "main.sc", "x".to_string());
    assert!(parser.try_parse().is_none());
}

#[test]
fn parser_keeps_its_text_and_path() {
    let tokens = lex("a");
    let parser = Parser::new(&tokens, "p.sc", "a".to_string());
    assert_eq!(parser.input_content(), "a");
    assert_eq!(parser.input_path(), "p.sc");
    assert_eq!(*parser.new_unknown(), at(NodeValue::Unknown, 1, 1));
}

#[test]
fn builders_make_nodes() {
    let sum = Parser::new_add(Parser::new_int(1, 1, 1), Parser::new_float("2.5".to_string(), 1, 3), 1, 5);
    let expected = at(
        NodeValue::Operator(Operator::Add(
            Box::new(at(NodeValue::DataType(DataType::Int(1)), 1, 1)),
            Box::new(at(NodeValue::DataType(DataType::Float("2.5".to_string())), 1, 3)),
        )),
        1,
        5,
    );
    assert_eq!(*sum, expected);
    let assign = Parser::new_assign(Parser::new_null(2, 1), Parser::new_bool(true, 2, 3), 2, 5);
    assert_eq!(
        *assign,
        at(
            NodeValue::Assign(null(2, 1), Box::new(at(NodeValue::DataType(DataType::Bool(true)), 2, 3)), Box::new(Node::default())),
            2,
            5
        )
    );
    let v = Parser::new_variable("x".to_string(), Parser::new_unit(3, 1), 3, 2);
    assert!(v.is_next());
    assert_eq!(*v.next().as_ref().unwrap().value(), NodeValue::DataType(DataType::Unit(())));
    let r = Parser::new_return(Parser::new_string("s".to_string(), 4, 1), 4, 2);
    assert_eq!((r.line(), r.column(), r.is_statement()), (4, 2, false));
    let f = Parser::new_function("g".to_string(), vec![], Parser::new_block(vec![], 5, 1), Parser::new_null(5, 2), true, 5, 3);
    match f.value() {
        NodeValue::Declaration(Declaration::Function(name, args, _, _, sys)) => {
            assert_eq!(name, "g");
            assert!(args.is_empty());
            assert!(*sys);
        },
        _ => panic!("not a function"),
    }
    let inc = Parser::new_include("lib.sc".to_string(), 6, 1);
    assert_eq!(*inc.value(), NodeValue::Include("lib.sc".to_string()));
    let d = Parser::new_div(Parser::new_sub(Parser::new_null(1, 1), Parser::new_null(1, 2), 1, 3), Parser::new_mul(Parser::new_null(1, 4), Parser::new_null(1, 5), 1, 6), 1, 7);
    assert_eq!(d.line(), 1);
}

#[test]
fn set_next_links_nodes() {
    let mut a = *Parser::new_null(1, 1);
    a.set_next(Some(Parser::new_null(1, 2)));
    assert_eq!(a.iter().len(), 2);
    a.set_next(None);
    assert_eq!(a.iter().len(), 1);
}

fn ended(value: NodeValue, line: usize, column: usize, end: (usize, usize), is_statement: bool) -> Node {
    Node {
        value,
        next: Some(Box::new(at(NodeValue::EndStatement, end.0, end.1))),
        line,
        column,
        is_statement,
    }
}

#[test]
fn parses_a_for_loop_over_a_collection() {
    let node = parse("for i in xs { a; }").unwrap();
    let body = at(NodeValue::Block(vec![Box::new(ended(NodeValue::Variable(null(1, 16), "a".to_string()), 1, 16, (1, 18), false))]), 1, 18);
    let expected = at(NodeValue::ControlFlow(ControlFlow::For(var("i", 1, 18), var("xs", 1, 10), Box::new(body))), 1, 18);
    assert_eq!(*node, expected);
}

#[test]
fn parses_a_structure() {
    let node = parse("struct P { x, y }").unwrap();
    let expected = at(NodeValue::Declaration(Declaration::Struct("P".to_string(), vec![var("x", 1, 13), var("y", 1, 17)])), 1, 17);
    assert_eq!(*node, expected);
}

#[test]
fn parses_an_indexed_assignment() {
    let node = parse("a[1] = b;").unwrap();
    let expected = ended(NodeValue::Assign(var("a", 1, 9), var("b", 1, 9), var("1", 1, 4)), 1, 9, (1, 9), false);
    assert_eq!(*node, expected);
}

#[test]
fn parses_an_include() {
    let node = parse("@include lib").unwrap();
    assert_eq!(*node, at(NodeValue::Include("lib".to_string()), 1, 10));
}

#[test]
fn parses_a_type_alias() {
    let node = parse("type T = x;").unwrap();
    let expected = ended(NodeValue::Declaration(Declaration::Type(var("T", 1, 11), var("x", 1, 11))), 1, 11, (1, 11), false);
    assert_eq!(*node, expected);
}

#[test]
fn parses_a_typed_mutable_declaration() {
    let node = parse("let mut a: i32 = 5;").unwrap();
    let decl = Declaration::Variable(
        var("a", 1, 19),
        Box::new(at(NodeValue::DataType(DataType::String("i32".to_string())), 1, 16)),
        var("5", 1, 19),
        false,
        true,
        false,
    );
    assert_eq!(*node, ended(NodeValue::Declaration(decl), 1, 19, (1, 19), true));
}

#[test]
fn parses_an_if_statement() {
    let node = parse("if a { b; }").unwrap();
    let body = at(NodeValue::Block(vec![Box::new(ended(NodeValue::Variable(null(1, 9), "b".to_string()), 1, 9, (1, 11), false))]), 1, 11);
    let expected = Node {
        value: NodeValue::ControlFlow(ControlFlow::If(var("a", 1, 6), Box::new(body))),
        next: None,
        line: 1,
        column: 11,
        is_statement: true,
    };
    assert_eq!(*node, expected);
}

#[test]
fn parses_a_callback_function() {
    let node = parse("callback fn f() { }").unwrap();
    let expected = at(
        NodeValue::Declaration(Declaration::CallBackFunction(
            "f".to_string(),
            vec![],
            Box::new(at(NodeValue::Block(vec![]), 1, 19)),
            null(1, 15),
            false,
        )),
        1,
        19,
    );
    assert_eq!(*node, expected);
}

#[test]
fn parses_a_function_with_a_parameter_and_a_return_type() {
    let node = parse("fn g(a) -> t { }").unwrap();
    let expected = at(
        NodeValue::Declaration(Declaration::Function(
            "g".to_string(),
            vec![(null(1, 7), "a".to_string())],
            Box::new(at(NodeValue::Block(vec![]), 1, 16)),
            Box::new(at(NodeValue::DataType(DataType::String("t".to_string())), 1, 14)),
            false,
        )),
        1,
        16,
    );
    assert_eq!(*node, expected);
}

#[test]
fn a_parameter_must_be_a_name() {
    assert_eq!(parse("fn g(\"s\") { }").unwrap_err(), "Invalid argument name");
}

#[test]
fn first_parser_keeps_its_text() {
    let tokens = lex("a");
    let p = script_lang::parser::Parser::new(&tokens, "a".to_string());
    assert_eq!(p.input(), "a");
}
