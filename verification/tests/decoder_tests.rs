use script_lang::decoder::context::{ArithOp, Decoder, FloatAnswer, FloatWork, Outcome, Relation};
use script_lang::decoder::eval::{eval_binary_op, eval_bits, eval_condition, make_range};
use script_lang::decoder::values::{i64_to_text, RtValue};
use script_lang::text::{is_alphanumeric, is_whitespace};
use script_lang::types::{BinOp, ControlFlow, DataType, Declaration, Node, NodeValue, Operator};

fn value_of(o: Outcome) -> RtValue {
    match o {
        Outcome::Value(v) => v,
        Outcome::Error(e) => panic!("unexpected error: {}", e),
        Outcome::Float(_) => panic!("unexpected floating-point work"),
        Outcome::Unsupported => panic!("unexpected unsupported node"),
        Outcome::Exhausted => panic!("unexpected end of the loop budget"),
        Outcome::Framed(e, l, c) => panic!("unexpected error at {}:{}: {}", l, c, e),
    }
}

fn error_of(o: Outcome) -> String {
    match o {
        Outcome::Error(e) => e,
        Outcome::Value(v) => panic!("unexpected value: {:?}", v),
        Outcome::Float(_) => panic!("unexpected floating-point work"),
        Outcome::Unsupported => panic!("unexpected unsupported node"),
        Outcome::Exhausted => panic!("unexpected end of the loop budget"),
        Outcome::Framed(e, l, c) => panic!("unexpected positioned error at {}:{}: {}", l, c, e),
    }
}

fn framed_of(o: Outcome) -> (String, usize, usize) {
    match o {
        Outcome::Framed(e, l, c) => (e, l, c),
        Outcome::Error(e) => panic!("unexpected unpositioned error: {}", e),
        Outcome::Value(v) => panic!("unexpected value: {:?}", v),
        Outcome::Float(_) => panic!("unexpected floating-point work"),
        Outcome::Unsupported => panic!("unexpected unsupported node"),
        Outcome::Exhausted => panic!("unexpected end of the loop budget"),
    }
}

fn int_of(v: RtValue) -> i64 {
    match v {
        RtValue::Int(n) => n,
        other => panic!("not an integer: {:?}", other),
    }
}

fn str_of(v: RtValue) -> String {
    match v {
        RtValue::Str(s) => s,
        other => panic!("not a string: {:?}", other),
    }
}

fn node(value: NodeValue, is_statement: bool) -> Node {
    Node { value, next: None, line: 1, column: 1, is_statement }
}

fn boxed(value: NodeValue) -> Box<Node> {
    Box::new(node(value, false))
}

fn var_node(name: &str) -> Box<Node> {
    boxed(NodeValue::Variable(boxed(NodeValue::Null), name.to_string()))
}

fn int_node(n: i64) -> Box<Node> {
    boxed(NodeValue::DataType(DataType::Int(n)))
}

fn declare_node(name: &str, value: Box<Node>, is_local: bool, is_mutable: bool) -> Node {
    node(
        NodeValue::Declaration(Declaration::Variable(
            var_node(name),
            var_node("i64"),
            value,
            is_local,
            is_mutable,
            false,
        )),
        true,
    )
}

#[test]
fn integers_add_subtract_multiply_and_divide() {
    assert_eq!(int_of(value_of(eval_binary_op(ArithOp::Add, &RtValue::Int(2), &RtValue::Int(40), 1, 1))), 42);
    assert_eq!(int_of(value_of(eval_binary_op(ArithOp::Sub, &RtValue::Int(2), &RtValue::Int(40), 1, 1))), -38);
    assert_eq!(int_of(value_of(eval_binary_op(ArithOp::Mul, &RtValue::Int(-6), &RtValue::Int(7), 1, 1))), -42);
    assert_eq!(int_of(value_of(eval_binary_op(ArithOp::Div, &RtValue::Int(-7), &RtValue::Int(2), 1, 1))), -3);
    assert_eq!(int_of(value_of(eval_binary_op(ArithOp::Div, &RtValue::Int(7), &RtValue::Int(-2), 1, 1))), -3);
}

#[test]
fn division_by_integer_zero_is_reported() {
    let e = framed_of(eval_binary_op(ArithOp::Div, &RtValue::Int(5), &RtValue::Int(0), 3, 7));
    assert_eq!(e, ("Division by zero: Number(5) / Number(0)".to_string(), 3, 7));
    let e = framed_of(eval_binary_op(ArithOp::DivAssign, &RtValue::Int(-1), &RtValue::Int(0), 1, 2));
    assert_eq!(e, ("Division by zero: Number(-1) / Number(0)".to_string(), 1, 2));
}

#[test]
fn integer_overflow_is_an_error() {
    let e = error_of(eval_binary_op(ArithOp::Add, &RtValue::Int(i64::MAX), &RtValue::Int(1), 1, 1));
    assert_eq!(e, "attempt to add with overflow");
    let e = error_of(eval_binary_op(ArithOp::Div, &RtValue::Int(i64::MIN), &RtValue::Int(-1), 1, 1));
    assert_eq!(e, "attempt to divide with overflow");
}

#[test]
fn strings_are_joined_by_plus() {
    let r = eval_binary_op(ArithOp::Add, &RtValue::Str("ab".to_string()), &RtValue::Str("cd".to_string()), 1, 1);
    assert_eq!(str_of(value_of(r)), "abcd");
}

#[test]
fn mismatched_operands_are_refused() {
    let e = error_of(eval_binary_op(ArithOp::Sub, &RtValue::Str("a".to_string()), &RtValue::Str("b".to_string()), 1, 1));
    assert_eq!(e, "Unsupported operation or mismatched types in binary operation");
    let e = error_of(eval_binary_op(ArithOp::Add, &RtValue::Int(1), &RtValue::Bool(true), 1, 1));
    assert_eq!(e, "Unsupported operation or mismatched types in binary operation");
}

#[test]
fn floats_and_compound_operators_ask_for_floating_point_work() {
    match eval_binary_op(ArithOp::Add, &RtValue::Float("1.5".to_string()), &RtValue::Int(2), 1, 1) {
        Outcome::Float(FloatWork::Arith(ArithOp::Add, RtValue::Float(l), RtValue::Int(2))) => assert_eq!(l, "1.5"),
        _ => panic!("expected floating-point work"),
    }
    match eval_binary_op(ArithOp::AddAssign, &RtValue::Int(1), &RtValue::Int(2), 1, 1) {
        Outcome::Float(FloatWork::Arith(ArithOp::AddAssign, RtValue::Int(1), RtValue::Int(2))) => {},
        _ => panic!("expected floating-point work"),
    }
}

#[test]
fn integer_text_covers_the_whole_range() {
    assert_eq!(i64_to_text(0), "0");
    assert_eq!(i64_to_text(-120), "-120");
    assert_eq!(i64_to_text(i64::MIN), "-9223372036854775808");
    assert_eq!(i64_to_text(i64::MAX), "9223372036854775807");
}

#[test]
fn debug_text_follows_json_values() {
    let v = RtValue::Array(vec![
        RtValue::Null,
        RtValue::Bool(true),
        RtValue::Int(-3),
        RtValue::Str("a\"b".to_string()),
    ]);
    assert_eq!(v.debug_text(), "Array [Null, Bool(true), Number(-3), String(\"a\\\"b\")]");
    assert_eq!(RtValue::Array(vec![]).debug_text(), "Array []");
}

#[test]
fn check_type_needs_a_declared_type() {
    let d = Decoder::new();
    let e = framed_of(d.check_type(&RtValue::Int(1), "i32", 4, 9));
    assert_eq!(e, ("Type 'i32' is not defined".to_string(), 4, 9));
}

#[test]
fn check_type_checks_integer_ranges() {
    let mut d = Decoder::new();
    assert_eq!(str_of(value_of(d.declare_type("i32", ""))), "i32");
    assert_eq!(str_of(value_of(d.declare_type("i64", ""))), "i64");
    assert_eq!(str_of(value_of(d.declare_type("void", ""))), "void");
    assert_eq!(str_of(value_of(d.declare_type("text", "string"))), "text");
    assert_eq!(int_of(value_of(d.check_type(&RtValue::Int(7), "i32", 1, 1))), 7);
    let e = framed_of(d.check_type(&RtValue::Int(3_000_000_000), "i32", 2, 5));
    assert_eq!(e, ("Value out of range for i32: 3000000000".to_string(), 2, 5));
    let e = framed_of(d.check_type(&RtValue::Bool(false), "i32", 1, 1));
    assert_eq!(e.0, "Type mismatch for i32: Bool(false)");
    assert_eq!(int_of(value_of(d.check_type(&RtValue::Int(3_000_000_000), "i64", 1, 1))), 3_000_000_000);
    let e = framed_of(d.check_type(&RtValue::Str("x".to_string()), "i64", 1, 1));
    assert_eq!(e.0, "Type mismatch for i64: String(\"x\")");
    assert!(matches!(value_of(d.check_type(&RtValue::Int(5), "void", 1, 1)), RtValue::Null));
    assert_eq!(str_of(value_of(d.check_type(&RtValue::Str("y".to_string()), "text", 1, 1))), "y");
}

#[test]
fn a_type_is_declared_once() {
    let mut d = Decoder::new();
    value_of(d.declare_type("Age", "i32"));
    let e = error_of(d.declare_type("Age", "i64"));
    assert_eq!(e, "type 'Age' is already defined");
}

#[test]
fn declared_variables_read_back() {
    let mut d = Decoder::new();
    assert_eq!(int_of(value_of(d.declare_variable("x", RtValue::Int(4), "i64", true, false, true))), 4);
    assert_eq!(int_of(value_of(d.read_variable("x"))), 4);
    assert!(matches!(value_of(d.read_variable("missing")), RtValue::Null));
    value_of(d.declare_variable("g", RtValue::Int(9), "i64", false, true, true));
    assert_eq!(int_of(value_of(d.read_variable("g"))), 9);
}

#[test]
fn declarations_are_refused_with_their_reason() {
    let mut d = Decoder::new();
    let e = error_of(d.declare_variable("x", RtValue::Int(1), "", true, false, false));
    assert_eq!(e, "Variable declaration must be a statement");
    let e = error_of(d.declare_variable("if", RtValue::Int(1), "", true, false, true));
    assert_eq!(e, "'if' is a reserved word");
    let e = error_of(d.declare_variable("f64", RtValue::Int(1), "", true, false, true));
    assert_eq!(e, "'f64' is a reserved word");
    value_of(d.declare_variable("x", RtValue::Int(1), "", true, false, true));
    let e = error_of(d.declare_variable("x", RtValue::Int(2), "", true, false, true));
    assert_eq!(e, "Variable 'x' is already defined");
    assert_eq!(int_of(value_of(d.read_variable("x"))), 1);
    value_of(d.declare_variable("x", RtValue::Int(3), "", false, false, true));
    assert_eq!(int_of(value_of(d.read_variable("x"))), 1);
}

#[test]
fn assignments_need_a_mutable_declared_variable() {
    let mut d = Decoder::new();
    let e = error_of(d.assign("y", RtValue::Int(1), &RtValue::Null, true));
    assert_eq!(e, "Variable 'y' is not defined");
    value_of(d.declare_variable("c", RtValue::Int(1), "", true, false, true));
    let e = error_of(d.assign("c", RtValue::Int(2), &RtValue::Null, true));
    assert_eq!(e, "Variable 'c' is not mutable");
    let e = error_of(d.assign("c", RtValue::Int(2), &RtValue::Null, false));
    assert_eq!(e, "Variable Assign must be a statement");
    value_of(d.declare_variable("m", RtValue::Int(1), "", false, true, true));
    assert_eq!(int_of(value_of(d.assign("m", RtValue::Int(5), &RtValue::Null, true))), 5);
    assert_eq!(int_of(value_of(d.read_variable("m"))), 5);
}

#[test]
fn array_elements_are_assigned_by_index() {
    let mut d = Decoder::new();
    let arr = RtValue::Array(vec![RtValue::Int(1), RtValue::Int(2)]);
    value_of(d.declare_variable("a", arr, "", true, true, true));
    assert_eq!(int_of(value_of(d.assign("a", RtValue::Int(7), &RtValue::Int(1), true))), 7);
    assert_eq!(value_of(d.read_variable("a")).debug_text(), "Array [Number(1), Number(7)]");
    value_of(d.assign("a", RtValue::Int(8), &RtValue::Int(-4), true));
    assert_eq!(value_of(d.read_variable("a")).debug_text(), "Array [Number(8), Number(7)]");
    let e = error_of(d.assign("a", RtValue::Int(9), &RtValue::Int(2), true));
    assert_eq!(e, "Index out of bounds");
    let e = error_of(d.assign("a", RtValue::Int(9), &RtValue::Null, true));
    assert_eq!(e, "Index is not a number");
}

#[test]
fn execute_node_evaluates_arithmetic_on_variables() {
    let mut d = Decoder::new();
    let decl = declare_node("a", int_node(6), false, true);
    value_of(d.execute_node(&decl, 1000));
    let sum = node(NodeValue::Operator(Operator::Mul(var_node("a"), int_node(7))), false);
    assert_eq!(int_of(value_of(d.execute_node(&sum, 1000))), 42);
    let assign = node(NodeValue::Assign(var_node("a"), int_node(1), boxed(NodeValue::Null)), true);
    value_of(d.execute_node(&assign, 1000));
    assert_eq!(int_of(value_of(d.read_variable("a"))), 1);
}

#[test]
fn a_block_forgets_its_local_variables() {
    let mut d = Decoder::new();
    let inner = declare_node("t", int_node(3), true, false);
    let ret = boxed(NodeValue::ControlFlow(ControlFlow::Return(var_node("t"))));
    let mut first = inner;
    first.next = Some(ret);
    let block = node(NodeValue::Block(vec![Box::new(first)]), false);
    assert_eq!(int_of(value_of(d.execute_node(&block, 1000))), 3);
    assert!(matches!(value_of(d.read_variable("t")), RtValue::Null));
}

#[test]
fn decode_runs_statements_in_order_and_stops_at_an_error() {
    let mut d = Decoder::new();
    let mut last = declare_node("b", int_node(1), false, true);
    let mut div = node(NodeValue::Operator(Operator::Div(var_node("a"), int_node(0))), false);
    let mut end = node(NodeValue::EndStatement, false);
    let mut first = declare_node("a", int_node(2), false, true);
    last.next = None;
    div.next = Some(Box::new(last));
    end.next = Some(Box::new(div));
    first.next = Some(Box::new(end));
    let e = error_of(d.decode(&first, "prog.sc", "l a = 2;\na / 0;\n", 1000));
    assert!(e.contains("Division by zero: Number(2) / Number(0)"));
    assert!(e.contains("prog.sc:1:1"));
    assert!(e.contains("l a = 2;"));
    assert_eq!(int_of(value_of(d.read_variable("a"))), 2);
    assert!(matches!(value_of(d.read_variable("b")), RtValue::Null));
}

#[test]
fn decode_gives_the_last_value() {
    let mut d = Decoder::new();
    let mut first = declare_node("a", int_node(20), false, true);
    first.next = Some(Box::new(node(NodeValue::Operator(Operator::Add(var_node("a"), int_node(22))), false)));
    assert_eq!(int_of(value_of(d.decode(&first, "prog.sc", "", 1000))), 42);
}

#[test]
fn unsupported_nodes_are_reported() {
    let mut d = Decoder::new();
    let module = node(NodeValue::Mod("lib".to_string()), false);
    assert_eq!(framed_of(d.execute_node(&module, 1000)), ("Unknown node value: Mod(\"lib\")".to_string(), 1, 1));
    let unit = node(NodeValue::DataType(DataType::Unit(())), false);
    assert_eq!(framed_of(d.execute_node(&unit, 1000)).0, "Unknown node value: DataType(Unit(()))");
    let unknown = node(NodeValue::Unknown, false);
    assert_eq!(framed_of(d.execute_node(&unknown, 1000)).0, "Unknown node value: Unknown");
    let not = node(NodeValue::Operator(Operator::BitNot(int_node(1))), false);
    assert!(matches!(d.execute_node(&not, 1000), Outcome::Unsupported));
}

fn bool_of(v: RtValue) -> bool {
    match v {
        RtValue::Bool(b) => b,
        other => panic!("not a bool: {:?}", other),
    }
}

#[test]
fn integers_and_strings_are_compared() {
    assert!(bool_of(value_of(eval_condition(Relation::Lt, &RtValue::Int(1), &RtValue::Int(2)))));
    assert!(!bool_of(value_of(eval_condition(Relation::Ge, &RtValue::Int(1), &RtValue::Int(2)))));
    assert!(bool_of(value_of(eval_condition(Relation::Eq, &RtValue::Str("a".to_string()), &RtValue::Str("a".to_string())))));
    assert!(bool_of(value_of(eval_condition(Relation::Ne, &RtValue::Str("a".to_string()), &RtValue::Str("b".to_string())))));
    let e = error_of(eval_condition(Relation::Lt, &RtValue::Str("a".to_string()), &RtValue::Str("b".to_string())));
    assert_eq!(e, "Unsupported operation or mismatched types in condition");
    let e = error_of(eval_condition(Relation::Eq, &RtValue::Bool(true), &RtValue::Bool(true)));
    assert_eq!(e, "Unsupported operation or mismatched types in condition");
}

#[test]
fn large_integers_are_compared_as_floats() {
    let big = 9_007_199_254_740_993i64;
    match eval_condition(Relation::Eq, &RtValue::Int(big), &RtValue::Int(big - 1)) {
        Outcome::Float(FloatWork::Compare(Relation::Eq, RtValue::Int(_), RtValue::Int(_))) => {},
        _ => panic!("expected floating-point work"),
    }
}

fn if_node(cond: Box<Node>, body: Box<Node>) -> Node {
    node(NodeValue::ControlFlow(ControlFlow::If(cond, body)), false)
}

#[test]
fn if_runs_the_branch_its_condition_selects() {
    let mut d = Decoder::new();
    let cond = boxed(NodeValue::Operator(Operator::Lt(int_node(1), int_node(2))));
    let n = if_node(cond, int_node(10));
    assert_eq!(int_of(value_of(d.execute_node(&n, 1000))), 10);

    let mut cond = node(NodeValue::Operator(Operator::Gt(int_node(1), int_node(2))), false);
    cond.next = Some(boxed(NodeValue::ControlFlow(ControlFlow::Else(int_node(20)))));
    let n = if_node(Box::new(cond), int_node(10));
    assert_eq!(int_of(value_of(d.execute_node(&n, 1000))), 20);

    let mut cond = node(NodeValue::Operator(Operator::Gt(int_node(1), int_node(2))), false);
    cond.next = Some(Box::new(if_node(boxed(NodeValue::DataType(DataType::Bool(true))), int_node(30))));
    let n = if_node(Box::new(cond), int_node(10));
    assert_eq!(int_of(value_of(d.execute_node(&n, 1000))), 30);

    let cond = boxed(NodeValue::Operator(Operator::Gt(int_node(1), int_node(2))));
    let n = if_node(cond, int_node(10));
    assert!(matches!(value_of(d.execute_node(&n, 1000)), RtValue::Null));

    let n = if_node(int_node(1), int_node(10));
    assert!(matches!(value_of(d.execute_node(&n, 1000)), RtValue::Null));
}

#[test]
fn and_or_are_refused() {
    let mut d = Decoder::new();
    let n = node(NodeValue::Operator(Operator::And(int_node(1), int_node(2))), false);
    assert_eq!(error_of(d.execute_node(&n, 1000)), "Unsupported node value");
}

fn while_node(cond: Box<Node>, body: Box<Node>) -> Node {
    node(NodeValue::ControlFlow(ControlFlow::While(cond, body)), false)
}

#[test]
fn while_repeats_its_body_until_the_condition_fails() {
    let mut d = Decoder::new();
    let decl = declare_node("i", int_node(0), false, true);
    value_of(d.execute_node(&decl, 1000));
    let step = node(
        NodeValue::Assign(var_node("i"), boxed(NodeValue::Operator(Operator::Add(var_node("i"), int_node(1)))), boxed(NodeValue::Null)),
        true,
    );
    let body = boxed(NodeValue::Block(vec![Box::new(step)]));
    let cond = boxed(NodeValue::Operator(Operator::Lt(var_node("i"), int_node(3))));
    let w = while_node(cond, body);
    assert_eq!(int_of(value_of(d.execute_node(&w, 1000))), 3);
    assert_eq!(int_of(value_of(d.read_variable("i"))), 3);
}

#[test]
fn while_stops_at_break_and_needs_a_boolean() {
    let mut d = Decoder::new();
    let w = while_node(boxed(NodeValue::DataType(DataType::Bool(true))), boxed(NodeValue::ControlFlow(ControlFlow::Break)));
    assert!(matches!(value_of(d.execute_node(&w, 1000)), RtValue::Null));
    let w = while_node(int_node(1), int_node(2));
    assert_eq!(error_of(d.execute_node(&w, 1000)), "Condition must evaluate to a boolean");
}

#[test]
fn loops_end_when_the_turns_run_out() {
    let mut d = Decoder::new();
    let l = node(NodeValue::ControlFlow(ControlFlow::Loop(int_node(1))), false);
    assert!(matches!(d.execute_node(&l, 5), Outcome::Exhausted));
    let w = while_node(boxed(NodeValue::DataType(DataType::Bool(true))), int_node(2));
    assert!(matches!(d.execute_node(&w, 5), Outcome::Exhausted));
}

#[test]
fn whitespace_and_alphanumeric_characters() {
    assert!(is_whitespace('\u{3000}'));
    assert!(is_whitespace('\t'));
    assert!(!is_whitespace('a'));
    assert!(is_alphanumeric('Z'));
    assert!(!is_alphanumeric('_'));
}

#[test]
fn ranges_hold_the_integers_between_their_bounds() {
    assert_eq!(value_of(make_range(&RtValue::Int(2), &RtValue::Int(4))).debug_text(), "Array [Number(2), Number(3), Number(4)]");
    assert_eq!(value_of(make_range(&RtValue::Int(4), &RtValue::Int(2))).debug_text(), "Array []");
    let e = error_of(make_range(&RtValue::Int(-1), &RtValue::Int(2)));
    assert_eq!(e, "called `Option::unwrap()` on a `None` value");
}

#[test]
fn array_literals_evaluate_their_elements() {
    let mut d = Decoder::new();
    let arr = node(
        NodeValue::Declaration(Declaration::Array(
            boxed(NodeValue::DataType(DataType::Int(0))),
            vec![int_node(1), boxed(NodeValue::Operator(Operator::Add(int_node(1), int_node(1))))],
        )),
        false,
    );
    assert_eq!(value_of(d.execute_node(&arr, 1000)).debug_text(), "Array [Number(1), Number(2)]");
}

#[test]
fn for_runs_its_body_once_per_element() {
    let mut d = Decoder::new();
    let decl = declare_node("sum", int_node(0), false, true);
    value_of(d.execute_node(&decl, 1000));
    let step = node(
        NodeValue::Assign(var_node("sum"), boxed(NodeValue::Operator(Operator::Add(var_node("sum"), var_node("x")))), boxed(NodeValue::Null)),
        true,
    );
    let body = boxed(NodeValue::Block(vec![Box::new(step)]));
    let range = boxed(NodeValue::Operator(Operator::Range(int_node(1), int_node(4))));
    let f = node(NodeValue::ControlFlow(ControlFlow::For(var_node("x"), range, body)), false);
    assert_eq!(int_of(value_of(d.execute_node(&f, 1000))), 10);
    assert_eq!(int_of(value_of(d.read_variable("sum"))), 10);
    assert_eq!(int_of(value_of(d.read_variable("x"))), 4);
    let bad = node(NodeValue::ControlFlow(ControlFlow::For(var_node("y"), int_node(3), int_node(1))), false);
    assert_eq!(framed_of(d.execute_node(&bad, 1000)), ("The iterator is not an array".to_string(), 1, 1));
}

#[test]
fn bit_operators_work_on_integers() {
    assert_eq!(int_of(value_of(eval_bits(BinOp::BitAnd, &RtValue::Int(12), &RtValue::Int(10)))), 8);
    assert_eq!(int_of(value_of(eval_bits(BinOp::BitOr, &RtValue::Int(12), &RtValue::Int(10)))), 14);
    assert_eq!(int_of(value_of(eval_bits(BinOp::BitXor, &RtValue::Int(12), &RtValue::Int(10)))), 6);
    assert_eq!(int_of(value_of(eval_bits(BinOp::ShiftLeft, &RtValue::Int(3), &RtValue::Int(4)))), 48);
    assert_eq!(int_of(value_of(eval_bits(BinOp::ShiftRight, &RtValue::Int(-16), &RtValue::Int(2)))), -4);
    assert_eq!(error_of(eval_bits(BinOp::ShiftLeft, &RtValue::Int(1), &RtValue::Int(64))), "attempt to shift left with overflow");
    assert_eq!(error_of(eval_bits(BinOp::BitAnd, &RtValue::Float("1.5".to_string()), &RtValue::Int(1))), "Failed to convert left number to i64");
    assert_eq!(error_of(eval_bits(BinOp::BitAnd, &RtValue::Int(1), &RtValue::Float("1.5".to_string()))), "Failed to convert right number to i64");
    assert_eq!(
        error_of(eval_bits(BinOp::BitOr, &RtValue::Str("a".to_string()), &RtValue::Int(1))),
        "Unsupported operation or mismatched types in condition"
    );
}

#[test]
fn increment_and_decrement_give_the_next_integer() {
    let mut d = Decoder::new();
    let decl = declare_node("n", int_node(5), false, false);
    value_of(d.execute_node(&decl, 1000));
    let inc = node(NodeValue::Operator(Operator::Increment(var_node("n"))), false);
    assert_eq!(int_of(value_of(d.execute_node(&inc, 1000))), 6);
    assert_eq!(error_of(d.read_variable("n")), "Failed to retrieve value");
    let decl = declare_node("k", int_node(5), false, false);
    value_of(d.execute_node(&decl, 1000));
    let dec = node(NodeValue::Operator(Operator::Decrement(var_node("k"))), false);
    assert_eq!(int_of(value_of(d.execute_node(&dec, 1000))), 4);
    let missing = node(NodeValue::Operator(Operator::Increment(var_node("m"))), false);
    assert!(matches!(value_of(d.execute_node(&missing, 1000)), RtValue::Null));
}

fn function_node(name: &str, params: Vec<&str>, body: Vec<Node>) -> Node {
    let args = params.into_iter().map(|p| (var_node("i64"), p.to_string())).collect();
    let stmts = body.into_iter().map(Box::new).collect();
    node(
        NodeValue::Declaration(Declaration::Function(
            name.to_string(),
            args,
            boxed(NodeValue::Block(stmts)),
            var_node("i64"),
            false,
        )),
        true,
    )
}

#[test]
fn functions_bind_their_parameters_and_return_a_value() {
    let add = function_node(
        "add",
        vec!["x", "y"],
        vec![node(NodeValue::ControlFlow(ControlFlow::Return(boxed(NodeValue::Operator(Operator::Add(var_node("x"), var_node("y")))))), true)],
    );
    let call = node(NodeValue::Call("add".to_string(), vec![*int_node(40), *int_node(2)], false), false);
    let missing = node(NodeValue::Call("nope".to_string(), vec![], false), false);
    let again = function_node("add", vec![], vec![]);
    let reserved = function_node("while", vec![], vec![]);
    let mut d = Decoder::new();
    assert!(matches!(value_of(d.execute_node(&add, 1000)), RtValue::Null));
    assert_eq!(int_of(value_of(d.execute_node(&call, 1000))), 42);
    assert_eq!(int_of(value_of(d.read_variable("x"))), 40);
    assert_eq!(framed_of(d.execute_node(&missing, 1000)).0, "Function 'nope' is not defined");
    assert_eq!(framed_of(d.execute_node(&again, 1000)).0, "Function 'add' is already defined");
    assert_eq!(framed_of(d.execute_node(&reserved, 1000)).0, "'while' is a reserved word");
    assert!(matches!(d.execute_node(&call, 0), Outcome::Exhausted));
}

#[test]
fn a_function_name_is_taken_for_globals() {
    let f = function_node("f", vec![], vec![]);
    let decl = declare_node("f", int_node(1), false, true);
    let mut d = Decoder::new();
    value_of(d.execute_node(&f, 1000));
    assert_eq!(framed_of(d.execute_node(&decl, 1000)).0, "Variable 'f' is already defined");
    assert_eq!(error_of(d.assign("f", RtValue::Int(2), &RtValue::Null, true)), "Variable 'f' is not mutable");
}

#[test]
fn decode_calls_the_entry_function() {
    let mut main_fn = function_node(
        "main",
        vec![],
        vec![node(NodeValue::ControlFlow(ControlFlow::Return(int_node(7))), true)],
    );
    main_fn.next = Some(Box::new(declare_node("g", int_node(1), false, false)));
    let mut d = Decoder::new();
    assert_eq!(int_of(value_of(d.decode(&main_fn, "prog.sc", "", 1000))), 7);
    assert_eq!(int_of(value_of(d.read_variable("g"))), 1);
}

#[test]
fn a_call_forgets_the_locals_its_body_declared() {
    let f = function_node(
        "f",
        vec!["p"],
        vec![declare_node("tmp", int_node(3), true, false)],
    );
    let call = node(NodeValue::Call("f".to_string(), vec![*int_node(9)], false), false);
    let mut d = Decoder::new();
    value_of(d.execute_node(&f, 1000));
    assert_eq!(int_of(value_of(d.execute_node(&call, 1000))), 3);
    assert!(matches!(value_of(d.read_variable("tmp")), RtValue::Null));
    assert_eq!(int_of(value_of(d.read_variable("p"))), 9);
}

#[test]
fn a_callback_may_take_a_reserved_name() {
    let cb = node(
        NodeValue::Declaration(Declaration::CallBackFunction(
            "loop".to_string(),
            vec![],
            boxed(NodeValue::Block(vec![])),
            var_node("i64"),
            false,
        )),
        true,
    );
    let call = node(NodeValue::Call("loop".to_string(), vec![], false), false);
    let mut d = Decoder::new();
    assert!(matches!(value_of(d.execute_node(&cb, 1000)), RtValue::Null));
    assert!(matches!(value_of(d.execute_node(&call, 1000)), RtValue::Null));
}

fn reference_node(name: &str, target: &str) -> Node {
    node(
        NodeValue::Declaration(Declaration::Variable(var_node(name), var_node("i64"), var_node(target), false, true, true)),
        true,
    )
}

#[test]
fn a_reference_shares_the_cell_of_its_target() {
    let decl = declare_node("a", int_node(1), false, true);
    let reference = reference_node("b", "a");
    let first = node(NodeValue::Assign(var_node("a"), int_node(5), boxed(NodeValue::Null)), true);
    let copy = declare_node("c", var_node("a"), false, true);
    let second = node(NodeValue::Assign(var_node("a"), int_node(8), boxed(NodeValue::Null)), true);
    let mut d = Decoder::new();
    value_of(d.execute_node(&decl, 1000));
    assert_eq!(int_of(value_of(d.execute_node(&reference, 1000))), 1);
    value_of(d.execute_node(&first, 1000));
    assert_eq!(int_of(value_of(d.read_variable("b"))), 5);
    value_of(d.execute_node(&copy, 1000));
    value_of(d.execute_node(&second, 1000));
    assert_eq!(int_of(value_of(d.read_variable("c"))), 5);
    assert_eq!(int_of(value_of(d.read_variable("b"))), 8);
}

#[test]
fn a_reference_needs_its_target_in_the_same_table() {
    let reference = reference_node("b", "zz");
    let mut d = Decoder::new();
    let e = framed_of(d.execute_node(&reference, 1000));
    assert_eq!(e, ("Variable 'zz' not found in context".to_string(), 1, 1));
    assert!(matches!(value_of(d.read_variable("b")), RtValue::Null));
}

#[test]
fn a_struct_declaration_gives_null() {
    let mut d = Decoder::new();
    let s = node(NodeValue::Declaration(Declaration::Struct("P".to_string(), vec![var_node("x")])), true);
    assert!(matches!(value_of(d.execute_node(&s, 1000)), RtValue::Null));
}

#[test]
fn floating_point_work_takes_the_answers_given() {
    let mut d = Decoder::new();
    let sum = node(
        NodeValue::Operator(Operator::Add(boxed(NodeValue::DataType(DataType::Float("1.5".to_string()))), int_node(2))),
        false,
    );
    assert!(matches!(d.execute_node(&sum, 1000), Outcome::Float(FloatWork::Convert(false, RtValue::Float(_)))));
    d.set_float_answers(vec![
        FloatAnswer::Value(RtValue::Float("1.5".to_string())),
        FloatAnswer::Value(RtValue::Float("3.5".to_string())),
    ]);
    match value_of(d.execute_node(&sum, 1000)) {
        RtValue::Float(t) => assert_eq!(t, "3.5"),
        other => panic!("not a float: {:?}", other),
    }
}

#[test]
fn a_float_division_by_zero_is_an_error_at_its_node() {
    let mut d = Decoder::new();
    let mut div = node(
        NodeValue::Operator(Operator::Div(int_node(1), boxed(NodeValue::DataType(DataType::Float("0.0".to_string()))))),
        false,
    );
    div.line = 2;
    div.column = 4;
    d.set_float_answers(vec![FloatAnswer::Value(RtValue::Float("0.0".to_string())), FloatAnswer::DivisionByZero]);
    let e = framed_of(d.execute_node(&div, 1000));
    assert_eq!(e, ("Division by zero: Number(1) / Number(0.0)".to_string(), 2, 4));
}

#[test]
fn decode_reports_an_unplaceable_error_bare() {
    let mut d = Decoder::new();
    let mut div = node(NodeValue::Operator(Operator::Div(int_node(1), int_node(0))), false);
    div.line = 0;
    let e = error_of(d.decode(&div, "prog.sc", "1 / 0;", 1000));
    assert_eq!(e, "Division by zero: Number(1) / Number(0)");
}
