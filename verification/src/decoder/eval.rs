//! Evaluation of the syntax tree: arithmetic, declarations, assignments and blocks.
use vstd::prelude::*;
use crate::decoder::values::{RtValue, Val, value_debug, vals_sv, lemma_vals_sv_index, lemma_vals_sv_push};
use crate::scope_manager::unique_names;
use crate::text::{str_eq, str_debug, debug_str};
use crate::error::{MessageView, message_pieces, renders, renderable, nth_line, error_report, line_exists};
use crate::decoder::context::{
    Decoder, DecoderView, SOutcome, SFloatWork, Outcome, FloatWork, ArithOp, Relation, SVar, Variable,
    read_spec, declare_check, declare_store, assign_check, assign_store, found_var, type_decl_spec, put_var,
    quoted, quoted_message, SFunc, FuncDef, func_decl_spec, params_view, SFloatAnswer, FloatAnswer, Cell, MemCell,
    alloc_spec, write_spec,
};
use crate::types::{
    Node, NodeValue, DataType, Operator, Declaration, ControlFlow, SNode, SNodeValue, SDataType,
    SOperator, SDeclaration, SControlFlow, BinOp, UnOp, boxes_sv, chain, nodes_sv, args_sv,
};

verus! {

/// Rust's division of integers, which rounds towards zero.
pub open spec fn trunc_div(x: int, d: int) -> int {
    if x == 0 {
        0
    } else if x > 0 && d > 0 {
        x / d
    } else if x < 0 && d < 0 {
        (x * -1) / (d * -1)
    } else if x < 0 {
        ((x * -1) / d) * -1
    } else {
        (x / (d * -1)) * -1
    }
}

/// The exact result of an integer operation (`d != 0` for a division).
pub open spec fn int_result(op: ArithOp, x: int, y: int) -> int {
    match op {
        ArithOp::Add => x + y,
        ArithOp::Sub => x - y,
        ArithOp::Mul => x * y,
        _ => trunc_div(x, y),
    }
}

/// The message of a result that does not fit in an `i64`.
pub open spec fn overflow_message(op: ArithOp) -> Seq<char> {
    match op {
        ArithOp::Add => "attempt to add with overflow"@,
        ArithOp::Sub => "attempt to subtract with overflow"@,
        ArithOp::Mul => "attempt to multiply with overflow"@,
        _ => "attempt to divide with overflow"@,
    }
}

/// The message of a division by zero.
pub open spec fn division_message(l: Val, r: Val) -> Seq<char> {
    "Division by zero: "@ + value_debug(l) + " / "@ + value_debug(r)
}

/// The message of a panic on an absent value.
pub open spec fn unwrap_message() -> Seq<char> {
    "called `Option::unwrap()` on a `None` value"@
}

/// The error of a node the interpreter knows no evaluation for, given the node's debug text.
pub open spec fn unknown_message(text: Seq<char>) -> Seq<char> {
    "Unknown node value: "@ + text
}

/// An error of a step, placed at `line` and `column`; any other outcome as it is.
pub open spec fn frame(r: SOutcome, line: usize, column: usize) -> SOutcome {
    match r {
        SOutcome::Error(m) => SOutcome::Framed(m, line, column),
        _ => r,
    }
}

/// Floating-point work of a step at `line` and `column`: the next result the caller gave
/// is taken when there is one (a division by zero then is an error there); else the work
/// is handed back.  Any other outcome stays as it is.
pub open spec fn settle(d: DecoderView, r: SOutcome, line: usize, column: usize) -> (SOutcome, DecoderView) {
    match r {
        SOutcome::Float(w) => if d.used < d.answers.len() {
            let d1 = DecoderView { used: d.used + 1, ..d };
            match d.answers[d.used as int] {
                SFloatAnswer::Value(v) => (SOutcome::Value(v), d1),
                SFloatAnswer::DivisionByZero => match w {
                    SFloatWork::Arith(_, l, rv) => (SOutcome::Framed(division_message(l, rv), line, column), d1),
                    _ => (SOutcome::Unsupported, d1),
                },
            }
        } else {
            (r, d)
        },
        _ => (r, d),
    }
}

/// Whether a value is a number.
pub open spec fn is_number(v: Val) -> bool {
    v is Int || v is Float
}

/// What an arithmetic operator gives on two values.  Two integers give their sum,
/// difference, product or quotient rounded towards zero (the compound-assignment operators
/// and any float operand need floating-point work); a division by the integer 0 is an error;
/// `+` joins two strings; anything else is an error.  The division error belongs at `line`
/// and `column`.
pub open spec fn arith_spec(op: ArithOp, l: Val, r: Val, line: usize, column: usize) -> SOutcome {
    if is_number(l) && is_number(r) {
        if (op == ArithOp::Div || op == ArithOp::DivAssign) && r == Val::Int(0) {
            SOutcome::Framed(division_message(l, r), line, column)
        } else if (op == ArithOp::Add || op == ArithOp::Sub || op == ArithOp::Mul || op == ArithOp::Div)
            && l is Int && r is Int {
            let v = int_result(op, l->Int_0 as int, r->Int_0 as int);
            if i64::MIN <= v <= i64::MAX {
                SOutcome::Value(Val::Int(v as i64))
            } else {
                SOutcome::Error(overflow_message(op))
            }
        } else {
            SOutcome::Float(SFloatWork::Arith(op, l, r))
        }
    } else if op == ArithOp::Add && l is Str && r is Str {
        SOutcome::Value(Val::Str(l->Str_0 + r->Str_0))
    } else {
        SOutcome::Error("Unsupported operation or mismatched types in binary operation"@)
    }
}

/// Applies an arithmetic operator to two values; a division by zero is an error at `line`
/// and `column`.
pub fn eval_binary_op(op: ArithOp, l: &RtValue, r: &RtValue, line: usize, column: usize) -> (res: Outcome)
    ensures
        res.sv() == arith_spec(op, l.sv(), r.sv(), line, column),
{
    let l_num = match l { RtValue::Int(_) | RtValue::Float(_) => true, _ => false };
    let r_num = match r { RtValue::Int(_) | RtValue::Float(_) => true, _ => false };
    if l_num && r_num {
        let divides = op == ArithOp::Div || op == ArithOp::DivAssign;
        let zero = match r { RtValue::Int(y) => *y == 0, _ => false };
        if divides && zero {
            let mut s = "Division by zero: ".to_string();
            s.append(l.debug_text().as_str());
            s.append(" / ");
            s.append(r.debug_text().as_str());
            return Outcome::Framed(s, line, column);
        }
        let plain = op == ArithOp::Add || op == ArithOp::Sub || op == ArithOp::Mul || op == ArithOp::Div;
        match (l, r) {
            (RtValue::Int(x), RtValue::Int(y)) => {
                if plain {
                    let v: Option<i64> = match op {
                        ArithOp::Add => x.checked_add(*y),
                        ArithOp::Sub => x.checked_sub(*y),
                        ArithOp::Mul => x.checked_mul(*y),
                        _ => x.checked_div(*y),
                    };
                    return match v {
                        Some(n) => Outcome::Value(RtValue::Int(n)),
                        None => {
                            let m = match op {
                                ArithOp::Add => "attempt to add with overflow".to_string(),
                                ArithOp::Sub => "attempt to subtract with overflow".to_string(),
                                ArithOp::Mul => "attempt to multiply with overflow".to_string(),
                                _ => "attempt to divide with overflow".to_string(),
                            };
                            Outcome::Error(m)
                        },
                    };
                }
            },
            _ => {},
        }
        return Outcome::Float(FloatWork::Arith(op, l.copy(), r.copy()));
    }
    match (l, r) {
        (RtValue::Str(a), RtValue::Str(b)) => {
            if op == ArithOp::Add {
                let mut s = a.clone();
                s.append(b.as_str());
                return Outcome::Value(RtValue::Str(s));
            }
        },
        _ => {},
    }
    Outcome::Error("Unsupported operation or mismatched types in binary operation".to_string())
}

/// The name a variable node holds; empty for any other node.
pub open spec fn var_name_of(n: SNode) -> Seq<char> {
    match n.value {
        SNodeValue::Variable(_, v) => v,
        _ => Seq::empty(),
    }
}

/// The text a string literal node holds; empty for any other node.
pub open spec fn type_text_of(n: SNode) -> Seq<char> {
    match n.value {
        SNodeValue::DataType(SDataType::String(v)) => v,
        _ => Seq::empty(),
    }
}

/// The arithmetic operator of a binary operator, if it is one.
pub open spec fn arith_of(op: BinOp) -> Option<ArithOp> {
    match op {
        BinOp::Add => Some(ArithOp::Add),
        BinOp::Sub => Some(ArithOp::Sub),
        BinOp::Mul => Some(ArithOp::Mul),
        BinOp::Div => Some(ArithOp::Div),
        BinOp::AddAssign => Some(ArithOp::AddAssign),
        BinOp::SubAssign => Some(ArithOp::SubAssign),
        BinOp::MulAssign => Some(ArithOp::MulAssign),
        BinOp::DivAssign => Some(ArithOp::DivAssign),
        _ => None,
    }
}

/// The table a declaration writes to.
pub open spec fn chosen_table(d: DecoderView, is_local: bool) -> Map<Seq<char>, SVar> {
    if is_local { d.local } else { d.global }
}

/// The relation a binary operator tests, if it is a comparison.
pub open spec fn relation_of(op: BinOp) -> Option<Relation> {
    match op {
        BinOp::Eq => Some(Relation::Eq),
        BinOp::Ne => Some(Relation::Ne),
        BinOp::Lt => Some(Relation::Lt),
        BinOp::Gt => Some(Relation::Gt),
        BinOp::Le => Some(Relation::Le),
        BinOp::Ge => Some(Relation::Ge),
        _ => None,
    }
}

/// Whether `a` and `b` are in the relation.
pub open spec fn relation_holds(rel: Relation, a: int, b: int) -> bool {
    match rel {
        Relation::Eq => a == b,
        Relation::Ne => a != b,
        Relation::Lt => a < b,
        Relation::Gt => a > b,
        Relation::Le => a <= b,
        Relation::Ge => a >= b,
    }
}

/// An integer that a 64-bit float holds exactly, so that comparing the floats compares
/// the integers.
pub open spec fn exact_in_float(x: int) -> bool {
    -9007199254740992 <= x <= 9007199254740992
}

/// What a comparison gives on two values.  Numbers are compared as 64-bit floats: two
/// integers that such floats hold exactly compare as integers, any other numbers need
/// floating-point work; two strings can be tested for equality; anything else is an error.
pub open spec fn compare_spec(rel: Relation, l: Val, r: Val) -> SOutcome {
    if is_number(l) && is_number(r) {
        if l is Int && r is Int && exact_in_float(l->Int_0 as int) && exact_in_float(r->Int_0 as int) {
            SOutcome::Value(Val::Bool(relation_holds(rel, l->Int_0 as int, r->Int_0 as int)))
        } else {
            SOutcome::Float(SFloatWork::Compare(rel, l, r))
        }
    } else if (rel == Relation::Eq || rel == Relation::Ne) && l is Str && r is Str {
        SOutcome::Value(Val::Bool(if rel == Relation::Eq { l->Str_0 == r->Str_0 } else { l->Str_0 != r->Str_0 }))
    } else {
        SOutcome::Error("Unsupported operation or mismatched types in condition"@)
    }
}

/// An `if` node: its condition is evaluated; `true` runs the body; `false` runs the `else if`
/// or `else` chained after the condition, if any; any other value gives `Null`.
pub open spec fn if_spec(d: DecoderView, n: SNode, fuel: nat) -> (SOutcome, DecoderView)
    decreases fuel, n, 1int,
{
    match n.value {
        SNodeValue::ControlFlow(SControlFlow::If(c, body)) => {
            let (rc, d1) = exec_spec(d, *c, fuel);
            match rc {
                SOutcome::Value(Val::Bool(true)) => exec_spec(d1, *body, fuel),
                SOutcome::Value(Val::Bool(false)) => match c.next {
                    Some(m) => match m.value {
                        SNodeValue::ControlFlow(SControlFlow::If(_, _)) => if_spec(d1, *m, fuel),
                        SNodeValue::ControlFlow(SControlFlow::Else(b)) => exec_spec(d1, *b, fuel),
                        _ => (SOutcome::Value(Val::Null), d1),
                    },
                    None => (SOutcome::Value(Val::Null), d1),
                },
                SOutcome::Value(_) => (SOutcome::Value(Val::Null), d1),
                _ => (rc, d1),
            }
        },
        _ => (SOutcome::Value(Val::Null), d),
    }
}

/// A `while` or `loop` node, `result` being the value of the last turn: each turn costs one
/// unit of `fuel`, and none left ends the evaluation.  A `while` evaluates its condition:
/// `true` runs the body, whose value `"break"` ends the loop, `"continue"` goes on, and any
/// other becomes the result; `false` ends the loop; any other value is an error.  A `loop`
/// runs its body until it fails.
pub open spec fn while_spec(d: DecoderView, n: SNode, result: Val, fuel: nat) -> (SOutcome, DecoderView)
    decreases fuel, n, 1int,
{
    match n.value {
        SNodeValue::ControlFlow(SControlFlow::While(c, body)) => if fuel == 0 {
            (SOutcome::Exhausted, d)
        } else {
            let (rc, d1) = exec_spec(d, *c, fuel);
            match rc {
                SOutcome::Value(Val::Bool(true)) => {
                    let (rb, d2) = exec_spec(d1, *body, fuel);
                    match rb {
                        SOutcome::Value(v) => if v == Val::Str("break"@) {
                            (SOutcome::Value(result), d2)
                        } else if v == Val::Str("continue"@) {
                            while_spec(d2, n, result, (fuel - 1) as nat)
                        } else {
                            while_spec(d2, n, v, (fuel - 1) as nat)
                        },
                        _ => (rb, d2),
                    }
                },
                SOutcome::Value(Val::Bool(false)) => (SOutcome::Value(result), d1),
                SOutcome::Value(_) => (SOutcome::Error("Condition must evaluate to a boolean"@), d1),
                _ => (rc, d1),
            }
        },
        SNodeValue::ControlFlow(SControlFlow::Loop(body)) => if fuel == 0 {
            (SOutcome::Exhausted, d)
        } else {
            let (rb, d1) = exec_spec(d, *body, fuel);
            match rb {
                SOutcome::Value(_) => while_spec(d1, n, result, (fuel - 1) as nat),
                _ => (rb, d1),
            }
        },
        _ => (SOutcome::Value(result), d),
    }
}

/// The integers `start..=end` as an array, for non-negative bounds; other bounds are the
/// error of unwrapping an absent `u64`.
pub open spec fn range_spec(x: Val, y: Val) -> SOutcome {
    match (x, y) {
        (Val::Int(start), Val::Int(end)) => if start >= 0 && end >= 0 {
            SOutcome::Value(Val::Array(Seq::new(
                if end >= start { (end - start + 1) as nat } else { 0 },
                |i: int| Val::Int((start + i) as i64),
            )))
        } else {
            SOutcome::Error(unwrap_message())
        },
        _ => SOutcome::Error(unwrap_message()),
    }
}

/// The values of the elements `values[0..i]` of an array literal, evaluated in order.
pub open spec fn array_spec(d: DecoderView, values: Seq<SNode>, i: int, fuel: nat) -> (SOutcome, DecoderView)
    decreases fuel, values, i,
{
    if i <= 0 || i > values.len() {
        (SOutcome::Value(Val::Array(Seq::empty())), d)
    } else {
        let (r, d1) = array_spec(d, values, i - 1, fuel);
        match r {
            SOutcome::Value(Val::Array(xs)) => {
                let (rv, d2) = exec_spec(d1, values[i - 1], fuel);
                match rv {
                    SOutcome::Value(v) => (SOutcome::Value(Val::Array(xs.push(v))), d2),
                    _ => (rv, d2),
                }
            },
            _ => (r, d1),
        }
    }
}

/// The turns `k..` of a `for` node over the elements `xs`, `result` being the value of the
/// last turn: each turn sets the loop variable, a mutable local in a new memory cell, to the
/// next element and
/// runs the body, whose value `"break"` ends the loop, `"continue"` goes on, and any other
/// becomes the result.  Each turn costs one unit of `fuel`.
pub open spec fn for_spec(d: DecoderView, n: SNode, xs: Seq<Val>, k: int, result: Val, fuel: nat) -> (SOutcome, DecoderView)
    decreases fuel, n, 1int,
{
    match n.value {
        SNodeValue::ControlFlow(SControlFlow::For(v, _, body)) => if k < 0 || k >= xs.len() {
            (SOutcome::Value(result), d)
        } else if fuel == 0 {
            (SOutcome::Exhausted, d)
        } else {
            let d1 = declare_store(
                alloc_spec(d, xs[k]),
                var_name_of(*v),
                SVar { data_type: "void"@, value: xs[k], address: d.memory.len() as usize, is_mutable: true },
                true,
            );
            let (rb, d2) = exec_spec(d1, *body, fuel);
            match rb {
                SOutcome::Value(val) => if val == Val::Str("break"@) {
                    (SOutcome::Value(result), d2)
                } else if val == Val::Str("continue"@) {
                    for_spec(d2, n, xs, k + 1, result, (fuel - 1) as nat)
                } else {
                    for_spec(d2, n, xs, k + 1, val, (fuel - 1) as nat)
                },
                _ => (rb, d2),
            }
        },
        _ => (SOutcome::Value(result), d),
    }
}

/// What a bit operator gives on two values: integers give their bitwise and, or, exclusive
/// or, or shift (a shift by less than 0 or more than 63 places is an error); a
/// floating-point operand cannot be read as an `i64`; anything else is an error.
pub open spec fn bit_spec(op: BinOp, l: Val, r: Val) -> SOutcome {
    if is_number(l) && is_number(r) {
        if l is Float {
            SOutcome::Error("Failed to convert left number to i64"@)
        } else if r is Float {
            SOutcome::Error("Failed to convert right number to i64"@)
        } else {
            let x = l->Int_0;
            let y = r->Int_0;
            match op {
                BinOp::BitAnd => SOutcome::Value(Val::Int(x & y)),
                BinOp::BitOr => SOutcome::Value(Val::Int(x | y)),
                BinOp::BitXor => SOutcome::Value(Val::Int(x ^ y)),
                BinOp::ShiftLeft => if 0 <= y < 64 {
                    SOutcome::Value(Val::Int(x << y))
                } else {
                    SOutcome::Error("attempt to shift left with overflow"@)
                },
                _ => if 0 <= y < 64 {
                    SOutcome::Value(Val::Int(x >> y))
                } else {
                    SOutcome::Error("attempt to shift right with overflow"@)
                },
            }
        }
    } else {
        SOutcome::Error("Unsupported operation or mismatched types in condition"@)
    }
}

/// Whether a binary operator is a bit operator.
pub open spec fn is_bit_op(op: BinOp) -> bool {
    op == BinOp::BitAnd || op == BinOp::BitOr || op == BinOp::BitXor || op == BinOp::ShiftLeft
        || op == BinOp::ShiftRight
}

/// `++` (`up`) or `--` on the node `lhs` after it evaluated to `v`: when `lhs` names a
/// variable, the integer one above or below (a value that is no number counts as -1) is the
/// result, and the variable's memory cell is set to that raw integer, which no later read
/// can give; a float cannot be taken as an integer; otherwise the result is `Null`.
pub open spec fn step_spec(d: DecoderView, lhs: SNode, v: Val, up: bool) -> (SOutcome, DecoderView) {
    let name = var_name_of(lhs);
    match found_var(d, name) {
        Some(var) => if v is Float {
            (SOutcome::Error(unwrap_message()), d)
        } else {
            let cur: int = match v {
                Val::Int(i) => i as int,
                _ => -1,
            };
            let next = if up { cur + 1 } else { cur - 1 };
            if i64::MIN <= next <= i64::MAX {
                (SOutcome::Value(Val::Int(next as i64)), write_spec(d, var.address, Cell::Raw))
            } else if up {
                (SOutcome::Error("attempt to add with overflow"@), d)
            } else {
                (SOutcome::Error("attempt to subtract with overflow"@), d)
            }
        },
        None => (SOutcome::Value(Val::Null), d),
    }
}

/// The parameters of a function declaration: each parameter's name and the name its type
/// node holds.
pub open spec fn args_params(args: Seq<(SNode, Seq<char>)>) -> Seq<(Seq<char>, Seq<char>)> {
    args.map_values(|a: (SNode, Seq<char>)| (a.1, var_name_of(a.0)))
}

/// The state after the parameters `params[0..k]` are bound to the argument values, as
/// immutable local variables, each in a new memory cell.
pub open spec fn bind_spec(d: DecoderView, params: Seq<(Seq<char>, Seq<char>)>, vals: Seq<Val>, k: int) -> DecoderView
    decreases k,
{
    if k <= 0 || k > params.len() || k > vals.len() {
        d
    } else {
        let d0 = bind_spec(d, params, vals, k - 1);
        declare_store(
            alloc_spec(d0, vals[k - 1]),
            params[k - 1].0,
            SVar { data_type: params[k - 1].1, value: vals[k - 1], address: d0.memory.len() as usize, is_mutable: false },
            true,
        )
    }
}

/// The number of parameters a call binds: as many as there are both parameters and
/// arguments.
pub open spec fn bound_count(params: Seq<(Seq<char>, Seq<char>)>, vals: Seq<Val>) -> int {
    if params.len() <= vals.len() { params.len() as int } else { vals.len() as int }
}

/// Runs the body of a called function: the statements of a block body, skipping unknown
/// nodes, with the local variables put back when it runs to its end; any other body gives
/// `Null`.
pub open spec fn body_spec(d: DecoderView, body: SNode, fuel: nat) -> (SOutcome, DecoderView)
    decreases fuel, body, 4int,
{
    match body.value {
        SNodeValue::Block(stmts) => {
            let (r, d1) = run_body_spec(d, stmts, stmts.len() as int, fuel);
            match r {
                SOutcome::Value(_) => (r, DecoderView { local: d.local, ..d1 }),
                _ => (r, d1),
            }
        },
        _ => (SOutcome::Value(Val::Null), d),
    }
}

/// The statements `stmts[0..i]` of a function body, as a block runs them, unknown nodes
/// left out.
pub open spec fn run_body_spec(d: DecoderView, stmts: Seq<SNode>, i: int, fuel: nat) -> (SOutcome, DecoderView)
    decreases fuel, stmts, i,
{
    if i <= 0 || i > stmts.len() {
        (SOutcome::Value(Val::Null), d)
    } else {
        let (r, d1) = run_body_spec(d, stmts, i - 1, fuel);
        match r {
            SOutcome::Value(_) => if stmts[i - 1].value is Unknown {
                (r, d1)
            } else {
                run_chain_spec(d1, stmts[i - 1], fuel)
            },
            _ => (r, d1),
        }
    }
}

/// A call of the function `name` with argument values `vals`: each call costs one unit of
/// `fuel`; an undeclared name is an error; else the parameters are bound and the body runs.
pub open spec fn call_spec(d: DecoderView, name: Seq<char>, vals: Seq<Val>, fuel: nat) -> (SOutcome, DecoderView) {
    if fuel == 0 {
        (SOutcome::Exhausted, d)
    } else if !d.funcs.contains_key(name) {
        (SOutcome::Error("Function "@ + quoted(name) + " is not defined"@), d)
    } else {
        let f = d.funcs[name];
        body_spec(bind_spec(d, f.params, vals, bound_count(f.params, vals)), f.body, (fuel - 1) as nat)
    }
}

/// What evaluating node `n` in state `d` gives, and the state after it; `fuel` bounds the
/// turns of each loop and the depth of calls.
pub open spec fn exec_spec(d: DecoderView, n: SNode, fuel: nat) -> (SOutcome, DecoderView)
    decreases fuel, n, 2int,
{
    match n.value {
        SNodeValue::EndStatement | SNodeValue::Null => (SOutcome::Value(Val::Null), d),
        SNodeValue::MultiComment(_, _) | SNodeValue::SingleComment(_, _) => (SOutcome::Value(Val::Null), d),
        SNodeValue::DataType(dt) => match dt {
            SDataType::Int(i) => (SOutcome::Value(Val::Int(i)), d),
            SDataType::Float(t) => settle(d, SOutcome::Float(SFloatWork::Convert(false, Val::Float(t))), n.line, n.column),
            SDataType::String(t) => (SOutcome::Value(Val::Str(t)), d),
            SDataType::Bool(b) => (SOutcome::Value(Val::Bool(b)), d),
            SDataType::Unit => (SOutcome::Framed(unknown_message("DataType(Unit(()))"@), n.line, n.column), d),
        },
        SNodeValue::Mod(m) => (SOutcome::Framed(unknown_message("Mod("@ + str_debug(m) + ")"@), n.line, n.column), d),
        SNodeValue::Unknown => (SOutcome::Framed(unknown_message("Unknown"@), n.line, n.column), d),
        SNodeValue::Variable(_, name) => (read_spec(d, name), d),
        SNodeValue::ControlFlow(SControlFlow::Break) => (SOutcome::Value(Val::Str("break"@)), d),
        SNodeValue::ControlFlow(SControlFlow::Continue) => (SOutcome::Value(Val::Str("continue"@)), d),
        SNodeValue::ControlFlow(SControlFlow::Return(e)) => exec_spec(d, *e, fuel),
        SNodeValue::Operator(SOperator::Binary(op, a, b)) => match arith_of(op) {
            Some(aop) => {
                let (ra, d1) = exec_spec(d, *a, fuel);
                match ra {
                    SOutcome::Value(x) => {
                        let (rb, d2) = exec_spec(d1, *b, fuel);
                        match rb {
                            SOutcome::Value(y) => settle(d2, arith_spec(aop, x, y, n.line, n.column), n.line, n.column),
                            _ => (rb, d2),
                        }
                    },
                    _ => (ra, d1),
                }
            },
            None => match relation_of(op) {
                Some(rel) => {
                    let (ra, d1) = exec_spec(d, *a, fuel);
                    match ra {
                        SOutcome::Value(x) => {
                            let (rb, d2) = exec_spec(d1, *b, fuel);
                            match rb {
                                SOutcome::Value(y) => settle(d2, compare_spec(rel, x, y), n.line, n.column),
                                _ => (rb, d2),
                            }
                        },
                        _ => (ra, d1),
                    }
                },
                None => if op == BinOp::And || op == BinOp::Or {
                    (SOutcome::Error("Unsupported node value"@), d)
                } else if is_bit_op(op) {
                    let (ra, d1) = exec_spec(d, *a, fuel);
                    match ra {
                        SOutcome::Value(x) => {
                            let (rb, d2) = exec_spec(d1, *b, fuel);
                            match rb {
                                SOutcome::Value(y) => (bit_spec(op, x, y), d2),
                                _ => (rb, d2),
                            }
                        },
                        _ => (ra, d1),
                    }
                } else if op == BinOp::Range {
                    let (ra, d1) = exec_spec(d, *a, fuel);
                    match ra {
                        SOutcome::Value(x) => {
                            let (rb, d2) = exec_spec(d1, *b, fuel);
                            match rb {
                                SOutcome::Value(y) => (range_spec(x, y), d2),
                                _ => (rb, d2),
                            }
                        },
                        _ => (ra, d1),
                    }
                } else {
                    (SOutcome::Unsupported, d)
                },
            },
        },
        SNodeValue::Operator(SOperator::Unary(u, lhs)) => if u == UnOp::BitNot {
            (SOutcome::Unsupported, d)
        } else {
            let (rl, d1) = exec_spec(d, *lhs, fuel);
            match rl {
                SOutcome::Value(v) => step_spec(d1, *lhs, v, u == UnOp::Increment),
                _ => (rl, d1),
            }
        },
        SNodeValue::ControlFlow(SControlFlow::If(_, _)) => if_spec(d, n, fuel),
        SNodeValue::ControlFlow(SControlFlow::While(_, _)) | SNodeValue::ControlFlow(SControlFlow::Loop(_)) => {
            while_spec(d, n, Val::Null, fuel)
        },
        SNodeValue::Declaration(SDeclaration::Variable(vn, dt, vv, is_local, is_mutable, is_reference)) => {
            let name = var_name_of(*vn);
            match declare_check(d, name, is_local, n.is_statement) {
                Some(e) => (SOutcome::Framed(e, n.line, n.column), d),
                None => {
                    let (rv, d1) = exec_spec(d, *vv, fuel);
                    match rv {
                        SOutcome::Value(x) => if is_reference && vv.value is Variable {
                            let target = var_name_of(*vv);
                            if !chosen_table(d1, is_local).contains_key(target) {
                                (SOutcome::Framed("Variable "@ + quoted(target) + " not found in context"@, n.line, n.column), d1)
                            } else {
                                let address = chosen_table(d1, is_local)[target].address;
                                (
                                    SOutcome::Value(x),
                                    declare_store(d1, name, SVar { data_type: var_name_of(*dt), value: x, address, is_mutable }, is_local),
                                )
                            }
                        } else {
                            (
                                SOutcome::Value(x),
                                declare_store(
                                    alloc_spec(d1, x),
                                    name,
                                    SVar { data_type: var_name_of(*dt), value: x, address: d1.memory.len() as usize, is_mutable },
                                    is_local,
                                ),
                            )
                        },
                        _ => (rv, d1),
                    }
                },
            }
        },
        SNodeValue::Assign(vn, vv, idx) => {
            let name = var_name_of(*vn);
            match assign_check(d, name, n.is_statement) {
                Some(e) => (SOutcome::Framed(e, n.line, n.column), d),
                None => {
                    let var = found_var(d, name)->Some_0;
                    let (rv, d1) = exec_spec(d, *vv, fuel);
                    match rv {
                        SOutcome::Value(x) => if var.value is Array {
                            let (ri, d2) = exec_spec(d1, *idx, fuel);
                            match ri {
                                SOutcome::Value(iv) => {
                                    let (r, d3) = assign_store(d2, name, var, x, iv);
                                    (frame(r, n.line, n.column), d3)
                                },
                                _ => (ri, d2),
                            }
                        } else {
                            let (r, d3) = assign_store(d1, name, var, x, Val::Null);
                            (frame(r, n.line, n.column), d3)
                        },
                        _ => (rv, d1),
                    }
                },
            }
        },
        SNodeValue::Declaration(SDeclaration::Type(tn, ty)) => {
            let (r, d1) = type_decl_spec(d, var_name_of(*tn), type_text_of(*ty));
            (frame(r, n.line, n.column), d1)
        },
        SNodeValue::Declaration(SDeclaration::Function(name, args, body, _, is_system)) => {
            let (r, d1) = func_decl_spec(d, name, SFunc { params: args_params(args), body: *body }, is_system, true);
            (frame(r, n.line, n.column), d1)
        },
        SNodeValue::Declaration(SDeclaration::CallBackFunction(name, args, body, _, is_system)) => {
            let (r, d1) = func_decl_spec(d, name, SFunc { params: args_params(args), body: *body }, is_system, false);
            (frame(r, n.line, n.column), d1)
        },
        SNodeValue::Declaration(SDeclaration::Struct(_, _)) => (SOutcome::Value(Val::Null), d),
        SNodeValue::Call(name, args, _) => {
            let (ra, d1) = array_spec(d, args, args.len() as int, fuel);
            match ra {
                SOutcome::Value(Val::Array(vals)) => if fuel == 0 {
                    (SOutcome::Exhausted, d1)
                } else if !d1.funcs.contains_key(name) {
                    (SOutcome::Framed("Function "@ + quoted(name) + " is not defined"@, n.line, n.column), d1)
                } else {
                    let f = d1.funcs[name];
                    body_spec(bind_spec(d1, f.params, vals, bound_count(f.params, vals)), f.body, (fuel - 1) as nat)
                },
                _ => (ra, d1),
            }
        },
        SNodeValue::Declaration(SDeclaration::Array(dt, values)) => if dt.value == SNodeValue::DataType(SDataType::Unit) {
            (SOutcome::Framed(unknown_message("DataType(Unit(()))"@), 0, 0), d)
        } else {
            array_spec(d, values, values.len() as int, fuel)
        },
        SNodeValue::ControlFlow(SControlFlow::For(_, it, _)) => {
            let (ri, d1) = exec_spec(d, *it, fuel);
            match ri {
                SOutcome::Value(Val::Array(xs)) => for_spec(d1, n, xs, 0, Val::Null, fuel),
                SOutcome::Value(_) => (SOutcome::Framed("The iterator is not an array"@, n.line, n.column), d1),
                _ => (ri, d1),
            }
        },
        SNodeValue::Block(stmts) => {
            let (r, d1) = run_stmts_spec(d, stmts, stmts.len() as int, fuel);
            match r {
                SOutcome::Value(_) => (r, DecoderView { local: d.local, ..d1 }),
                _ => (r, d1),
            }
        },
        _ => (SOutcome::Unsupported, d),
    }
}

/// Evaluates `n` and the nodes chained after it, stopping after an error, a request, or
/// a `return`; the result of the last one evaluated.
pub open spec fn run_chain_spec(d: DecoderView, n: SNode, fuel: nat) -> (SOutcome, DecoderView)
    decreases fuel, n, 3int,
{
    let (r, d1) = exec_spec(d, n, fuel);
    match r {
        SOutcome::Value(_) => if n.value matches SNodeValue::ControlFlow(SControlFlow::Return(_)) {
            (r, d1)
        } else {
            match n.next {
                Some(m) => run_chain_spec(d1, *m, fuel),
                None => (r, d1),
            }
        },
        _ => (r, d1),
    }
}

/// Evaluates the statements `stmts[0..i]` of a block, each with the nodes chained after it,
/// stopping at the first that does not give a value; `Null` when there is none.
pub open spec fn run_stmts_spec(d: DecoderView, stmts: Seq<SNode>, i: int, fuel: nat) -> (SOutcome, DecoderView)
    decreases fuel, stmts, i,
{
    if i <= 0 || i > stmts.len() {
        (SOutcome::Value(Val::Null), d)
    } else {
        let (r, d1) = run_stmts_spec(d, stmts, i - 1, fuel);
        match r {
            SOutcome::Value(_) => run_chain_spec(d1, stmts[i - 1], fuel),
            _ => (r, d1),
        }
    }
}

/// The operands of a binary operator node are smaller than the node.
proof fn lemma_binary_smaller(n: SNode, op: BinOp, x: SNode, y: SNode)
    requires
        n.value == SNodeValue::Operator(SOperator::Binary(op, Box::new(x), Box::new(y))),
    ensures
        decreases_to!(n => x),
        decreases_to!(n => y),
{
    assert(decreases_to!(n => n.value));
    assert(decreases_to!(n.value => n.value->Operator_0));
    assert(decreases_to!(n.value->Operator_0 => n.value->Operator_0->Binary_1));
    assert(decreases_to!(n.value->Operator_0 => n.value->Operator_0->Binary_2));
}

/// The expression of a `return` is smaller than the node.
proof fn lemma_return_smaller(n: SNode, x: SNode)
    requires
        n.value == SNodeValue::ControlFlow(SControlFlow::Return(Box::new(x))),
    ensures
        decreases_to!(n => x),
{
    assert(decreases_to!(n => n.value));
    assert(decreases_to!(n.value => n.value->ControlFlow_0));
    assert(decreases_to!(n.value->ControlFlow_0 => n.value->ControlFlow_0->Return_0));
}

/// The value of a declaration is smaller than the node.
proof fn lemma_declaration_smaller(n: SNode, a: SNode, b: SNode, x: SNode, l: bool, m: bool, r: bool)
    requires
        n.value == SNodeValue::Declaration(SDeclaration::Variable(Box::new(a), Box::new(b), Box::new(x), l, m, r)),
    ensures
        decreases_to!(n => x),
{
    assert(decreases_to!(n => n.value));
    assert(decreases_to!(n.value => n.value->Declaration_0));
    assert(decreases_to!(n.value->Declaration_0 => n.value->Declaration_0->Variable_2));
}

/// The value and the index of an assignment are smaller than the node.
proof fn lemma_assign_smaller(n: SNode, a: SNode, x: SNode, i: SNode)
    requires
        n.value == SNodeValue::Assign(Box::new(a), Box::new(x), Box::new(i)),
    ensures
        decreases_to!(n => x),
        decreases_to!(n => i),
{
    assert(decreases_to!(n => n.value));
    assert(decreases_to!(n.value => n.value->Assign_1));
    assert(decreases_to!(n.value => n.value->Assign_2));
}

/// The statements of a block are smaller than the node.
proof fn lemma_block_smaller(n: SNode, stmts: Seq<SNode>, k: int)
    requires
        n.value == SNodeValue::Block(stmts),
        0 <= k < stmts.len(),
    ensures
        decreases_to!(n => stmts[k]),
{
    assert(decreases_to!(n => n.value));
    assert(decreases_to!(n.value => n.value->Block_0));
    assert(decreases_to!(stmts => stmts[k]));
}

/// The condition and the body of an `if` node are smaller than the node.
proof fn lemma_if_smaller(n: SNode, c: SNode, b: SNode)
    requires
        n.value == SNodeValue::ControlFlow(SControlFlow::If(Box::new(c), Box::new(b))),
    ensures
        decreases_to!(n => c),
        decreases_to!(n => b),
{
    assert(decreases_to!(n => n.value));
    assert(decreases_to!(n.value => n.value->ControlFlow_0));
    assert(decreases_to!(n.value->ControlFlow_0 => n.value->ControlFlow_0->If_0));
    assert(decreases_to!(n.value->ControlFlow_0 => n.value->ControlFlow_0->If_1));
}

/// The body of an `else` node is smaller than the node.
proof fn lemma_else_smaller(n: SNode, b: SNode)
    requires
        n.value == SNodeValue::ControlFlow(SControlFlow::Else(Box::new(b))),
    ensures
        decreases_to!(n => b),
{
    assert(decreases_to!(n => n.value));
    assert(decreases_to!(n.value => n.value->ControlFlow_0));
    assert(decreases_to!(n.value->ControlFlow_0 => n.value->ControlFlow_0->Else_0));
}

/// Tests a relation between two values.
pub fn eval_condition(rel: Relation, l: &RtValue, r: &RtValue) -> (res: Outcome)
    ensures
        res.sv() == compare_spec(rel, l.sv(), r.sv()),
{
    match (l, r) {
        (RtValue::Int(x), RtValue::Int(y)) => {
            if -9007199254740992 <= *x && *x <= 9007199254740992 && -9007199254740992 <= *y && *y <= 9007199254740992 {
                let b = match rel {
                    Relation::Eq => *x == *y,
                    Relation::Ne => *x != *y,
                    Relation::Lt => *x < *y,
                    Relation::Gt => *x > *y,
                    Relation::Le => *x <= *y,
                    Relation::Ge => *x >= *y,
                };
                Outcome::Value(RtValue::Bool(b))
            } else {
                Outcome::Float(FloatWork::Compare(rel, l.copy(), r.copy()))
            }
        },
        (RtValue::Int(_), RtValue::Float(_)) | (RtValue::Float(_), RtValue::Int(_)) | (RtValue::Float(_), RtValue::Float(_)) => {
            Outcome::Float(FloatWork::Compare(rel, l.copy(), r.copy()))
        },
        (RtValue::Str(a), RtValue::Str(b)) => {
            if rel == Relation::Eq {
                Outcome::Value(RtValue::Bool(str_eq(a.as_str(), b.as_str())))
            } else if rel == Relation::Ne {
                Outcome::Value(RtValue::Bool(!str_eq(a.as_str(), b.as_str())))
            } else {
                Outcome::Error("Unsupported operation or mismatched types in condition".to_string())
            }
        },
        _ => Outcome::Error("Unsupported operation or mismatched types in condition".to_string()),
    }
}

/// The condition and the body of a `while` node are smaller than the node.
proof fn lemma_while_smaller(n: SNode, c: SNode, b: SNode)
    requires
        n.value == SNodeValue::ControlFlow(SControlFlow::While(Box::new(c), Box::new(b))),
    ensures
        decreases_to!(n => c),
        decreases_to!(n => b),
{
    assert(decreases_to!(n => n.value));
    assert(decreases_to!(n.value => n.value->ControlFlow_0));
    assert(decreases_to!(n.value->ControlFlow_0 => n.value->ControlFlow_0->While_0));
    assert(decreases_to!(n.value->ControlFlow_0 => n.value->ControlFlow_0->While_1));
}

/// The body of a `loop` node is smaller than the node.
proof fn lemma_loop_smaller(n: SNode, b: SNode)
    requires
        n.value == SNodeValue::ControlFlow(SControlFlow::Loop(Box::new(b))),
    ensures
        decreases_to!(n => b),
{
    assert(decreases_to!(n => n.value));
    assert(decreases_to!(n.value => n.value->ControlFlow_0));
    assert(decreases_to!(n.value->ControlFlow_0 => n.value->ControlFlow_0->Loop_0));
}

/// Whether a value is the string `t`.
fn is_text(v: &RtValue, t: &str) -> (r: bool)
    ensures
        r == (v.sv() == Val::Str(t@)),
{
    match v {
        RtValue::Str(s) => str_eq(s.as_str(), t),
        _ => false,
    }
}

/// The elements of an array literal are smaller than the node.
proof fn lemma_array_smaller(n: SNode, dt: SNode, vs: Seq<SNode>, k: int)
    requires
        n.value == SNodeValue::Declaration(SDeclaration::Array(Box::new(dt), vs)),
        0 <= k < vs.len(),
    ensures
        decreases_to!(n => vs[k]),
{
    assert(decreases_to!(n => n.value));
    assert(decreases_to!(n.value => n.value->Declaration_0));
    assert(decreases_to!(n.value->Declaration_0 => n.value->Declaration_0->Array_1));
    assert(decreases_to!(vs => vs[k]));
}

/// The iterator and the body of a `for` node are smaller than the node.
proof fn lemma_for_smaller(n: SNode, v: SNode, it: SNode, b: SNode)
    requires
        n.value == SNodeValue::ControlFlow(SControlFlow::For(Box::new(v), Box::new(it), Box::new(b))),
    ensures
        decreases_to!(n => it),
        decreases_to!(n => b),
{
    assert(decreases_to!(n => n.value));
    assert(decreases_to!(n.value => n.value->ControlFlow_0));
    assert(decreases_to!(n.value->ControlFlow_0 => n.value->ControlFlow_0->For_1));
    assert(decreases_to!(n.value->ControlFlow_0 => n.value->ControlFlow_0->For_2));
}

/// Once an element of an array literal gives no value, the elements after it are not
/// evaluated.
proof fn lemma_array_stopped(d: DecoderView, vs: Seq<SNode>, i: int, j: int, fuel: nat)
    requires
        0 <= i <= j <= vs.len(),
        !(array_spec(d, vs, i, fuel).0 is Value),
    ensures
        array_spec(d, vs, j, fuel) == array_spec(d, vs, i, fuel),
    decreases j - i,
{
    if j > i {
        lemma_array_stopped(d, vs, i, j - 1, fuel);
    }
}

/// The integers `start..=end` as an array, for non-negative bounds.
pub fn make_range(x: &RtValue, y: &RtValue) -> (r: Outcome)
    ensures
        r.sv() == range_spec(x.sv(), y.sv()),
{
    match (x, y) {
        (RtValue::Int(start), RtValue::Int(end)) => {
            if *start >= 0 && *end >= 0 {
                let s = *start;
                let e = *end;
                let mut out: Vec<RtValue> = Vec::new();
                if e >= s {
                    let n: u64 = (e - s) as u64 + 1;
                    let mut k: u64 = 0;
                    while k < n
                        invariant
                            0 <= s <= e,
                            n == e - s + 1,
                            k <= n,
                            out@.len() == k,
                            forall|j: int| 0 <= j < k ==> #[trigger] out@[j].sv() == Val::Int((s + j) as i64),
                        decreases n - k,
                    {
                        out.push(RtValue::Int(s + k as i64));
                        k += 1;
                    }
                }
                proof {
                    lemma_vals_sv_index(out@, out@.len() as int);
                    let len: nat = if e >= s { (e - s + 1) as nat } else { 0 };
                    assert(vals_sv(out@, out@.len() as int) =~= Seq::new(len, |i: int| Val::Int((s + i) as i64)));
                }
                Outcome::Value(RtValue::Array(out))
            } else {
                Outcome::Error("called `Option::unwrap()` on a `None` value".to_string())
            }
        },
        _ => Outcome::Error("called `Option::unwrap()` on a `None` value".to_string()),
    }
}

/// Applies a bit operator to two values.
pub fn eval_bits(op: BinOp, l: &RtValue, r: &RtValue) -> (res: Outcome)
    requires
        is_bit_op(op),
    ensures
        res.sv() == bit_spec(op, l.sv(), r.sv()),
{
    let l_num = match l { RtValue::Int(_) | RtValue::Float(_) => true, _ => false };
    let r_num = match r { RtValue::Int(_) | RtValue::Float(_) => true, _ => false };
    if !(l_num && r_num) {
        return Outcome::Error("Unsupported operation or mismatched types in condition".to_string());
    }
    match (l, r) {
        (RtValue::Int(x), RtValue::Int(y)) => {
            let x = *x;
            let y = *y;
            match op {
                BinOp::BitAnd => Outcome::Value(RtValue::Int(x & y)),
                BinOp::BitOr => Outcome::Value(RtValue::Int(x | y)),
                BinOp::BitXor => Outcome::Value(RtValue::Int(x ^ y)),
                BinOp::ShiftLeft => {
                    if 0 <= y && y < 64 {
                        Outcome::Value(RtValue::Int(x << y))
                    } else {
                        Outcome::Error("attempt to shift left with overflow".to_string())
                    }
                },
                _ => {
                    if 0 <= y && y < 64 {
                        Outcome::Value(RtValue::Int(x >> y))
                    } else {
                        Outcome::Error("attempt to shift right with overflow".to_string())
                    }
                },
            }
        },
        (RtValue::Float(_), _) => Outcome::Error("Failed to convert left number to i64".to_string()),
        _ => Outcome::Error("Failed to convert right number to i64".to_string()),
    }
}

/// The operand of a unary operator node is smaller than the node.
proof fn lemma_unary_smaller(n: SNode, op: UnOp, x: SNode)
    requires
        n.value == SNodeValue::Operator(SOperator::Unary(op, Box::new(x))),
    ensures
        decreases_to!(n => x),
{
    assert(decreases_to!(n => n.value));
    assert(decreases_to!(n.value => n.value->Operator_0));
    assert(decreases_to!(n.value->Operator_0 => n.value->Operator_0->Unary_1));
}

/// The arguments of a call are smaller than the node.
proof fn lemma_call_smaller(n: SNode, name: Seq<char>, vs: Seq<SNode>, s: bool, k: int)
    requires
        n.value == SNodeValue::Call(name, vs, s),
        0 <= k < vs.len(),
    ensures
        decreases_to!(n => vs[k]),
{
    assert(decreases_to!(n => n.value));
    assert(decreases_to!(n.value => n.value->Call_1));
    assert(decreases_to!(vs => vs[k]));
}

/// `nodes_sv` has one value per node, each the value of that node.
proof fn lemma_nodes_sv_index(a: Seq<Node>, n: int)
    requires
        0 <= n <= a.len(),
    ensures
        nodes_sv(a, n).len() == n,
        forall|k: int| 0 <= k < n ==> #[trigger] nodes_sv(a, n)[k] == a[k].sv(),
    decreases n,
{
    if n > 0 {
        lemma_nodes_sv_index(a, n - 1);
    }
}

/// `args_sv` has one entry per argument, each its node's value and its name.
proof fn lemma_args_sv_index(a: Seq<(Box<Node>, String)>, n: int)
    requires
        0 <= n <= a.len(),
    ensures
        args_sv(a, n).len() == n,
        forall|k: int| 0 <= k < n ==> #[trigger] args_sv(a, n)[k] == (a[k].0.sv(), a[k].1@),
    decreases n,
{
    if n > 0 {
        lemma_args_sv_index(a, n - 1);
    }
}

/// An error of a step, placed at `line` and `column`; any other outcome as it is.
fn frame_outcome(r: Outcome, line: usize, column: usize) -> (res: Outcome)
    ensures
        res.sv() == frame(r.sv(), line, column),
{
    match r {
        Outcome::Error(m) => Outcome::Framed(m, line, column),
        other => other,
    }
}

/// The node chained after `n` is smaller than it.
proof fn lemma_next_smaller(n: SNode, m: SNode)
    requires
        n.next == Some(Box::new(m)),
    ensures
        decreases_to!(n => m),
{
    assert(decreases_to!(n => n.next));
    assert(decreases_to!(n.next => n.next->Some_0));
}

/// Evaluates the top-level statements `nodes[0..i]` of a program in order, skipping
/// statement ends and stopping at the first that gives no value; the last value, `Null`
/// when there is none.
pub open spec fn decode_spec(d: DecoderView, nodes: Seq<SNode>, i: int, fuel: nat) -> (SOutcome, DecoderView)
    decreases i,
{
    if i <= 0 || i > nodes.len() {
        (SOutcome::Value(Val::Null), d)
    } else {
        let (r, d1) = decode_spec(d, nodes, i - 1, fuel);
        match r {
            SOutcome::Value(_) => if nodes[i - 1].value is EndStatement {
                (r, d1)
            } else {
                exec_spec(d1, nodes[i - 1], fuel)
            },
            _ => (r, d1),
        }
    }
}

/// A whole program: its top-level statements, then, when they all give a value and the
/// program declared an entry function (`main` or `Main`), a call of that function without
/// arguments, whose result is the program's.
pub open spec fn program_spec(d: DecoderView, nodes: Seq<SNode>, fuel: nat) -> (SOutcome, DecoderView) {
    let (r, d1) = decode_spec(d, nodes, nodes.len() as int, fuel);
    match r {
        SOutcome::Value(_) => match d1.entry {
            Some(f) => call_spec(d1, f, Seq::empty(), fuel),
            None => (r, d1),
        },
        _ => (r, d1),
    }
}

/// The diagnostic of an error at `line` and `column`.
pub open spec fn error_view(message: Seq<char>, line: usize, column: usize) -> MessageView {
    MessageView { level: "error"@, lines: seq![(line, column)], message, children: Seq::empty() }
}

/// Whether a diagnostic can point at `line` and `column` of `src`: lines count from 1, and so
/// do columns where the source has the line.
pub open spec fn placeable(line: usize, column: usize, src: Seq<char>) -> bool {
    line >= 1 && (nth_line(src, line - 1) is Some ==> column >= 1)
}

/// What a program run gives its caller: an error that belongs to a node becomes the text of
/// its diagnostic in `file`, or its bare message where the position cannot be shown; every
/// other outcome is handed on.
pub open spec fn reported(o: SOutcome, r: Outcome, file: Seq<char>, src: Seq<char>) -> bool {
    match o {
        SOutcome::Framed(m, line, column) => if placeable(line, column, src) {
            r matches Outcome::Error(t) && renders(t@, message_pieces(error_view(m, line, column), file, src))
        } else {
            r.sv() == SOutcome::Error(m)
        },
        _ => r.sv() == o,
    }
}

/// Once a top-level statement gives no value, the statements after it are not evaluated.
proof fn lemma_decode_stopped(d: DecoderView, nodes: Seq<SNode>, i: int, j: int, fuel: nat)
    requires
        0 <= i <= j <= nodes.len(),
        !(decode_spec(d, nodes, i, fuel).0 is Value),
    ensures
        decode_spec(d, nodes, j, fuel) == decode_spec(d, nodes, i, fuel),
    decreases j - i,
{
    if j > i {
        lemma_decode_stopped(d, nodes, i, j - 1, fuel);
    }
}

/// Once a statement of a function body gives no value, the statements after it are not
/// evaluated.
proof fn lemma_run_body_stopped(d: DecoderView, ss: Seq<SNode>, i: int, j: int, fuel: nat)
    requires
        0 <= i <= j <= ss.len(),
        !(run_body_spec(d, ss, i, fuel).0 is Value),
    ensures
        run_body_spec(d, ss, j, fuel) == run_body_spec(d, ss, i, fuel),
    decreases j - i,
{
    if j > i {
        lemma_run_body_stopped(d, ss, i, j - 1, fuel);
    }
}

/// Once a statement of a block gives no value, the statements after it are not evaluated.
proof fn lemma_run_stmts_stopped(d: DecoderView, ss: Seq<SNode>, i: int, j: int, fuel: nat)
    requires
        0 <= i <= j <= ss.len(),
        !(run_stmts_spec(d, ss, i, fuel).0 is Value),
    ensures
        run_stmts_spec(d, ss, j, fuel) == run_stmts_spec(d, ss, i, fuel),
    decreases j - i,
{
    if j > i {
        lemma_run_stmts_stopped(d, ss, i, j - 1, fuel);
    }
}

/// `boxes_sv` has one value per node, each the value of that node.
proof fn lemma_boxes_sv_index(a: Seq<Box<Node>>, n: int)
    requires
        0 <= n <= a.len(),
    ensures
        boxes_sv(a, n).len() == n,
        forall|k: int| 0 <= k < n ==> #[trigger] boxes_sv(a, n)[k] == a[k].sv(),
    decreases n,
{
    if n > 0 {
        lemma_boxes_sv_index(a, n - 1);
    }
}

/// Two integers that 64-bit floats hold exactly compare as the integers do: `==` gives whether
/// they are equal, `!=` whether they differ, and `<`, `>`, `<=`, `>=` their order.
pub proof fn law_integers_compare_by_value(rel: Relation, a: i64, b: i64)
    requires
        -9007199254740992 <= a <= 9007199254740992,
        -9007199254740992 <= b <= 9007199254740992,
    ensures
        rel == Relation::Eq ==> compare_spec(rel, Val::Int(a), Val::Int(b)) == SOutcome::Value(Val::Bool(a == b)),
        rel == Relation::Ne ==> compare_spec(rel, Val::Int(a), Val::Int(b)) == SOutcome::Value(Val::Bool(a != b)),
        rel == Relation::Lt ==> compare_spec(rel, Val::Int(a), Val::Int(b)) == SOutcome::Value(Val::Bool(a < b)),
        rel == Relation::Gt ==> compare_spec(rel, Val::Int(a), Val::Int(b)) == SOutcome::Value(Val::Bool(a > b)),
        rel == Relation::Le ==> compare_spec(rel, Val::Int(a), Val::Int(b)) == SOutcome::Value(Val::Bool(a <= b)),
        rel == Relation::Ge ==> compare_spec(rel, Val::Int(a), Val::Int(b)) == SOutcome::Value(Val::Bool(a >= b)),
{
}

/// Two strings can be tested for equality: `==` gives whether they hold the same text and
/// `!=` whether they differ.
pub proof fn law_strings_compare_by_text(a: Seq<char>, b: Seq<char>)
    ensures
        compare_spec(Relation::Eq, Val::Str(a), Val::Str(b)) == SOutcome::Value(Val::Bool(a == b)),
        compare_spec(Relation::Ne, Val::Str(a), Val::Str(b)) == SOutcome::Value(Val::Bool(a != b)),
{
}

/// Each comparison operator of the syntax tree tests the relation of the same name.
pub proof fn law_comparison_operators_keep_their_names()
    ensures
        relation_of(BinOp::Eq) == Some(Relation::Eq),
        relation_of(BinOp::Ne) == Some(Relation::Ne),
        relation_of(BinOp::Lt) == Some(Relation::Lt),
        relation_of(BinOp::Gt) == Some(Relation::Gt),
        relation_of(BinOp::Le) == Some(Relation::Le),
        relation_of(BinOp::Ge) == Some(Relation::Ge),
        forall|b: BinOp| #[trigger] relation_of(b) is Some ==> (b == BinOp::Eq || b == BinOp::Ne || b == BinOp::Lt
            || b == BinOp::Gt || b == BinOp::Le || b == BinOp::Ge),
{
}

/// Each arithmetic operator of the syntax tree does the operation of the same name.
pub proof fn law_arithmetic_operators_keep_their_names()
    ensures
        arith_of(BinOp::Add) == Some(ArithOp::Add),
        arith_of(BinOp::Sub) == Some(ArithOp::Sub),
        arith_of(BinOp::Mul) == Some(ArithOp::Mul),
        arith_of(BinOp::Div) == Some(ArithOp::Div),
        arith_of(BinOp::AddAssign) == Some(ArithOp::AddAssign),
        arith_of(BinOp::SubAssign) == Some(ArithOp::SubAssign),
        arith_of(BinOp::MulAssign) == Some(ArithOp::MulAssign),
        arith_of(BinOp::DivAssign) == Some(ArithOp::DivAssign),
        forall|b: BinOp| #[trigger] arith_of(b) is Some ==> (b == BinOp::Add || b == BinOp::Sub || b == BinOp::Mul
            || b == BinOp::Div || b == BinOp::AddAssign || b == BinOp::SubAssign || b == BinOp::MulAssign
            || b == BinOp::DivAssign),
{
}

/// Two integers add, subtract and multiply as integers when the result fits in an `i64`,
/// and the operation is refused with its overflow message when it does not; `+` joins two
/// strings.
pub proof fn law_integer_arithmetic(a: i64, b: i64, line: usize, column: usize)
    ensures
        i64::MIN <= a + b <= i64::MAX ==> arith_spec(ArithOp::Add, Val::Int(a), Val::Int(b), line, column)
            == SOutcome::Value(Val::Int((a + b) as i64)),
        i64::MIN <= a - b <= i64::MAX ==> arith_spec(ArithOp::Sub, Val::Int(a), Val::Int(b), line, column)
            == SOutcome::Value(Val::Int((a - b) as i64)),
        i64::MIN <= a * b <= i64::MAX ==> arith_spec(ArithOp::Mul, Val::Int(a), Val::Int(b), line, column)
            == SOutcome::Value(Val::Int((a * b) as i64)),
        !(i64::MIN <= a + b <= i64::MAX) ==> arith_spec(ArithOp::Add, Val::Int(a), Val::Int(b), line, column)
            == SOutcome::Error("attempt to add with overflow"@),
        !(i64::MIN <= a - b <= i64::MAX) ==> arith_spec(ArithOp::Sub, Val::Int(a), Val::Int(b), line, column)
            == SOutcome::Error("attempt to subtract with overflow"@),
        !(i64::MIN <= a * b <= i64::MAX) ==> arith_spec(ArithOp::Mul, Val::Int(a), Val::Int(b), line, column)
            == SOutcome::Error("attempt to multiply with overflow"@),
{
}

/// Bit operators on two integers: `&`, `|` and `^` combine their bits; a shift by 0 to 63
/// places shifts them, and any other shift is refused.
pub proof fn law_integer_bit_operators(a: i64, b: i64)
    ensures
        bit_spec(BinOp::BitAnd, Val::Int(a), Val::Int(b)) == SOutcome::Value(Val::Int(a & b)),
        bit_spec(BinOp::BitOr, Val::Int(a), Val::Int(b)) == SOutcome::Value(Val::Int(a | b)),
        bit_spec(BinOp::BitXor, Val::Int(a), Val::Int(b)) == SOutcome::Value(Val::Int(a ^ b)),
        0 <= b < 64 ==> bit_spec(BinOp::ShiftLeft, Val::Int(a), Val::Int(b)) == SOutcome::Value(Val::Int(a << b)),
        0 <= b < 64 ==> bit_spec(BinOp::ShiftRight, Val::Int(a), Val::Int(b)) == SOutcome::Value(Val::Int(a >> b)),
        !(0 <= b < 64) ==> bit_spec(BinOp::ShiftLeft, Val::Int(a), Val::Int(b)) is Error,
        !(0 <= b < 64) ==> bit_spec(BinOp::ShiftRight, Val::Int(a), Val::Int(b)) is Error,
{
}

/// A range of two non-negative integers holds each integer from the first to the second, in
/// order, and nothing when the second is below the first.
pub proof fn law_range_holds_the_integers_between(a: i64, b: i64)
    requires
        0 <= a,
        0 <= b,
    ensures
        range_spec(Val::Int(a), Val::Int(b)) matches SOutcome::Value(Val::Array(xs)) && {
            &&& xs.len() == (if a <= b { b - a + 1 } else { 0 })
            &&& forall|i: int| 0 <= i < xs.len() ==> #[trigger] xs[i] == Val::Int((a + i) as i64)
        },
{
}

/// A division of two integers by a divisor other than 0 rounds towards zero: what the
/// quotient leaves of the dividend is smaller than the divisor and lies on the dividend's
/// side of zero.
pub proof fn law_integer_division_rounds_towards_zero(a: i64, b: i64, line: usize, column: usize)
    requires
        b != 0,
        !(a == i64::MIN && b == -1),
    ensures
        arith_spec(ArithOp::Div, Val::Int(a), Val::Int(b), line, column) matches SOutcome::Value(Val::Int(q))
            && division_remainder_ok(a as int, b as int, q as int),
{
    let x = a as int;
    let d = b as int;
    let q = trunc_div(x, d);
    lemma_trunc_div(x, d);
    assert(i64::MIN <= q <= i64::MAX);
}

/// `q` is the quotient of `x` by `d` rounded towards zero.
pub open spec fn division_remainder_ok(x: int, d: int, q: int) -> bool {
    let r = x - q * d;
    &&& (x >= 0 ==> 0 <= r)
    &&& (x <= 0 ==> r <= 0)
    &&& (if d > 0 { -d < r < d } else { d < r < -d })
}

proof fn lemma_trunc_div(x: int, d: int)
    requires
        d != 0,
        -9223372036854775808 <= x <= 9223372036854775807,
        -9223372036854775808 <= d <= 9223372036854775807,
        !(x == -9223372036854775808 && d == -1),
    ensures
        division_remainder_ok(x, d, trunc_div(x, d)),
        -9223372036854775808 <= trunc_div(x, d) <= 9223372036854775807,
{
    let ax = if x < 0 { -x } else { x };
    let ad = if d < 0 { -d } else { d };
    let m = ax / ad;
    assert(0 <= m * ad <= ax < m * ad + ad && 0 <= m <= ax) by (nonlinear_arith)
        requires ax >= 0, ad > 0, m == ax / ad;
    assert(m <= 9223372036854775807 || ad == 1) by (nonlinear_arith)
        requires ax <= 9223372036854775808, ad >= 1, m == ax / ad, ad == 1 || m * ad <= ax, 0 <= m;
    if x == 0 {
        assert(trunc_div(x, d) == 0);
    } else if x > 0 && d > 0 {
        assert(trunc_div(x, d) == m);
    } else if x < 0 && d < 0 {
        assert(trunc_div(x, d) == m);
        assert(x - m * d == -(ax - m * ad)) by (nonlinear_arith) requires ax == -x, ad == -d;
    } else if x < 0 {
        assert(trunc_div(x, d) == -m);
        assert(x - (-m) * d == -(ax - m * ad)) by (nonlinear_arith) requires ax == -x, ad == d;
    } else {
        assert(trunc_div(x, d) == -m);
        assert(x - (-m) * d == ax - m * ad) by (nonlinear_arith) requires ax == x, ad == -d;
    }
}

/// A local variable that a declaration stores is read back with the value it was declared
/// with.
pub proof fn law_declared_local_reads_back(d: DecoderView, name: Seq<char>, value: Val, ty: Seq<char>, is_mutable: bool)
    requires
        declare_check(d, name, true, true) is None,
        d.memory.len() <= usize::MAX,
    ensures
        read_spec(crate::decoder::context::declare_spec(d, name, value, ty, true, is_mutable, true).1, name) == SOutcome::Value(value),
{
}

/// A global variable that a declaration stores is read back with the value it was declared
/// with, unless a local variable of the same name hides it.
pub proof fn law_declared_global_reads_back(d: DecoderView, name: Seq<char>, value: Val, ty: Seq<char>, is_mutable: bool)
    requires
        declare_check(d, name, false, true) is None,
        !d.local.contains_key(name),
        d.memory.len() <= usize::MAX,
    ensures
        read_spec(crate::decoder::context::declare_spec(d, name, value, ty, false, is_mutable, true).1, name) == SOutcome::Value(value),
{
}

/// A refused declaration leaves every table as it was.
pub proof fn law_refused_declaration_changes_nothing(
    d: DecoderView,
    name: Seq<char>,
    value: Val,
    ty: Seq<char>,
    is_local: bool,
    is_mutable: bool,
    is_statement: bool,
)
    requires
        declare_check(d, name, is_local, is_statement) is Some,
    ensures
        crate::decoder::context::declare_spec(d, name, value, ty, is_local, is_mutable, is_statement).1 == d,
{
}

/// After an assignment to a variable that holds no array succeeds, reading the variable
/// gives the assigned value, in a state where every variable has its memory cell.
pub proof fn law_assigned_reads_back(d: DecoderView, name: Seq<char>, new: Val, index: Val)
    requires
        assign_check(d, name, true) is None,
        !(found_var(d, name)->Some_0.value is Array),
        cells_cover(d),
    ensures
        crate::decoder::context::assign_spec(d, name, new, index, true).0 == SOutcome::Value(new),
        read_spec(crate::decoder::context::assign_spec(d, name, new, index, true).1, name) == SOutcome::Value(new),
{
}

/// Every variable in the tables has its memory cell.
pub open spec fn cells_cover(d: DecoderView) -> bool {
    &&& forall|n: Seq<char>| #[trigger] d.local.contains_key(n) ==> d.local[n].address < d.memory.len()
    &&& forall|n: Seq<char>| #[trigger] d.global.contains_key(n) ==> d.global[n].address < d.memory.len()
}

/// From state `d` to state `e` no memory cell is lost, and every variable keeps a memory
/// cell as long as the cells were counted within `usize`.
pub open spec fn keeps_cells(d: DecoderView, e: DecoderView) -> bool {
    &&& e.memory.len() >= d.memory.len()
    &&& (cells_cover(d) && e.memory.len() <= usize::MAX ==> cells_cover(e))
}

/// A new variable stored in a new cell, or in the cell of a variable found in the state
/// before, keeps the cells.
proof fn lemma_store_keeps(d: DecoderView, name: Seq<char>, v: SVar, is_local: bool)
    requires
        cells_cover(d) ==> v.address < d.memory.len(),
    ensures
        keeps_cells(d, declare_store(d, name, v, is_local)),
{
}

/// Binding parameters keeps the cells.
proof fn lemma_bind_keeps(d: DecoderView, params: Seq<(Seq<char>, Seq<char>)>, vals: Seq<Val>, k: int)
    ensures
        keeps_cells(d, bind_spec(d, params, vals, k)),
    decreases k,
{
    if !(k <= 0 || k > params.len() || k > vals.len()) {
        lemma_bind_keeps(d, params, vals, k - 1);
        let d0 = bind_spec(d, params, vals, k - 1);
        let a = alloc_spec(d0, vals[k - 1]);
        let v = SVar { data_type: params[k - 1].1, value: vals[k - 1], address: d0.memory.len() as usize, is_mutable: false };
        let e = declare_store(a, params[k - 1].0, v, true);
        if cells_cover(d) && e.memory.len() <= usize::MAX {
            assert(cells_cover(d0));
            assert(cells_cover(a));
            lemma_store_keeps(a, params[k - 1].0, v, true);
        }
    }
}

/// Settling floating-point work changes no table and no cell.
proof fn lemma_settle_keeps(d: DecoderView, r: SOutcome, line: usize, column: usize)
    ensures
        settle(d, r, line, column).1.memory == d.memory,
        settle(d, r, line, column).1.local == d.local,
        settle(d, r, line, column).1.global == d.global,
{
}

/// Evaluating a node keeps the cells.
proof fn lemma_exec_keeps(d: DecoderView, n: SNode, fuel: nat)
    ensures
        keeps_cells(d, exec_spec(d, n, fuel).1),
    decreases fuel, n, 2int,
{
    match n.value {
        SNodeValue::DataType(SDataType::Float(t)) => {
            lemma_settle_keeps(d, SOutcome::Float(SFloatWork::Convert(false, Val::Float(t))), n.line, n.column);
        },
        SNodeValue::ControlFlow(SControlFlow::Return(e)) => {
            lemma_exec_keeps(d, *e, fuel);
        },
        SNodeValue::Operator(SOperator::Binary(op, a, b)) => {
            lemma_exec_keeps(d, *a, fuel);
            let d1 = exec_spec(d, *a, fuel).1;
            lemma_exec_keeps(d1, *b, fuel);
            let (ra, _) = exec_spec(d, *a, fuel);
            let (rb, d2) = exec_spec(d1, *b, fuel);
            if let SOutcome::Value(x) = ra {
                if let SOutcome::Value(y) = rb {
                    lemma_settle_keeps(d2, arith_spec(arith_of(op)->Some_0, x, y, n.line, n.column), n.line, n.column);
                    lemma_settle_keeps(d2, compare_spec(relation_of(op)->Some_0, x, y), n.line, n.column);
                }
            }
        },
        SNodeValue::Operator(SOperator::Unary(u, lhs)) => {
            lemma_exec_keeps(d, *lhs, fuel);
        },
        SNodeValue::ControlFlow(SControlFlow::If(_, _)) => {
            lemma_if_keeps(d, n, fuel);
        },
        SNodeValue::ControlFlow(SControlFlow::While(_, _)) | SNodeValue::ControlFlow(SControlFlow::Loop(_)) => {
            lemma_while_keeps(d, n, Val::Null, fuel);
        },
        SNodeValue::Declaration(SDeclaration::Variable(vn, dt, vv, is_local, is_mutable, is_reference)) => {
            lemma_exec_keeps(d, *vv, fuel);
            let (rv, d1) = exec_spec(d, *vv, fuel);
            if let SOutcome::Value(x) = rv {
                let name = var_name_of(*vn);
                if is_reference && vv.value is Variable {
                    let target = var_name_of(*vv);
                    if chosen_table(d1, is_local).contains_key(target) {
                        let v = SVar { data_type: var_name_of(*dt), value: x, address: chosen_table(d1, is_local)[target].address, is_mutable };
                        lemma_store_keeps(d1, name, v, is_local);
                    }
                } else {
                    let a = alloc_spec(d1, x);
                    let v = SVar { data_type: var_name_of(*dt), value: x, address: d1.memory.len() as usize, is_mutable };
                    let e = declare_store(a, name, v, is_local);
                    if cells_cover(d) && e.memory.len() <= usize::MAX {
                        assert(cells_cover(d1));
                        assert(cells_cover(a));
                        lemma_store_keeps(a, name, v, is_local);
                    }
                }
            }
        },
        SNodeValue::Assign(vn, vv, idx) => {
            lemma_exec_keeps(d, *vv, fuel);
            let d1 = exec_spec(d, *vv, fuel).1;
            lemma_exec_keeps(d1, *idx, fuel);
        },
        SNodeValue::Call(name, args, _) => {
            lemma_array_keeps(d, args, args.len() as int, fuel);
            let (ra, d1) = array_spec(d, args, args.len() as int, fuel);
            if let SOutcome::Value(Val::Array(vals)) = ra {
                if fuel > 0 && d1.funcs.contains_key(name) {
                    let f = d1.funcs[name];
                    let db = bind_spec(d1, f.params, vals, bound_count(f.params, vals));
                    lemma_bind_keeps(d1, f.params, vals, bound_count(f.params, vals));
                    lemma_body_keeps(db, f.body, (fuel - 1) as nat);
                }
            }
        },
        SNodeValue::Declaration(SDeclaration::Array(dt, values)) => {
            lemma_array_keeps(d, values, values.len() as int, fuel);
        },
        SNodeValue::ControlFlow(SControlFlow::For(_, it, _)) => {
            lemma_exec_keeps(d, *it, fuel);
            let (ri, d1) = exec_spec(d, *it, fuel);
            if let SOutcome::Value(Val::Array(xs)) = ri {
                lemma_for_keeps(d1, n, xs, 0, Val::Null, fuel);
            }
        },
        SNodeValue::Block(stmts) => {
            lemma_stmts_keeps(d, stmts, stmts.len() as int, fuel);
        },
        _ => {},
    }
}

/// An `if` keeps the cells.
proof fn lemma_if_keeps(d: DecoderView, n: SNode, fuel: nat)
    ensures
        keeps_cells(d, if_spec(d, n, fuel).1),
    decreases fuel, n, 1int,
{
    if let SNodeValue::ControlFlow(SControlFlow::If(c, body)) = n.value {
        lemma_exec_keeps(d, *c, fuel);
        let (rc, d1) = exec_spec(d, *c, fuel);
        lemma_exec_keeps(d1, *body, fuel);
        if let Some(m) = c.next {
            if let SNodeValue::ControlFlow(SControlFlow::If(_, _)) = m.value {
                lemma_if_keeps(d1, *m, fuel);
            }
            if let SNodeValue::ControlFlow(SControlFlow::Else(b)) = m.value {
                lemma_exec_keeps(d1, *b, fuel);
            }
        }
    }
}

/// A `while` or `loop` keeps the cells.
proof fn lemma_while_keeps(d: DecoderView, n: SNode, result: Val, fuel: nat)
    ensures
        keeps_cells(d, while_spec(d, n, result, fuel).1),
    decreases fuel, n, 1int,
{
    match n.value {
        SNodeValue::ControlFlow(SControlFlow::While(c, body)) => if fuel > 0 {
            lemma_exec_keeps(d, *c, fuel);
            let d1 = exec_spec(d, *c, fuel).1;
            lemma_exec_keeps(d1, *body, fuel);
            let (rb, d2) = exec_spec(d1, *body, fuel);
            if let SOutcome::Value(v) = rb {
                lemma_while_keeps(d2, n, result, (fuel - 1) as nat);
                lemma_while_keeps(d2, n, v, (fuel - 1) as nat);
            }
        },
        SNodeValue::ControlFlow(SControlFlow::Loop(body)) => if fuel > 0 {
            lemma_exec_keeps(d, *body, fuel);
            let d1 = exec_spec(d, *body, fuel).1;
            lemma_while_keeps(d1, n, result, (fuel - 1) as nat);
        },
        _ => {},
    }
}

/// The elements of an array literal keep the cells.
proof fn lemma_array_keeps(d: DecoderView, values: Seq<SNode>, i: int, fuel: nat)
    ensures
        keeps_cells(d, array_spec(d, values, i, fuel).1),
    decreases fuel, values, i,
{
    if !(i <= 0 || i > values.len()) {
        lemma_array_keeps(d, values, i - 1, fuel);
        let d1 = array_spec(d, values, i - 1, fuel).1;
        lemma_exec_keeps(d1, values[i - 1], fuel);
    }
}

/// The turns of a `for` keep the cells.
proof fn lemma_for_keeps(d: DecoderView, n: SNode, xs: Seq<Val>, k: int, result: Val, fuel: nat)
    ensures
        keeps_cells(d, for_spec(d, n, xs, k, result, fuel).1),
    decreases fuel, n, 1int,
{
    if let SNodeValue::ControlFlow(SControlFlow::For(v, _, body)) = n.value {
        if !(k < 0 || k >= xs.len()) && fuel > 0 {
            let a = alloc_spec(d, xs[k]);
            let sv = SVar { data_type: "void"@, value: xs[k], address: d.memory.len() as usize, is_mutable: true };
            let d1 = declare_store(a, var_name_of(*v), sv, true);
            lemma_store_keeps(a, var_name_of(*v), sv, true);
            lemma_exec_keeps(d1, *body, fuel);
            let (rb, d2) = exec_spec(d1, *body, fuel);
            if let SOutcome::Value(val) = rb {
                lemma_for_keeps(d2, n, xs, k + 1, result, (fuel - 1) as nat);
                lemma_for_keeps(d2, n, xs, k + 1, val, (fuel - 1) as nat);
            }
            let e = for_spec(d, n, xs, k, result, fuel).1;
            if cells_cover(d) && e.memory.len() <= usize::MAX {
                assert(cells_cover(a));
            }
        }
    }
}

/// A function body keeps the cells.
proof fn lemma_body_keeps(d: DecoderView, body: SNode, fuel: nat)
    ensures
        keeps_cells(d, body_spec(d, body, fuel).1),
    decreases fuel, body, 4int,
{
    if let SNodeValue::Block(stmts) = body.value {
        lemma_run_body_keeps(d, stmts, stmts.len() as int, fuel);
    }
}

/// The statements of a function body keep the cells.
proof fn lemma_run_body_keeps(d: DecoderView, stmts: Seq<SNode>, i: int, fuel: nat)
    ensures
        keeps_cells(d, run_body_spec(d, stmts, i, fuel).1),
    decreases fuel, stmts, i,
{
    if !(i <= 0 || i > stmts.len()) {
        lemma_run_body_keeps(d, stmts, i - 1, fuel);
        let d1 = run_body_spec(d, stmts, i - 1, fuel).1;
        lemma_chain_keeps(d1, stmts[i - 1], fuel);
    }
}

/// A node and those chained after it keep the cells.
proof fn lemma_chain_keeps(d: DecoderView, n: SNode, fuel: nat)
    ensures
        keeps_cells(d, run_chain_spec(d, n, fuel).1),
    decreases fuel, n, 3int,
{
    lemma_exec_keeps(d, n, fuel);
    let d1 = exec_spec(d, n, fuel).1;
    if let Some(m) = n.next {
        lemma_chain_keeps(d1, *m, fuel);
    }
}

/// The statements of a block keep the cells.
proof fn lemma_stmts_keeps(d: DecoderView, stmts: Seq<SNode>, i: int, fuel: nat)
    ensures
        keeps_cells(d, run_stmts_spec(d, stmts, i, fuel).1),
    decreases fuel, stmts, i,
{
    if !(i <= 0 || i > stmts.len()) {
        lemma_stmts_keeps(d, stmts, i - 1, fuel);
        let d1 = run_stmts_spec(d, stmts, i - 1, fuel).1;
        lemma_chain_keeps(d1, stmts[i - 1], fuel);
    }
}

/// Evaluating any node keeps every variable's memory cell: where the cells the run made are
/// counted within `usize`, each variable of the state after it has its cell, as each had
/// before it; and no cell is lost.
pub proof fn law_evaluation_keeps_cells(d: DecoderView, n: SNode, fuel: nat)
    requires
        cells_cover(d),
        exec_spec(d, n, fuel).1.memory.len() <= usize::MAX,
    ensures
        cells_cover(exec_spec(d, n, fuel).1),
        exec_spec(d, n, fuel).1.memory.len() >= d.memory.len(),
{
    lemma_exec_keeps(d, n, fuel);
}

/// A declaration keeps every variable's memory cell in place, its own included.
pub proof fn law_declaration_keeps_cells(
    d: DecoderView,
    name: Seq<char>,
    value: Val,
    ty: Seq<char>,
    is_local: bool,
    is_mutable: bool,
    is_statement: bool,
)
    requires
        cells_cover(d),
        d.memory.len() <= usize::MAX,
    ensures
        cells_cover(crate::decoder::context::declare_spec(d, name, value, ty, is_local, is_mutable, is_statement).1),
{
}

/// An assignment keeps every variable's memory cell in place.
pub proof fn law_assignment_keeps_cells(d: DecoderView, name: Seq<char>, new: Val, index: Val, is_statement: bool)
    requires
        cells_cover(d),
    ensures
        cells_cover(crate::decoder::context::assign_spec(d, name, new, index, is_statement).1),
{
    let d1 = crate::decoder::context::assign_spec(d, name, new, index, is_statement).1;
    assert(d1.memory.len() == d.memory.len());
}

/// A variable declared as a reference to another shares its memory cell: a value assigned to
/// the one is what reading the other gives.
pub proof fn law_reference_sees_assignment(d: DecoderView, name: Seq<char>, alias: Seq<char>, new: Val, index: Val)
    requires
        assign_check(d, name, true) is None,
        !(found_var(d, name)->Some_0.value is Array),
        found_var(d, alias) is Some,
        found_var(d, alias)->Some_0.address == found_var(d, name)->Some_0.address,
        cells_cover(d),
    ensures
        read_spec(crate::decoder::context::assign_spec(d, name, new, index, true).1, alias) == SOutcome::Value(new),
{
}

/// A block that runs to its end leaves the local variables as they were before it: what it
/// declared or assigned locally is forgotten.
pub proof fn law_block_restores_locals(d: DecoderView, n: SNode, fuel: nat)
    requires
        n.value is Block,
        exec_spec(d, n, fuel).0 is Value,
    ensures
        exec_spec(d, n, fuel).1.local == d.local,
{
}

/// A refused assignment leaves every table as it was.
pub proof fn law_refused_assignment_changes_nothing(d: DecoderView, name: Seq<char>, new: Val, index: Val, is_statement: bool)
    requires
        assign_check(d, name, is_statement) is Some,
    ensures
        crate::decoder::context::assign_spec(d, name, new, index, is_statement).1 == d,
{
}

/// A call that runs to its end leaves the local variables as binding its parameters made
/// them: what the body declared or assigned locally is forgotten, the parameters stay.
pub proof fn law_call_keeps_only_parameters(d: DecoderView, name: Seq<char>, vals: Seq<Val>, fuel: nat)
    requires
        d.funcs.contains_key(name),
        call_spec(d, name, vals, fuel).0 is Value,
    ensures
        call_spec(d, name, vals, fuel).1.local == bind_spec(
            d,
            d.funcs[name].params,
            vals,
            bound_count(d.funcs[name].params, vals),
        ).local,
{
}

/// The name a variable node holds; empty for any other node.
fn name_of(n: &Node) -> (r: String)
    ensures
        r@ == var_name_of(n.sv()),
{
    proof {
        reveal_with_fuel(Node::sv, 3);
    }
    match &n.value {
        NodeValue::Variable(_, v) => v.clone(),
        _ => String::new(),
    }
}

/// The text a string literal node holds; empty for any other node.
fn type_text(n: &Node) -> (r: String)
    ensures
        r@ == type_text_of(n.sv()),
{
    proof {
        reveal_with_fuel(Node::sv, 3);
    }
    match &n.value {
        NodeValue::DataType(DataType::String(v)) => v.clone(),
        _ => String::new(),
    }
}

impl<'a> Decoder<'a> {
    /// Evaluates a node of the syntax tree; `fuel` bounds the turns of each loop and the
    /// depth of calls.  Nodes the interpreter does not evaluate give `Unsupported`;
    /// floating-point work takes the next answer given, or is handed back when none is left;
    /// an error that belongs to a node carries the node's line and column.
    pub fn execute_node(&mut self, node: &'a Node, fuel: u64) -> (r: Outcome)
        ensures
            (r.sv(), final(self)@) == exec_spec(old(self)@, node.sv(), fuel as nat),
        decreases fuel, node.sv(), 2int,
    {
        proof {
            reveal_with_fuel(Node::sv, 3);
            reveal_with_fuel(NodeValue::sv, 2);
            reveal_with_fuel(ControlFlow::sv, 2);
        }
        match &node.value {
            NodeValue::EndStatement | NodeValue::Null => Outcome::Value(RtValue::Null),
            NodeValue::MultiComment(_, _) | NodeValue::SingleComment(_, _) => Outcome::Value(RtValue::Null),
            NodeValue::DataType(dt) => match dt {
                DataType::Int(i) => Outcome::Value(RtValue::Int(*i)),
                DataType::Float(t) => {
                    let w = Outcome::Float(FloatWork::Convert(false, RtValue::Float(t.clone())));
                    self.settle(w, node.line, node.column)
                },
                DataType::String(t) => Outcome::Value(RtValue::Str(t.clone())),
                DataType::Bool(b) => Outcome::Value(RtValue::Bool(*b)),
                DataType::Unit(_) => {
                    proof {
                        reveal_strlit("Unknown node value: DataType(Unit(()))");
                        reveal_strlit("Unknown node value: ");
                        reveal_strlit("DataType(Unit(()))");
                        assert("Unknown node value: DataType(Unit(()))"@ =~= unknown_message("DataType(Unit(()))"@));
                    }
                    Outcome::Framed("Unknown node value: DataType(Unit(()))".to_string(), node.line, node.column)
                },
            },
            NodeValue::Mod(m) => {
                let mut t = "Unknown node value: Mod(".to_string();
                t.append(debug_str(m.as_str()).as_str());
                t.push(')');
                proof {
                    reveal_strlit("Unknown node value: Mod(");
                    reveal_strlit("Unknown node value: ");
                    reveal_strlit("Mod(");
                    reveal_strlit(")");
                    assert(t@ =~= unknown_message("Mod("@ + str_debug(m@) + ")"@));
                }
                Outcome::Framed(t, node.line, node.column)
            },
            NodeValue::Unknown => {
                proof {
                    reveal_strlit("Unknown node value: Unknown");
                    reveal_strlit("Unknown node value: ");
                    reveal_strlit("Unknown");
                    assert("Unknown node value: Unknown"@ =~= unknown_message("Unknown"@));
                }
                Outcome::Framed("Unknown node value: Unknown".to_string(), node.line, node.column)
            },
            NodeValue::Variable(_, name) => self.read_variable(name.as_str()),
            NodeValue::ControlFlow(_) => self.eval_control(node, fuel),
            NodeValue::Operator(_) => self.eval_operator(node, fuel),
            NodeValue::Declaration(Declaration::Variable(_, _, _, _, _, _)) => self.eval_declaration(node, fuel),
            NodeValue::Assign(_, _, _) => self.eval_assign_node(node, fuel),
            NodeValue::Declaration(Declaration::Type(tn, ty)) => {
                let name = name_of(tn);
                let text = type_text(ty);
                let r = self.declare_type(name.as_str(), text.as_str());
                frame_outcome(r, node.line, node.column)
            },
            NodeValue::Block(_) => self.eval_block(node, fuel),
            NodeValue::Declaration(Declaration::Array(_, _)) => self.eval_array(node, fuel),
            NodeValue::Declaration(Declaration::Function(name, args, body, _, is_system)) => {
                self.eval_function_parts(node, name, args, body, *is_system, true)
            },
            NodeValue::Declaration(Declaration::CallBackFunction(name, args, body, _, is_system)) => {
                self.eval_function_parts(node, name, args, body, *is_system, false)
            },
            NodeValue::Call(name, args, _) => self.eval_call_parts(node, name, args, fuel),
            NodeValue::Declaration(Declaration::Struct(_, _)) => Outcome::Value(RtValue::Null),
            _ => Outcome::Unsupported,
        }
    }

    /// Floating-point work of a step at `line` and `column`: the next result the caller gave
    /// is taken when there is one; else the work is handed back.
    fn settle(&mut self, r: Outcome, line: usize, column: usize) -> (res: Outcome)
        ensures
            (res.sv(), final(self)@) == settle(old(self)@, r.sv(), line, column),
    {
        match r {
            Outcome::Float(w) => match self.take_answer() {
                Some(FloatAnswer::Value(v)) => Outcome::Value(v),
                Some(FloatAnswer::DivisionByZero) => match w {
                    FloatWork::Arith(_, l, rv) => {
                        let mut s = "Division by zero: ".to_string();
                        s.append(l.debug_text().as_str());
                        s.append(" / ");
                        s.append(rv.debug_text().as_str());
                        Outcome::Framed(s, line, column)
                    },
                    _ => Outcome::Unsupported,
                },
                None => Outcome::Float(w),
            },
            other => other,
        }
    }

    /// Evaluates a control-flow node.
    fn eval_control(&mut self, node: &'a Node, fuel: u64) -> (r: Outcome)
        requires
            node.sv().value is ControlFlow,
        ensures
            (r.sv(), final(self)@) == exec_spec(old(self)@, node.sv(), fuel as nat),
        decreases fuel, node.sv(), 1int,
    {
        proof {
            reveal_with_fuel(Node::sv, 3);
        }
        match &node.value {
            NodeValue::ControlFlow(cf) => match cf {
                ControlFlow::Break => {
                    proof {
                        reveal_strlit("break");
                    }
                    Outcome::Value(RtValue::Str("break".to_string()))
                },
                ControlFlow::Continue => {
                    proof {
                        reveal_strlit("continue");
                    }
                    Outcome::Value(RtValue::Str("continue".to_string()))
                },
                ControlFlow::Return(e) => {
                    proof {
                        assert(cf.sv() == SControlFlow::Return(Box::new(e.sv())));
                        lemma_return_smaller(node.sv(), e.sv());
                    }
                    self.execute_node(e, fuel)
                },
                ControlFlow::If(c, body) => self.eval_if_parts(node, c, body, fuel),
                ControlFlow::While(c, body) => self.eval_while_parts(node, c, body, fuel),
                ControlFlow::Loop(body) => self.eval_loop_parts(node, body, fuel),
                ControlFlow::For(v, it, body) => self.eval_for_parts(node, v, it, body, fuel),
                _ => Outcome::Unsupported,
            },
            _ => Outcome::Unsupported,
        }
    }

    /// Evaluates a bit operator node whose operands are given.
    fn eval_bit_parts(&mut self, node: &'a Node, op: BinOp, a: &'a Node, b: &'a Node, fuel: u64) -> (r: Outcome)
        requires
            is_bit_op(op),
            node.sv().value == SNodeValue::Operator(SOperator::Binary(op, Box::new(a.sv()), Box::new(b.sv()))),
        ensures
            (r.sv(), final(self)@) == exec_spec(old(self)@, node.sv(), fuel as nat),
        decreases fuel, node.sv(), 0int,
    {
        proof {
            lemma_binary_smaller(node.sv(), op, a.sv(), b.sv());
        }
        let ra = self.execute_node(a, fuel);
        match ra {
            Outcome::Value(x) => {
                let rb = self.execute_node(b, fuel);
                match rb {
                    Outcome::Value(y) => eval_bits(op, &x, &y),
                    other => other,
                }
            },
            other => other,
        }
    }

    /// Evaluates a `++` (`up`) or `--` node whose operand is given.
    fn eval_step_parts(&mut self, node: &'a Node, up: bool, lhs: &'a Node, fuel: u64) -> (r: Outcome)
        requires
            node.sv().value == SNodeValue::Operator(SOperator::Unary(
                if up { UnOp::Increment } else { UnOp::Decrement },
                Box::new(lhs.sv()),
            )),
        ensures
            (r.sv(), final(self)@) == exec_spec(old(self)@, node.sv(), fuel as nat),
        decreases fuel, node.sv(), 0int,
    {
        proof {
            lemma_unary_smaller(node.sv(), if up { UnOp::Increment } else { UnOp::Decrement }, lhs.sv());
        }
        let rl = self.execute_node(lhs, fuel);
        let v = match rl {
            Outcome::Value(v) => v,
            other => {
                return other;
            },
        };
        let name = name_of(lhs);
        match self.find_variable(name.as_str()) {
            Some(var) => {
                let cur: i64 = match &v {
                    RtValue::Int(i) => *i,
                    RtValue::Float(_) => {
                        return Outcome::Error("called `Option::unwrap()` on a `None` value".to_string());
                    },
                    _ => -1,
                };
                let next = if up { cur.checked_add(1) } else { cur.checked_sub(1) };
                match next {
                    Some(k) => {
                        self.write_cell(var.address, MemCell::Raw(k));
                        Outcome::Value(RtValue::Int(k))
                    },
                    None => {
                        if up {
                            Outcome::Error("attempt to add with overflow".to_string())
                        } else {
                            Outcome::Error("attempt to subtract with overflow".to_string())
                        }
                    },
                }
            },
            None => Outcome::Value(RtValue::Null),
        }
    }

    /// Declares the function of a declaration node whose parts are given.
    fn eval_function_parts(
        &mut self,
        node: &'a Node,
        name: &String,
        args: &'a Vec<(Box<Node>, String)>,
        body: &'a Node,
        is_system: bool,
        checked: bool,
    ) -> (r: Outcome)
        requires
            checked ==> (node.sv().value matches SNodeValue::Declaration(SDeclaration::Function(n2, a2, b2, _, s2))
                && n2 == name@ && a2 == args_sv(args@, args@.len() as int) && *b2 == body.sv() && s2 == is_system),
            !checked ==> (node.sv().value matches SNodeValue::Declaration(SDeclaration::CallBackFunction(n2, a2, b2, _, s2))
                && n2 == name@ && a2 == args_sv(args@, args@.len() as int) && *b2 == body.sv() && s2 == is_system),
        ensures
            (r.sv(), final(self)@) == exec_spec(old(self)@, node.sv(), 0),
            forall|f: nat| #[trigger] exec_spec(old(self)@, node.sv(), f) == exec_spec(old(self)@, node.sv(), 0),
    {
        proof {
            lemma_args_sv_index(args@, args@.len() as int);
        }
        let ghost targs = args_sv(args@, args@.len() as int);
        let mut params: Vec<(String, String)> = Vec::new();
        let mut k: usize = 0;
        while k < args.len()
            invariant
                k <= args.len(),
                targs == args_sv(args@, args@.len() as int),
                targs.len() == args@.len(),
                forall|j: int| 0 <= j < args@.len() ==> #[trigger] targs[j] == (args@[j].0.sv(), args@[j].1@),
                params@.len() == k,
                forall|j: int| 0 <= j < k ==> #[trigger] params@[j].0@ == args@[j].1@
                    && params@[j].1@ == var_name_of(args@[j].0.sv()),
            decreases args.len() - k,
        {
            let p = (args[k].1.clone(), name_of(&args[k].0));
            let ghost before = params@;
            params.push(p);
            assert forall|j: int| 0 <= j < k + 1 implies #[trigger] params@[j].0@ == args@[j].1@
                && params@[j].1@ == var_name_of(args@[j].0.sv()) by {
                if j < k {
                    assert(params@[j] == before[j]);
                } else {
                    assert(params@[j] == p);
                    assert(p.0@ == args@[j].1@);
                    assert(p.1@ == var_name_of(args@[j].0.sv()));
                }
            }
            k += 1;
        }
        assert forall|j: int| 0 <= j < params@.len() implies #[trigger] params_view(params@)[j] == args_params(targs)[j] by {
            assert(params@[j].0@ == args@[j].1@);
            assert(targs[j] == (args@[j].0.sv(), args@[j].1@));
        }
        assert(params_view(params@) =~= args_params(targs));
        let r = self.declare_function(name.as_str(), params, body, is_system, checked);
        frame_outcome(r, node.line, node.column)
    }

    /// Evaluates a call node whose name and arguments are given: the arguments in order,
    /// then the function, which costs one unit of `fuel`.
    fn eval_call_parts(&mut self, node: &'a Node, name: &String, args: &'a Vec<Node>, fuel: u64) -> (r: Outcome)
        requires
            node.sv().value matches SNodeValue::Call(n2, a2, _) && n2 == name@ && a2 == nodes_sv(args@, args@.len() as int),
        ensures
            (r.sv(), final(self)@) == exec_spec(old(self)@, node.sv(), fuel as nat),
        decreases fuel, node.sv(), 0int,
    {
        let ghost d0 = self@;
        let ghost vs = nodes_sv(args@, args@.len() as int);
        let ghost flag = node.sv().value->Call_2;
        proof {
            lemma_nodes_sv_index(args@, args@.len() as int);
        }
        let mut vals: Vec<RtValue> = Vec::new();
        let mut k: usize = 0;
        while k < args.len()
            invariant
                k <= args.len(),
                vs == nodes_sv(args@, args@.len() as int),
                vs.len() == args@.len(),
                forall|j: int| 0 <= j < args@.len() ==> #[trigger] vs[j] == args@[j].sv(),
                node.sv().value == SNodeValue::Call(name@, vs, flag),
                d0 == old(self)@,
                vals@.len() == k,
                (SOutcome::Value(Val::Array(vals_sv(vals@, k as int))), self@) == array_spec(d0, vs, k as int, fuel as nat),
            decreases args.len() - k,
        {
            proof {
                lemma_call_smaller(node.sv(), name@, vs, flag, k as int);
            }
            let rv = self.execute_node(&args[k], fuel);
            match rv {
                Outcome::Value(v) => {
                    proof {
                        lemma_vals_sv_push(vals@, v);
                    }
                    vals.push(v);
                    k += 1;
                },
                other => {
                    proof {
                        assert(array_spec(d0, vs, k + 1, fuel as nat) == (other.sv(), self@));
                        lemma_array_stopped(d0, vs, k + 1, vs.len() as int, fuel as nat);
                    }
                    return other;
                },
            }
        }
        if fuel == 0 {
            return Outcome::Exhausted;
        }
        let f = match self.function(name.as_str()) {
            Some(f) => f,
            None => {
                return Outcome::Framed(quoted_message("Function ", name.as_str(), " is not defined"), node.line, node.column);
            },
        };
        let ghost xs = vals_sv(vals@, vals@.len() as int);
        let ghost ps = params_view(f.params@);
        proof {
            lemma_vals_sv_index(vals@, vals@.len() as int);
        }
        let ghost d1 = self@;
        let n: usize = if f.params.len() <= vals.len() { f.params.len() } else { vals.len() };
        let mut j: usize = 0;
        while j < n
            invariant
                j <= n,
                n <= f.params.len(),
                n <= vals.len(),
                n == bound_count(ps, xs),
                ps == params_view(f.params@),
                ps.len() == f.params@.len(),
                xs == vals_sv(vals@, vals@.len() as int),
                xs.len() == vals@.len(),
                forall|i: int| 0 <= i < vals@.len() ==> #[trigger] xs[i] == vals@[i].sv(),
                self@ == bind_spec(d1, ps, xs, j as int),
            decreases n - j,
        {
            let address = self.new_cell(vals[j].copy());
            let var = Variable { data_type: f.params[j].1.clone(), value: vals[j].copy(), address, is_mutable: false };
            assert(ps[j as int] == (f.params@[j as int].0@, f.params@[j as int].1@));
            self.declare_store(f.params[j].0.clone(), var, true);
            j += 1;
        }
        self.run_body(f.body, fuel - 1)
    }

    /// Runs the body of a called function.
    fn run_body(&mut self, body: &'a Node, fuel: u64) -> (r: Outcome)
        ensures
            (r.sv(), final(self)@) == body_spec(old(self)@, body.sv(), fuel as nat),
        decreases fuel, body.sv(), 4int,
    {
        proof {
            reveal_with_fuel(Node::sv, 3);
        }
        let stmts = match &body.value {
            NodeValue::Block(stmts) => stmts,
            _ => {
                return Outcome::Value(RtValue::Null);
            },
        };
        assert(body.sv().value == SNodeValue::Block(boxes_sv(stmts@, stmts@.len() as int)));
        let saved = self.save_locals();
        let ghost d0 = self@;
        let ghost ss = boxes_sv(stmts@, stmts@.len() as int);
        proof {
            lemma_boxes_sv_index(stmts@, stmts@.len() as int);
        }
        let mut result = Outcome::Value(RtValue::Null);
        let mut i: usize = 0;
        while i < stmts.len()
            invariant
                i <= stmts.len(),
                ss == boxes_sv(stmts@, stmts@.len() as int),
                ss.len() == stmts@.len(),
                forall|k: int| 0 <= k < stmts@.len() ==> #[trigger] ss[k] == stmts@[k].sv(),
                body.sv().value == SNodeValue::Block(ss),
                d0 == old(self)@,
                result is Value,
                (result.sv(), self@) == run_body_spec(d0, ss, i as int, fuel as nat),
            decreases stmts.len() - i,
        {
            let stmt: &'a Node = &stmts[i];
            let unknown = match &stmt.value {
                NodeValue::Unknown => true,
                _ => false,
            };
            proof {
                reveal_with_fuel(Node::sv, 3);
                assert(ss[i as int] == stmt.sv());
                assert(unknown == (stmt.sv().value is Unknown));
            }
            if unknown {
                i += 1;
            } else {
                proof {
                    lemma_block_smaller(body.sv(), ss, i as int);
                }
                let ghost before = self@;
                let r = self.run_chain(stmt, fuel);
                assert(run_body_spec(d0, ss, i + 1, fuel as nat) == run_chain_spec(before, ss[i as int], fuel as nat));
                i += 1;
                match r {
                    Outcome::Value(_) => {
                        result = r;
                    },
                    other => {
                        proof {
                            lemma_run_body_stopped(d0, ss, i as int, ss.len() as int, fuel as nat);
                        }
                        return other;
                    },
                }
            }
        }
        self.restore_locals(saved);
        result
    }

    /// Evaluates a range node whose bounds are given.
    fn eval_range_parts(&mut self, node: &'a Node, a: &'a Node, b: &'a Node, fuel: u64) -> (r: Outcome)
        requires
            node.sv().value == SNodeValue::Operator(SOperator::Binary(BinOp::Range, Box::new(a.sv()), Box::new(b.sv()))),
        ensures
            (r.sv(), final(self)@) == exec_spec(old(self)@, node.sv(), fuel as nat),
        decreases fuel, node.sv(), 0int,
    {
        proof {
            lemma_binary_smaller(node.sv(), BinOp::Range, a.sv(), b.sv());
        }
        let ra = self.execute_node(a, fuel);
        match ra {
            Outcome::Value(x) => {
                let rb = self.execute_node(b, fuel);
                match rb {
                    Outcome::Value(y) => make_range(&x, &y),
                    other => other,
                }
            },
            other => other,
        }
    }

    /// Evaluates an array literal node.
    fn eval_array(&mut self, node: &'a Node, fuel: u64) -> (r: Outcome)
        requires
            node.sv().value matches SNodeValue::Declaration(SDeclaration::Array(_, _)),
        ensures
            (r.sv(), final(self)@) == exec_spec(old(self)@, node.sv(), fuel as nat),
        decreases fuel, node.sv(), 1int,
    {
        proof {
            reveal_with_fuel(Node::sv, 3);
        }
        match &node.value {
            NodeValue::Declaration(Declaration::Array(dt, values)) => self.eval_array_parts(node, dt, values, fuel),
            _ => Outcome::Unsupported,
        }
    }

    /// Evaluates an array literal whose type node and elements are given.
    fn eval_array_parts(&mut self, node: &'a Node, dt: &'a Node, values: &'a Vec<Box<Node>>, fuel: u64) -> (r: Outcome)
        requires
            node.sv().value == SNodeValue::Declaration(SDeclaration::Array(
                Box::new(dt.sv()),
                boxes_sv(values@, values@.len() as int),
            )),
        ensures
            (r.sv(), final(self)@) == exec_spec(old(self)@, node.sv(), fuel as nat),
        decreases fuel, node.sv(), 0int,
    {
        proof {
            reveal_with_fuel(Node::sv, 3);
        }
        let is_unit = match &dt.value {
            NodeValue::DataType(DataType::Unit(_)) => true,
            _ => false,
        };
        assert(is_unit == (dt.sv().value == SNodeValue::DataType(SDataType::Unit)));
        if is_unit {
            proof {
                reveal_strlit("Unknown node value: DataType(Unit(()))");
                reveal_strlit("Unknown node value: ");
                reveal_strlit("DataType(Unit(()))");
                assert("Unknown node value: DataType(Unit(()))"@ =~= unknown_message("DataType(Unit(()))"@));
            }
            return Outcome::Framed("Unknown node value: DataType(Unit(()))".to_string(), 0, 0);
        }
        let ghost d0 = self@;
        let ghost vs = boxes_sv(values@, values@.len() as int);
        proof {
            lemma_boxes_sv_index(values@, values@.len() as int);
        }
        let mut out: Vec<RtValue> = Vec::new();
        let mut k: usize = 0;
        while k < values.len()
            invariant
                k <= values.len(),
                vs == boxes_sv(values@, values@.len() as int),
                vs.len() == values@.len(),
                forall|j: int| 0 <= j < values@.len() ==> #[trigger] vs[j] == values@[j].sv(),
                node.sv().value == SNodeValue::Declaration(SDeclaration::Array(Box::new(dt.sv()), vs)),
                dt.sv().value != SNodeValue::DataType(SDataType::Unit),
                d0 == old(self)@,
                out@.len() == k,
                (SOutcome::Value(Val::Array(vals_sv(out@, k as int))), self@) == array_spec(d0, vs, k as int, fuel as nat),
            decreases values.len() - k,
        {
            proof {
                lemma_array_smaller(node.sv(), dt.sv(), vs, k as int);
            }
            let ghost before = self@;
            let rv = self.execute_node(&values[k], fuel);
            match rv {
                Outcome::Value(v) => {
                    proof {
                        lemma_vals_sv_push(out@, v);
                    }
                    out.push(v);
                    k += 1;
                },
                other => {
                    proof {
                        assert(array_spec(d0, vs, k + 1, fuel as nat) == (other.sv(), self@));
                        lemma_array_stopped(d0, vs, k + 1, vs.len() as int, fuel as nat);
                    }
                    return other;
                },
            }
        }
        Outcome::Value(RtValue::Array(out))
    }

    /// Evaluates a `for` node whose loop variable, iterator and body are given.
    fn eval_for_parts(&mut self, node: &'a Node, v: &'a Node, it: &'a Node, body: &'a Node, fuel: u64) -> (r: Outcome)
        requires
            node.sv().value == SNodeValue::ControlFlow(SControlFlow::For(Box::new(v.sv()), Box::new(it.sv()), Box::new(body.sv()))),
        ensures
            (r.sv(), final(self)@) == exec_spec(old(self)@, node.sv(), fuel as nat),
        decreases fuel, node.sv(), 0int,
    {
        proof {
            lemma_for_smaller(node.sv(), v.sv(), it.sv(), body.sv());
            reveal_strlit("break");
            reveal_strlit("continue");
        }
        let ri = self.execute_node(it, fuel);
        let items = match ri {
            Outcome::Value(RtValue::Array(items)) => items,
            Outcome::Value(_) => {
                return Outcome::Framed("The iterator is not an array".to_string(), node.line, node.column);
            },
            other => {
                return other;
            },
        };
        let ghost xs = vals_sv(items@, items@.len() as int);
        proof {
            lemma_vals_sv_index(items@, items@.len() as int);
        }
        let ghost d1 = self@;
        let name = name_of(v);
        let mut f: u64 = fuel;
        let mut k: usize = 0;
        let mut result = RtValue::Null;
        loop
            invariant
                f <= fuel,
                k <= items.len(),
                xs == vals_sv(items@, items@.len() as int),
                xs.len() == items@.len(),
                forall|j: int| 0 <= j < items@.len() ==> #[trigger] xs[j] == items@[j].sv(),
                name@ == var_name_of(v.sv()),
                node.sv().value == SNodeValue::ControlFlow(SControlFlow::For(Box::new(v.sv()), Box::new(it.sv()), Box::new(body.sv()))),
                decreases_to!(node.sv() => body.sv()),
                exec_spec(old(self)@, node.sv(), fuel as nat) == for_spec(d1, node.sv(), xs, 0, Val::Null, fuel as nat),
                for_spec(d1, node.sv(), xs, 0, Val::Null, fuel as nat)
                    == for_spec(self@, node.sv(), xs, k as int, result.sv(), f as nat),
            decreases f,
        {
            if k >= items.len() {
                return Outcome::Value(result);
            }
            if f == 0 {
                return Outcome::Exhausted;
            }
            let address = self.new_cell(items[k].copy());
            let var = Variable { data_type: "void".to_string(), value: items[k].copy(), address, is_mutable: true };
            self.declare_store(name.clone(), var, true);
            let rb = self.execute_node(body, f);
            match rb {
                Outcome::Value(val) => {
                    if is_text(&val, "break") {
                        return Outcome::Value(result);
                    }
                    if !is_text(&val, "continue") {
                        result = val;
                    }
                    f = f - 1;
                    k += 1;
                },
                other => {
                    return other;
                },
            }
        }
    }

    /// Evaluates an operator node.
    fn eval_operator(&mut self, node: &'a Node, fuel: u64) -> (r: Outcome)
        requires
            node.sv().value is Operator,
        ensures
            (r.sv(), final(self)@) == exec_spec(old(self)@, node.sv(), fuel as nat),
        decreases fuel, node.sv(), 1int,
    {
        proof {
            reveal_with_fuel(Node::sv, 3);
            reveal_with_fuel(NodeValue::sv, 2);
            reveal_with_fuel(Operator::sv, 2);
        }
        match &node.value {
            NodeValue::Operator(o) => match o {
                Operator::Add(a, b) => self.eval_binary_parts(node, Ok(ArithOp::Add), a, b, fuel),
                Operator::Sub(a, b) => self.eval_binary_parts(node, Ok(ArithOp::Sub), a, b, fuel),
                Operator::Mul(a, b) => self.eval_binary_parts(node, Ok(ArithOp::Mul), a, b, fuel),
                Operator::Div(a, b) => self.eval_binary_parts(node, Ok(ArithOp::Div), a, b, fuel),
                Operator::AddAssign(a, b) => self.eval_binary_parts(node, Ok(ArithOp::AddAssign), a, b, fuel),
                Operator::SubAssign(a, b) => self.eval_binary_parts(node, Ok(ArithOp::SubAssign), a, b, fuel),
                Operator::MulAssign(a, b) => self.eval_binary_parts(node, Ok(ArithOp::MulAssign), a, b, fuel),
                Operator::DivAssign(a, b) => self.eval_binary_parts(node, Ok(ArithOp::DivAssign), a, b, fuel),
                Operator::Eq(a, b) => self.eval_binary_parts(node, Err(Relation::Eq), a, b, fuel),
                Operator::Ne(a, b) => self.eval_binary_parts(node, Err(Relation::Ne), a, b, fuel),
                Operator::Lt(a, b) => self.eval_binary_parts(node, Err(Relation::Lt), a, b, fuel),
                Operator::Gt(a, b) => self.eval_binary_parts(node, Err(Relation::Gt), a, b, fuel),
                Operator::Le(a, b) => self.eval_binary_parts(node, Err(Relation::Le), a, b, fuel),
                Operator::Ge(a, b) => self.eval_binary_parts(node, Err(Relation::Ge), a, b, fuel),
                Operator::And(_, _) | Operator::Or(_, _) => Outcome::Error("Unsupported node value".to_string()),
                Operator::Range(a, b) => self.eval_range_parts(node, a, b, fuel),
                Operator::Increment(a) => self.eval_step_parts(node, true, a, fuel),
                Operator::Decrement(a) => self.eval_step_parts(node, false, a, fuel),
                Operator::BitAnd(a, b) => self.eval_bit_parts(node, BinOp::BitAnd, a, b, fuel),
                Operator::BitOr(a, b) => self.eval_bit_parts(node, BinOp::BitOr, a, b, fuel),
                Operator::BitXor(a, b) => self.eval_bit_parts(node, BinOp::BitXor, a, b, fuel),
                Operator::ShiftLeft(a, b) => self.eval_bit_parts(node, BinOp::ShiftLeft, a, b, fuel),
                Operator::ShiftRight(a, b) => self.eval_bit_parts(node, BinOp::ShiftRight, a, b, fuel),
                _ => Outcome::Unsupported,
            },
            _ => Outcome::Unsupported,
        }
    }

    /// Evaluates the operands of an arithmetic operator or a comparison, then applies it.
    fn eval_binary_parts(&mut self, node: &'a Node, kind: Result<ArithOp, Relation>, a: &'a Node, b: &'a Node, fuel: u64) -> (r: Outcome)
        requires
            node.sv().value is Operator,
            node.sv().value->Operator_0 is Binary,
            node.sv().value->Operator_0->Binary_1 == Box::new(a.sv()),
            node.sv().value->Operator_0->Binary_2 == Box::new(b.sv()),
            match kind {
                Ok(aop) => arith_of(node.sv().value->Operator_0->Binary_0) == Some(aop),
                Err(rel) => arith_of(node.sv().value->Operator_0->Binary_0) is None
                    && relation_of(node.sv().value->Operator_0->Binary_0) == Some(rel),
            },
        ensures
            (r.sv(), final(self)@) == exec_spec(old(self)@, node.sv(), fuel as nat),
        decreases fuel, node.sv(), 0int,
    {
        let ghost bop = node.sv().value->Operator_0->Binary_0;
        proof {
            lemma_binary_smaller(node.sv(), bop, a.sv(), b.sv());
        }
        let ra = self.execute_node(a, fuel);
        match ra {
            Outcome::Value(x) => {
                let rb = self.execute_node(b, fuel);
                match rb {
                    Outcome::Value(y) => match kind {
                        Ok(aop) => {
                            let r = eval_binary_op(aop, &x, &y, node.line, node.column);
                            self.settle(r, node.line, node.column)
                        },
                        Err(rel) => {
                            let r = eval_condition(rel, &x, &y);
                            self.settle(r, node.line, node.column)
                        },
                    },
                    other => other,
                }
            },
            other => other,
        }
    }

    /// Evaluates a `while` node whose condition and body are given.
    fn eval_while_parts(&mut self, node: &'a Node, c: &'a Node, body: &'a Node, fuel: u64) -> (r: Outcome)
        requires
            node.sv().value == SNodeValue::ControlFlow(SControlFlow::While(Box::new(c.sv()), Box::new(body.sv()))),
        ensures
            (r.sv(), final(self)@) == while_spec(old(self)@, node.sv(), Val::Null, fuel as nat),
        decreases fuel, node.sv(), 0int,
    {
        proof {
            lemma_while_smaller(node.sv(), c.sv(), body.sv());
            reveal_strlit("break");
            reveal_strlit("continue");
        }
        let mut f: u64 = fuel;
        let mut result = RtValue::Null;
        loop
            invariant
                f <= fuel,
                node.sv().value == SNodeValue::ControlFlow(SControlFlow::While(Box::new(c.sv()), Box::new(body.sv()))),
                decreases_to!(node.sv() => c.sv()),
                decreases_to!(node.sv() => body.sv()),
                while_spec(old(self)@, node.sv(), Val::Null, fuel as nat)
                    == while_spec(self@, node.sv(), result.sv(), f as nat),
            decreases f,
        {
            if f == 0 {
                return Outcome::Exhausted;
            }
            let rc = self.execute_node(c, f);
            match rc {
                Outcome::Value(RtValue::Bool(true)) => {
                    let rb = self.execute_node(body, f);
                    match rb {
                        Outcome::Value(v) => {
                            if is_text(&v, "break") {
                                return Outcome::Value(result);
                            }
                            if !is_text(&v, "continue") {
                                result = v;
                            }
                            f = f - 1;
                        },
                        other => {
                            return other;
                        },
                    }
                },
                Outcome::Value(RtValue::Bool(false)) => {
                    return Outcome::Value(result);
                },
                Outcome::Value(_) => {
                    return Outcome::Error("Condition must evaluate to a boolean".to_string());
                },
                other => {
                    return other;
                },
            }
        }
    }

    /// Evaluates a `loop` node whose body is given.
    fn eval_loop_parts(&mut self, node: &'a Node, body: &'a Node, fuel: u64) -> (r: Outcome)
        requires
            node.sv().value == SNodeValue::ControlFlow(SControlFlow::Loop(Box::new(body.sv()))),
        ensures
            (r.sv(), final(self)@) == while_spec(old(self)@, node.sv(), Val::Null, fuel as nat),
        decreases fuel, node.sv(), 0int,
    {
        proof {
            lemma_loop_smaller(node.sv(), body.sv());
        }
        let mut f: u64 = fuel;
        loop
            invariant
                f <= fuel,
                node.sv().value == SNodeValue::ControlFlow(SControlFlow::Loop(Box::new(body.sv()))),
                decreases_to!(node.sv() => body.sv()),
                while_spec(old(self)@, node.sv(), Val::Null, fuel as nat)
                    == while_spec(self@, node.sv(), Val::Null, f as nat),
            decreases f,
        {
            if f == 0 {
                return Outcome::Exhausted;
            }
            let rb = self.execute_node(body, f);
            match rb {
                Outcome::Value(_) => {
                    f = f - 1;
                },
                other => {
                    return other;
                },
            }
        }
    }

    /// Evaluates an `if` node, and the `else if` and `else` after its condition.
    fn eval_if(&mut self, node: &'a Node, fuel: u64) -> (r: Outcome)
        requires
            node.sv().value matches SNodeValue::ControlFlow(SControlFlow::If(_, _)),
        ensures
            (r.sv(), final(self)@) == if_spec(old(self)@, node.sv(), fuel as nat),
        decreases fuel, node.sv(), 1int,
    {
        proof {
            reveal_with_fuel(Node::sv, 3);
            reveal_with_fuel(NodeValue::sv, 2);
            reveal_with_fuel(ControlFlow::sv, 2);
        }
        match &node.value {
            NodeValue::ControlFlow(ControlFlow::If(c, body)) => self.eval_if_parts(node, c, body, fuel),
            _ => Outcome::Unsupported,
        }
    }

    /// Evaluates an `if` node whose condition and body are given.
    fn eval_if_parts(&mut self, node: &'a Node, c: &'a Node, body: &'a Node, fuel: u64) -> (r: Outcome)
        requires
            node.sv().value == SNodeValue::ControlFlow(SControlFlow::If(Box::new(c.sv()), Box::new(body.sv()))),
        ensures
            (r.sv(), final(self)@) == if_spec(old(self)@, node.sv(), fuel as nat),
        decreases fuel, node.sv(), 0int,
    {
        proof {
            reveal_with_fuel(Node::sv, 3);
            reveal_with_fuel(NodeValue::sv, 2);
            reveal_with_fuel(ControlFlow::sv, 2);
            lemma_if_smaller(node.sv(), c.sv(), body.sv());
        }
        let rc = self.execute_node(c, fuel);
        match rc {
            Outcome::Value(RtValue::Bool(true)) => self.execute_node(body, fuel),
            Outcome::Value(RtValue::Bool(false)) => match &c.next {
                Some(m) => {
                    proof {
                        assert(c.sv().next == Some(Box::new(m.sv())));
                        lemma_next_smaller(c.sv(), m.sv());
                    }
                    match &m.value {
                        NodeValue::ControlFlow(ControlFlow::If(_, _)) => self.eval_if(m, fuel),
                        NodeValue::ControlFlow(ControlFlow::Else(e)) => {
                            proof {
                                assert(m.sv().value == SNodeValue::ControlFlow(SControlFlow::Else(Box::new(e.sv()))));
                                lemma_else_smaller(m.sv(), e.sv());
                            }
                            self.execute_node(e, fuel)
                        },
                        _ => {
                            proof {
                                assert(!(m.sv().value matches SNodeValue::ControlFlow(SControlFlow::If(_, _))));
                                assert(!(m.sv().value matches SNodeValue::ControlFlow(SControlFlow::Else(_))));
                            }
                            Outcome::Value(RtValue::Null)
                        },
                    }
                },
                None => Outcome::Value(RtValue::Null),
            },
            Outcome::Value(_) => Outcome::Value(RtValue::Null),
            other => other,
        }
    }

    /// Evaluates a variable declaration node.
    fn eval_declaration(&mut self, node: &'a Node, fuel: u64) -> (r: Outcome)
        requires
            node.sv().value matches SNodeValue::Declaration(SDeclaration::Variable(_, _, _, _, _, _)),
        ensures
            (r.sv(), final(self)@) == exec_spec(old(self)@, node.sv(), fuel as nat),
        decreases fuel, node.sv(), 1int,
    {
        proof {
            reveal_with_fuel(Node::sv, 3);
            reveal_with_fuel(NodeValue::sv, 2);
            reveal_with_fuel(Declaration::sv, 2);
        }
        match &node.value {
            NodeValue::Declaration(Declaration::Variable(vn, dt, vv, is_local, is_mutable, is_reference)) => {
                self.eval_declaration_parts(node, vn, dt, vv, *is_local, *is_mutable, *is_reference, fuel)
            },
            _ => Outcome::Unsupported,
        }
    }

    /// Evaluates a variable declaration whose parts are given.
    fn eval_declaration_parts(
        &mut self,
        node: &'a Node,
        vn: &'a Node,
        dt: &'a Node,
        vv: &'a Node,
        is_local: bool,
        is_mutable: bool,
        is_reference: bool,
        fuel: u64,
    ) -> (r: Outcome)
        requires
            node.sv().value == SNodeValue::Declaration(SDeclaration::Variable(
                Box::new(vn.sv()),
                Box::new(dt.sv()),
                Box::new(vv.sv()),
                is_local,
                is_mutable,
                is_reference,
            )),
        ensures
            (r.sv(), final(self)@) == exec_spec(old(self)@, node.sv(), fuel as nat),
        decreases fuel, node.sv(), 0int,
    {
        proof {
            reveal_with_fuel(Node::sv, 3);
            reveal_with_fuel(NodeValue::sv, 2);
        }
        let name = name_of(vn);
        match self.declare_check(name.as_str(), is_local, node.is_statement) {
            Some(e) => Outcome::Framed(e, node.line, node.column),
            None => {
                proof {
                    lemma_declaration_smaller(node.sv(), vn.sv(), dt.sv(), vv.sv(), is_local, is_mutable, is_reference);
                }
                let rv = self.execute_node(vv, fuel);
                match rv {
                    Outcome::Value(x) => {
                        let is_var = match &vv.value {
                            NodeValue::Variable(_, _) => true,
                            _ => false,
                        };
                        let address = if is_reference && is_var {
                            let target = name_of(vv);
                            match self.table_address(target.as_str(), is_local) {
                                Some(a) => a,
                                None => {
                                    return Outcome::Framed(
                                        quoted_message("Variable ", target.as_str(), " not found in context"),
                                        node.line,
                                        node.column,
                                    );
                                },
                            }
                        } else {
                            self.new_cell(x.copy())
                        };
                        let result = x.copy();
                        let ty = name_of(dt);
                        self.declare_store(name, Variable { data_type: ty, value: x, address, is_mutable }, is_local);
                        Outcome::Value(result)
                    },
                    other => other,
                }
            },
        }
    }

    /// Evaluates an assignment node.
    fn eval_assign_node(&mut self, node: &'a Node, fuel: u64) -> (r: Outcome)
        requires
            node.sv().value is Assign,
        ensures
            (r.sv(), final(self)@) == exec_spec(old(self)@, node.sv(), fuel as nat),
        decreases fuel, node.sv(), 1int,
    {
        proof {
            reveal_with_fuel(Node::sv, 3);
            reveal_with_fuel(NodeValue::sv, 2);
        }
        match &node.value {
            NodeValue::Assign(vn, vv, idx) => self.eval_assign_parts(node, vn, vv, idx, fuel),
            _ => Outcome::Unsupported,
        }
    }

    /// Evaluates an assignment whose parts are given.
    fn eval_assign_parts(&mut self, node: &'a Node, vn: &'a Node, vv: &'a Node, idx: &'a Node, fuel: u64) -> (r: Outcome)
        requires
            node.sv().value == SNodeValue::Assign(Box::new(vn.sv()), Box::new(vv.sv()), Box::new(idx.sv())),
        ensures
            (r.sv(), final(self)@) == exec_spec(old(self)@, node.sv(), fuel as nat),
        decreases fuel, node.sv(), 0int,
    {
        proof {
            reveal_with_fuel(Node::sv, 3);
            reveal_with_fuel(NodeValue::sv, 2);
        }
        let name = name_of(vn);
        match self.assign_check(name.as_str(), node.is_statement) {
            Err(e) => Outcome::Framed(e, node.line, node.column),
            Ok(var) => {
                proof {
                    lemma_assign_smaller(node.sv(), vn.sv(), vv.sv(), idx.sv());
                }
                let rv = self.execute_node(vv, fuel);
                match rv {
                    Outcome::Value(x) => {
                        let is_array = match &var.value {
                            RtValue::Array(_) => true,
                            _ => false,
                        };
                        if is_array {
                            let ri = self.execute_node(idx, fuel);
                            match ri {
                                Outcome::Value(iv) => {
                                    let r = self.assign_store(name.as_str(), var, x, &iv);
                                    frame_outcome(r, node.line, node.column)
                                },
                                other => other,
                            }
                        } else {
                            let r = self.assign_store(name.as_str(), var, x, &RtValue::Null);
                            frame_outcome(r, node.line, node.column)
                        }
                    },
                    other => other,
                }
            },
        }
    }

    /// Evaluates a block: its statements in order, each with the nodes chained after it; the
    /// local variables are put back as they were when the block runs to its end.
    fn eval_block(&mut self, node: &'a Node, fuel: u64) -> (r: Outcome)
        requires
            node.sv().value is Block,
        ensures
            (r.sv(), final(self)@) == exec_spec(old(self)@, node.sv(), fuel as nat),
        decreases fuel, node.sv(), 1int,
    {
        proof {
            reveal_with_fuel(Node::sv, 3);
            reveal_with_fuel(NodeValue::sv, 2);
        }
        match &node.value {
            NodeValue::Block(stmts) => self.eval_block_parts(node, stmts, fuel),
            _ => Outcome::Unsupported,
        }
    }

    /// Evaluates a block whose statements are given.
    fn eval_block_parts(&mut self, node: &'a Node, stmts: &'a Vec<Box<Node>>, fuel: u64) -> (r: Outcome)
        requires
            node.sv().value == SNodeValue::Block(boxes_sv(stmts@, stmts@.len() as int)),
        ensures
            (r.sv(), final(self)@) == exec_spec(old(self)@, node.sv(), fuel as nat),
        decreases fuel, node.sv(), 0int,
    {
        let saved = self.save_locals();
        let ghost d0 = self@;
        let ghost ss = boxes_sv(stmts@, stmts@.len() as int);
        proof {
            lemma_boxes_sv_index(stmts@, stmts@.len() as int);
        }
        let mut result = Outcome::Value(RtValue::Null);
        let mut i: usize = 0;
        while i < stmts.len()
            invariant
                i <= stmts.len(),
                ss == boxes_sv(stmts@, stmts@.len() as int),
                ss.len() == stmts@.len(),
                forall|k: int| 0 <= k < stmts@.len() ==> #[trigger] ss[k] == stmts@[k].sv(),
                node.sv().value == SNodeValue::Block(ss),
                d0 == old(self)@,
                result is Value,
                (result.sv(), self@) == run_stmts_spec(d0, ss, i as int, fuel as nat),
            decreases stmts.len() - i,
        {
            proof {
                lemma_block_smaller(node.sv(), ss, i as int);
            }
            let ghost before = self@;
            let r = self.run_chain(&stmts[i], fuel);
            assert(run_stmts_spec(d0, ss, i + 1, fuel as nat) == run_chain_spec(before, ss[i as int], fuel as nat));
            i += 1;
            match r {
                Outcome::Value(_) => {
                    result = r;
                },
                other => {
                    proof {
                        lemma_run_stmts_stopped(d0, ss, i as int, ss.len() as int, fuel as nat);
                    }
                    return other;
                },
            }
        }
        self.restore_locals(saved);
        result
    }

    /// Evaluates `n` and the nodes chained after it, stopping after an error, a request or a
    /// `return`.
    fn run_chain(&mut self, n: &'a Node, fuel: u64) -> (r: Outcome)
        ensures
            (r.sv(), final(self)@) == run_chain_spec(old(self)@, n.sv(), fuel as nat),
        decreases fuel, n.sv(), 3int,
    {
        proof {
            reveal_with_fuel(Node::sv, 3);
            reveal_with_fuel(NodeValue::sv, 2);
            reveal_with_fuel(ControlFlow::sv, 2);
        }
        let r = self.execute_node(n, fuel);
        match r {
            Outcome::Value(_) => {
                let is_return = match &n.value {
                    NodeValue::ControlFlow(c) => match c {
                        ControlFlow::Return(_) => true,
                        _ => {
                            assert(!(c.sv() is Return));
                            false
                        },
                    },
                    _ => false,
                };
                assert(is_return == (n.sv().value matches SNodeValue::ControlFlow(SControlFlow::Return(_))));
                if is_return {
                    r
                } else {
                    match &n.next {
                        Some(m) => {
                            proof {
                                assert(n.sv().next == Some(Box::new(m.sv())));
                                lemma_next_smaller(n.sv(), m.sv());
                            }
                            self.run_chain(m, fuel)
                        },
                        None => r,
                    }
                }
            },
            _ => r,
        }
    }
    /// Runs a program read from `file`, whose text is `source`: its top-level statements, the
    /// root node and those chained after it, in order, skipping statement ends, stopping at the
    /// first that gives no value; then the entry function, when the program declared one.  An
    /// error that belongs to a node comes back as a diagnostic that names the file and shows the
    /// node's line with a caret under its column.
    pub fn decode(&mut self, root: &'a Node, file: &str, source: &str, fuel: u64) -> (r: Outcome)
        ensures
            final(self)@ == program_spec(old(self)@, chain(root.sv()), fuel as nat).1,
            reported(program_spec(old(self)@, chain(root.sv()), fuel as nat).0, r, file@, source@),
    {
        let r = self.run_program(root, fuel);
        match r {
            Outcome::Framed(m, line, column) => {
                if line >= 1 && (!line_exists(source, line - 1) || column >= 1) {
                    let ghost mv = error_view(m@, line, column);
                    proof {
                        reveal_strlit("error");
                        assert(mv.lines[0] == (line, column));
                        assert(renderable(mv, source@));
                    }
                    Outcome::Error(error_report("error", line, column, file, source, m.as_str()))
                } else {
                    Outcome::Error(m)
                }
            },
            other => other,
        }
    }

    /// Runs a program as `decode` does, with the errors that belong to a node left unframed.
    fn run_program(&mut self, root: &'a Node, fuel: u64) -> (r: Outcome)
        ensures
            (r.sv(), final(self)@) == program_spec(old(self)@, chain(root.sv()), fuel as nat),
    {
        let nodes = root.iter();
        let ghost d0 = self@;
        let ghost ns = chain(root.sv());
        assert(forall|k: int| 0 <= k < nodes@.len() ==> #[trigger] ns[k] == nodes@[k].sv()) by {
            assert forall|k: int| 0 <= k < nodes@.len() implies #[trigger] ns[k] == nodes@[k].sv() by {
                assert(nodes@.map_values(|n: &'a Node| n.sv())[k] == nodes@[k].sv());
            }
        }
        let mut result = Outcome::Value(RtValue::Null);
        let mut i: usize = 0;
        while i < nodes.len()
            invariant
                i <= nodes.len(),
                ns == chain(root.sv()),
                ns.len() == nodes@.len(),
                forall|k: int| 0 <= k < nodes@.len() ==> #[trigger] ns[k] == nodes@[k].sv(),
                d0 == old(self)@,
                result is Value,
                (result.sv(), self@) == decode_spec(d0, ns, i as int, fuel as nat),
            decreases nodes.len() - i,
        {
            let node: &'a Node = nodes[i];
            let is_end = match &node.value {
                NodeValue::EndStatement => true,
                _ => false,
            };
            proof {
                reveal_with_fuel(Node::sv, 3);
                reveal_with_fuel(NodeValue::sv, 2);
                assert(ns[i as int] == node.sv());
                assert(is_end == (node.sv().value is EndStatement));
            }
            if !is_end {
                let r = self.execute_node(node, fuel);
                i += 1;
                match r {
                    Outcome::Value(_) => {
                        result = r;
                    },
                    other => {
                        proof {
                            lemma_decode_stopped(d0, ns, i as int, ns.len() as int, fuel as nat);
                        }
                        return other;
                    },
                }
            } else {
                i += 1;
            }
        }
        match self.entry_name() {
            Some(f) => self.run_entry(f.as_str(), fuel),
            None => result,
        }
    }

    /// Calls the entry function `name` without arguments.
    fn run_entry(&mut self, name: &str, fuel: u64) -> (r: Outcome)
        ensures
            (r.sv(), final(self)@) == call_spec(old(self)@, name@, Seq::empty(), fuel as nat),
    {
        if fuel == 0 {
            return Outcome::Exhausted;
        }
        match self.function(name) {
            Some(f) => {
                assert(bound_count(params_view(f.params@), Seq::<Val>::empty()) == 0);
                self.run_body(f.body, fuel - 1)
            },
            None => Outcome::Error(quoted_message("Function ", name, " is not defined")),
        }
    }

}

} // verus!
