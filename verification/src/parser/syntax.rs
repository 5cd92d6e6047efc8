//! The parser: tokens to a syntax tree, one statement after the other.
use vstd::prelude::*;
use crate::types::{TokenType, Node, NodeValue, DataType, ControlFlow, Operator, Declaration,
    SNode, SNodeValue, SDataType, SControlFlow, SDeclaration, BinOp, UnOp, clone_strings, nodes_sv, boxes_sv, args_sv,
    lemma_boxes_sv_push, lemma_nodes_sv_push, lemma_args_sv_push};
use crate::lexer::{Token, TokenView, tokens_view, token_debug};
use crate::literal::{parse_i64, parse_bool, is_float_text};
use crate::text::str_eq;
use crate::error::{error_report, renders, message_pieces, MessageView, line_exists};
use crate::parser::grammar::{Ctx, Fault, Parsed, SumOp, present, is_at, left, node_at, null_at,
    default_node, data_type_of, append, report, node_here, factor, named, call_args, item,
    array_items, members, term, term_rest, expr, expr_rest, condition, condition_rest, data_type, block,
    block_items, statements, statement, structure, function, params, param, param_type, function_tail, while_loop,
    if_else, else_part, for_source, for_loop, nested_from, nested, declared, declared_empty, variable, type_alias,
    assigned, assignment, product_op, sum_op, compare_op, binary, sum_value, word, name_word,
    law_statements_end_at_close};

verus! {

/// A token as a report shows it: as `Debug` writes it, or inside `Some(..)`.
pub open spec fn shown_token(t: TokenView, some: bool) -> Seq<char> {
    if some { "Some("@ + token_debug(t) + ")"@ } else { token_debug(t) }
}

/// The error message that reports `text` at the token at `k`.
pub open spec fn fault_view(c: Ctx, k: int, text: Seq<char>, some: bool) -> MessageView {
    MessageView {
        level: "error"@,
        lines: seq![(c.toks[k].line, c.toks[k].column)],
        message: text + shown_token(c.toks[k], some),
        children: Seq::empty(),
    }
}

/// `e` is the text of the fault `f`: a plain message as it is, a report rendered against the
/// source text and its path.
pub open spec fn shows_fault(c: Ctx, f: Fault, e: Seq<char>) -> bool {
    match f {
        Fault::Plain(t) => e == t,
        Fault::At(k, text, some) => renders(e, message_pieces(fault_view(c, k, text, some), c.file, c.src)),
    }
}

/// The end of one parsing step: a value with the position and flag after it, a message with
/// the position and flag where it arose, or no end.
pub enum Step<T> {
    Done(T, usize, bool),
    Fail(String, usize, bool),
    Stuck,
}

/// A step that ends with a node ends as the grammar says.
pub open spec fn agrees(c: Ctx, r: Step<Box<Node>>, p: Parsed<SNode>) -> bool {
    match p {
        Parsed::Done(n, j, s) => match r {
            Step::Done(m, j2, s2) => m.sv() == n && j2 == j && s2 == s,
            _ => false,
        },
        Parsed::Failed(f, j, s) => match r {
            Step::Fail(e, j2, s2) => shows_fault(c, f, e@) && j2 == j && s2 == s,
            _ => false,
        },
        Parsed::Stuck => r is Stuck,
    }
}

/// A step that ends with a typed parameter ends as the grammar says.
pub open spec fn param_agrees(c: Ctx, r: Step<(Box<Node>, String)>, p: Parsed<(SNode, Seq<char>)>) -> bool {
    match p {
        Parsed::Done(n, j, s) => match r {
            Step::Done(m, j2, s2) => (m.0.sv(), m.1@) == n && j2 == j && s2 == s,
            _ => false,
        },
        Parsed::Failed(f, j, s) => match r {
            Step::Fail(e, j2, s2) => shows_fault(c, f, e@) && j2 == j && s2 == s,
            _ => false,
        },
        Parsed::Stuck => r is Stuck,
    }
}

/// A step never moves back.
pub open spec fn forward<T>(r: Step<T>, i: int) -> bool {
    match r {
        Step::Done(_, j, _) => j >= i,
        _ => true,
    }
}

/// The value of an optional node.
pub open spec fn opt_sv(n: Option<Box<Node>>) -> Option<SNode> {
    match n {
        Some(b) => Some(b.sv()),
        None => None,
    }
}

/// Whether `k` is the plain kind `t`.
pub fn same_kind(k: &TokenType, t: &TokenType) -> (r: bool)
    requires
        t@ is Plain,
    ensures
        r == (k@ == t@),
{
    match (k, t) {
        (TokenType::Add, TokenType::Add) => true,
        (TokenType::Sub, TokenType::Sub) => true,
        (TokenType::Mul, TokenType::Mul) => true,
        (TokenType::Div, TokenType::Div) => true,
        (TokenType::Increment, TokenType::Increment) => true,
        (TokenType::Decrement, TokenType::Decrement) => true,
        (TokenType::AddAssign, TokenType::AddAssign) => true,
        (TokenType::SubAssign, TokenType::SubAssign) => true,
        (TokenType::MulAssign, TokenType::MulAssign) => true,
        (TokenType::DivAssign, TokenType::DivAssign) => true,
        (TokenType::Eq, TokenType::Eq) => true,
        (TokenType::Ne, TokenType::Ne) => true,
        (TokenType::Lt, TokenType::Lt) => true,
        (TokenType::Gt, TokenType::Gt) => true,
        (TokenType::Le, TokenType::Le) => true,
        (TokenType::Ge, TokenType::Ge) => true,
        (TokenType::And, TokenType::And) => true,
        (TokenType::Or, TokenType::Or) => true,
        (TokenType::BitAnd, TokenType::BitAnd) => true,
        (TokenType::BitOr, TokenType::BitOr) => true,
        (TokenType::BitXor, TokenType::BitXor) => true,
        (TokenType::BitNot, TokenType::BitNot) => true,
        (TokenType::ShiftLeft, TokenType::ShiftLeft) => true,
        (TokenType::ShiftRight, TokenType::ShiftRight) => true,
        (TokenType::BitAndAssign, TokenType::BitAndAssign) => true,
        (TokenType::BitOrAssign, TokenType::BitOrAssign) => true,
        (TokenType::BitXorAssign, TokenType::BitXorAssign) => true,
        (TokenType::ShiftLeftAssign, TokenType::ShiftLeftAssign) => true,
        (TokenType::ShiftRightAssign, TokenType::ShiftRightAssign) => true,
        (TokenType::Ident, TokenType::Ident) => true,
        (TokenType::Number, TokenType::Number) => true,
        (TokenType::Reference, TokenType::Reference) => true,
        (TokenType::LeftParen, TokenType::LeftParen) => true,
        (TokenType::RightParen, TokenType::RightParen) => true,
        (TokenType::RightCurlyBrace, TokenType::RightCurlyBrace) => true,
        (TokenType::LeftCurlyBrace, TokenType::LeftCurlyBrace) => true,
        (TokenType::LeftSquareBrace, TokenType::LeftSquareBrace) => true,
        (TokenType::RightSquareBrace, TokenType::RightSquareBrace) => true,
        (TokenType::Conma, TokenType::Conma) => true,
        (TokenType::Equals, TokenType::Equals) => true,
        (TokenType::AtSign, TokenType::AtSign) => true,
        (TokenType::Semi, TokenType::Semi) => true,
        (TokenType::Colon, TokenType::Colon) => true,
        (TokenType::DoubleQuote, TokenType::DoubleQuote) => true,
        (TokenType::SingleQuote, TokenType::SingleQuote) => true,
        (TokenType::RightArrow, TokenType::RightArrow) => true,
        (TokenType::Eof, TokenType::Eof) => true,
        (TokenType::Range, TokenType::Range) => true,
        (TokenType::ScopeResolution, TokenType::ScopeResolution) => true,
        _ => false,
    }
}

/// `l op r` as a node value.
pub fn binary_value(op: BinOp, l: Box<Node>, r: Box<Node>) -> (v: NodeValue)
    ensures
        v.sv() == binary(op, l.sv(), r.sv()),
{
    match op {
        BinOp::Eq => NodeValue::Operator(Operator::Eq(l, r)),
        BinOp::Ne => NodeValue::Operator(Operator::Ne(l, r)),
        BinOp::Lt => NodeValue::Operator(Operator::Lt(l, r)),
        BinOp::Gt => NodeValue::Operator(Operator::Gt(l, r)),
        BinOp::Le => NodeValue::Operator(Operator::Le(l, r)),
        BinOp::Ge => NodeValue::Operator(Operator::Ge(l, r)),
        BinOp::And => NodeValue::Operator(Operator::And(l, r)),
        BinOp::Or => NodeValue::Operator(Operator::Or(l, r)),
        BinOp::Add => NodeValue::Operator(Operator::Add(l, r)),
        BinOp::Sub => NodeValue::Operator(Operator::Sub(l, r)),
        BinOp::Mul => NodeValue::Operator(Operator::Mul(l, r)),
        BinOp::Div => NodeValue::Operator(Operator::Div(l, r)),
        BinOp::AddAssign => NodeValue::Operator(Operator::AddAssign(l, r)),
        BinOp::SubAssign => NodeValue::Operator(Operator::SubAssign(l, r)),
        BinOp::MulAssign => NodeValue::Operator(Operator::MulAssign(l, r)),
        BinOp::DivAssign => NodeValue::Operator(Operator::DivAssign(l, r)),
        BinOp::BitAnd => NodeValue::Operator(Operator::BitAnd(l, r)),
        BinOp::BitOr => NodeValue::Operator(Operator::BitOr(l, r)),
        BinOp::BitXor => NodeValue::Operator(Operator::BitXor(l, r)),
        BinOp::ShiftLeft => NodeValue::Operator(Operator::ShiftLeft(l, r)),
        BinOp::ShiftRight => NodeValue::Operator(Operator::ShiftRight(l, r)),
        BinOp::BitAndAssign => NodeValue::Operator(Operator::BitAndAssign(l, r)),
        BinOp::BitOrAssign => NodeValue::Operator(Operator::BitOrAssign(l, r)),
        BinOp::BitXorAssign => NodeValue::Operator(Operator::BitXorAssign(l, r)),
        BinOp::ShiftLeftAssign => NodeValue::Operator(Operator::ShiftLeftAssign(l, r)),
        BinOp::ShiftRightAssign => NodeValue::Operator(Operator::ShiftRightAssign(l, r)),
        BinOp::Range => NodeValue::Operator(Operator::Range(l, r)),
    }
}

/// The operator of the product level that `k` stands for.
fn product_op_of(k: &TokenType) -> (r: Option<BinOp>)
    ensures
        r == product_op(k@),
{
    match k {
        TokenType::Mul => Some(BinOp::Mul),
        TokenType::Div => Some(BinOp::Div),
        TokenType::MulAssign => Some(BinOp::MulAssign),
        TokenType::DivAssign => Some(BinOp::DivAssign),
        _ => None,
    }
}

/// The operator of the sum level that `k` stands for.
fn sum_op_of(k: &TokenType) -> (r: Option<SumOp>)
    ensures
        r == sum_op(k@),
{
    match k {
        TokenType::Add => Some(SumOp::Two(BinOp::Add)),
        TokenType::Sub => Some(SumOp::Two(BinOp::Sub)),
        TokenType::AddAssign => Some(SumOp::Two(BinOp::AddAssign)),
        TokenType::SubAssign => Some(SumOp::Two(BinOp::SubAssign)),
        TokenType::Increment => Some(SumOp::One(UnOp::Increment)),
        TokenType::Decrement => Some(SumOp::One(UnOp::Decrement)),
        TokenType::BitAnd => Some(SumOp::Two(BinOp::BitAnd)),
        TokenType::BitOr => Some(SumOp::Two(BinOp::BitOr)),
        TokenType::BitXor => Some(SumOp::Two(BinOp::BitXor)),
        TokenType::ShiftLeft => Some(SumOp::Two(BinOp::ShiftLeft)),
        TokenType::ShiftRight => Some(SumOp::Two(BinOp::ShiftRight)),
        _ => None,
    }
}

/// The operator of the comparison level that `k` stands for.
fn compare_op_of(k: &TokenType) -> (r: Option<BinOp>)
    ensures
        r == compare_op(k@),
{
    match k {
        TokenType::Eq => Some(BinOp::Eq),
        TokenType::Ne => Some(BinOp::Ne),
        TokenType::Lt => Some(BinOp::Lt),
        TokenType::Gt => Some(BinOp::Gt),
        TokenType::Le => Some(BinOp::Le),
        TokenType::Ge => Some(BinOp::Ge),
        TokenType::And => Some(BinOp::And),
        TokenType::Or => Some(BinOp::Or),
        _ => None,
    }
}

/// The value a sum-level operator makes of `l` and `r`.
fn sum_node_value(op: SumOp, l: Box<Node>, r: Box<Node>) -> (v: NodeValue)
    ensures
        v.sv() == sum_value(op, l.sv(), r.sv()),
{
    match op {
        SumOp::Two(b) => binary_value(b, l, r),
        SumOp::One(UnOp::Increment) => NodeValue::Operator(Operator::Increment(l)),
        SumOp::One(UnOp::Decrement) => NodeValue::Operator(Operator::Decrement(l)),
        SumOp::One(UnOp::BitNot) => NodeValue::Operator(Operator::BitNot(l)),
    }
}

impl From<Box<Node>> for DataType {
    /// The name of a variable, the unit type for anything else.
    fn from(node: Box<Node>) -> (d: DataType) {
        match node.value {
            NodeValue::Variable(_, name) => DataType::String(name),
            _ => DataType::Unit(()),
        }
    }
}

impl vstd::std_specs::convert::FromSpecImpl<Box<Node>> for DataType {
    open spec fn obeys_from_spec() -> bool {
        true
    }

    open spec fn from_spec(node: Box<Node>) -> DataType {
        match node.value {
            NodeValue::Variable(_, name) => DataType::String(name),
            _ => DataType::Unit(()),
        }
    }
}

/// `DataType::from(node)`, whose value is the name of a variable, or the unit type.
pub fn data_type_from(node: Box<Node>) -> (d: DataType)
    ensures
        d.sv() == data_type_of(node.sv()),
{
    proof {
        reveal_with_fuel(Node::sv, 2);
    }
    DataType::from(node)
}

/// The name of a variable node.
fn variable_name(a: Box<Node>) -> (r: Option<String>)
    ensures
        match a.sv().value {
            SNodeValue::Variable(_, n) => r matches Some(m) && m@ == n,
            _ => r is None,
        },
{
    proof {
        reveal_with_fuel(Node::sv, 2);
    }
    match a.value {
        NodeValue::Variable(_, n) => Some(n),
        _ => None,
    }
}

/// `n` with `m` put after the last node of its chain.
fn append_chain(n: Box<Node>, m: Box<Node>) -> (r: Box<Node>)
    ensures
        r.sv() == append(n.sv(), m.sv()),
    decreases n,
{
    let mut n = n;
    let next = n.next.take();
    match next {
        None => {
            n.next = Some(m);
            n
        },
        Some(k) => {
            n.next = Some(append_chain(k, m));
            n
        },
    }
}

/// Parses a list of tokens, reading the source text and its path for the reports.
pub struct Parser<'a> {
    input_content: String,
    input_path: String,
    tokens: &'a Vec<Token>,
    i: usize,
    is_statement: bool,
}

impl<'a> Parser<'a> {
    /// What the parser reads.
    pub closed spec fn ctx(&self) -> Ctx {
        Ctx { toks: tokens_view(self.tokens@), src: self.input_content@, file: self.input_path@ }
    }

    /// The position of the current token.
    pub closed spec fn pos(&self) -> int {
        self.i as int
    }

    /// Whether the last statement read ended a statement.
    pub closed spec fn flag(&self) -> bool {
        self.is_statement
    }

    fn present(&self, i: usize) -> (r: bool)
        ensures
            r == present(self.ctx(), i as int),
            r == (i < self.tokens.len()),
    {
        i < self.tokens.len()
    }

    fn present_at(&self, i: usize, d: usize) -> (r: bool)
        ensures
            r == present(self.ctx(), i + d),
            r == (i + d < self.tokens.len()),
    {
        i < self.tokens.len() && d < self.tokens.len() - i
    }

    fn is_at(&self, i: usize, t: TokenType) -> (r: bool)
        requires
            i < self.tokens.len(),
            t@ is Plain,
        ensures
            r == is_at(self.ctx(), i as int, t),
    {
        same_kind(self.tokens[i].kind(), &t)
    }

    fn word_is(&self, i: usize, w: &str) -> (r: bool)
        requires
            i < self.tokens.len(),
        ensures
            r == word(self.ctx(), i as int, w@),
    {
        str_eq(self.tokens[i].value_str(), w)
    }

    fn name_is(&self, i: usize, w: &str) -> (r: bool)
        requires
            i < self.tokens.len(),
        ensures
            r == name_word(self.ctx(), i as int, w@),
    {
        self.is_at(i, TokenType::Ident) && self.word_is(i, w)
    }

    fn node(&self, v: NodeValue, j: usize) -> (r: Box<Node>)
        requires
            j < self.tokens.len(),
        ensures
            r.sv() == node_at(self.ctx(), v.sv(), j as int),
    {
        Box::new(Node { value: v, next: None, line: self.tokens[j].line(), column: self.tokens[j].column(), is_statement: false })
    }

    fn stmt_node(&self, v: NodeValue, j: usize, s: bool) -> (r: Box<Node>)
        requires
            j < self.tokens.len(),
        ensures
            r.sv() == (SNode {
                value: v.sv(),
                next: None,
                line: self.ctx().toks[j as int].line,
                column: self.ctx().toks[j as int].column,
                is_statement: s,
            }),
    {
        Box::new(Node { value: v, next: None, line: self.tokens[j].line(), column: self.tokens[j].column(), is_statement: s })
    }

    fn null(&self, j: usize) -> (r: Box<Node>)
        requires
            j < self.tokens.len(),
        ensures
            r.sv() == null_at(self.ctx(), j as int),
    {
        self.node(NodeValue::Null, j)
    }

    fn here(&self, v: NodeValue, j: usize, s: bool) -> (r: Step<Box<Node>>)
        ensures
            agrees(self.ctx(), r, node_here(self.ctx(), v.sv(), j as int, s)),
            forward(r, j as int),
    {
        if self.present(j) {
            Step::Done(self.node(v, j), j, s)
        } else {
            Step::Stuck
        }
    }

    fn report(&self, k: usize, text: &str, some: bool, s: bool) -> (r: Step<Box<Node>>)
        requires
            k < self.tokens.len(),
        ensures
            agrees(self.ctx(), r, report(self.ctx(), k as int, text@, some, s)),
    {
        let t = &self.tokens[k];
        let line = t.line();
        let column = t.column();
        if line == 0 {
            return Step::Stuck;
        }
        if column == 0 && line_exists(self.input_content.as_str(), line - 1) {
            return Step::Stuck;
        }
        let mut msg = String::from_str(text);
        if some {
            msg.append("Some(");
            msg.append(t.debug_text().as_str());
            msg.append(")");
        } else {
            msg.append(t.debug_text().as_str());
        }
        let ghost m = fault_view(self.ctx(), k as int, text@, some);
        assert(m.lines[0] == (line, column));
        assert(msg@ =~= text@ + shown_token(self.ctx().toks[k as int], some));
        let e = error_report("error", line, column, self.input_path.as_str(), self.input_content.as_str(), msg.as_str());
        Step::Fail(e, k, s)
    }

    fn factor(&self, i: usize, s: bool) -> (r: Step<Box<Node>>)
        ensures
            agrees(self.ctx(), r, factor(self.ctx(), i as int, s)),
            forward(r, i as int),
        decreases left(self.ctx(), i as int), 1int, 0int,
    {
        if !self.present(i) {
            return Step::Stuck;
        }
        let sys = self.is_at(i, TokenType::AtSign);
        let i1 = if sys { i + 1 } else { i };
        if !self.present(i1) {
            return Step::Stuck;
        }
        let t = &self.tokens[i1];
        match t.kind() {
            TokenType::MultiComment(v, p) => self.here(NodeValue::MultiComment(clone_strings(v), *p), i1 + 1, s),
            TokenType::SingleComment(v, p) => self.here(NodeValue::SingleComment(v.clone(), *p), i1 + 1, s),
            TokenType::DoubleQuote | TokenType::SingleQuote => {
                self.here(NodeValue::DataType(DataType::String(t.token_value())), i1 + 1, s)
            },
            TokenType::Number => match parse_i64(t.value_str()) {
                Some(n) => self.here(NodeValue::DataType(DataType::Int(n)), i1 + 1, s),
                None => if is_float_text(t.value_str()) {
                    self.here(NodeValue::DataType(DataType::Float(t.token_value())), i1 + 1, s)
                } else {
                    Step::Done(Box::new(Node::default()), i1, s)
                },
            },
            TokenType::Ident => match parse_bool(t.value_str()) {
                Some(b) => self.here(NodeValue::DataType(DataType::Bool(b)), i1 + 1, s),
                None => self.named(i1 + 1, s, t.token_value(), sys),
            },
            TokenType::LeftParen => match self.expr(i1 + 1, s) {
                Step::Done(n, j, s2) => if !self.present(j) {
                    Step::Stuck
                } else if self.is_at(j, TokenType::RightParen) {
                    Step::Done(n, j + 1, s2)
                } else {
                    self.report(j, "no closing parenthesis in factor: ", false, s2)
                },
                other => other,
            },
            TokenType::LeftCurlyBrace => self.block_items(i1 + 1, s, Vec::new(), false),
            TokenType::LeftSquareBrace => {
                let ty = self.null(i1);
                self.array_items(i1 + 1, s, ty, Vec::new(), false)
            },
            _ => self.report(i1, "Unexpected token in factor: ", true, s),
        }
    }

    fn named(&self, j: usize, s: bool, name: String, sys: bool) -> (r: Step<Box<Node>>)
        ensures
            agrees(self.ctx(), r, named(self.ctx(), j as int, s, name@, sys)),
            forward(r, j as int),
        decreases left(self.ctx(), j as int), 1int, 0int,
    {
        if !self.present(j) {
            Step::Stuck
        } else if self.is_at(j, TokenType::LeftParen) {
            self.call_args(j + 1, s, name, sys, Vec::new(), false)
        } else if self.is_at(j, TokenType::Colon) {
            match self.data_type(j + 1, s) {
                Step::Done(d, k, s2) => self.here(NodeValue::Variable(d, name), k, s2),
                other => other,
            }
        } else {
            let ty = self.null(j);
            self.here(NodeValue::Variable(ty, name), j, s)
        }
    }

    fn call_args(&self, j: usize, s: bool, name: String, sys: bool, args: Vec<Node>, stalled: bool)
        -> (r: Step<Box<Node>>)
        ensures
            agrees(self.ctx(), r, call_args(self.ctx(), j as int, s, name@, sys,
                nodes_sv(args@, args.len() as int), stalled)),
            forward(r, j as int),
        decreases left(self.ctx(), j as int), 9int, if stalled { 0int } else { 1int },
    {
        if !self.present(j) {
            return Step::Stuck;
        }
        if self.is_at(j, TokenType::RightParen) {
            if !self.present_at(j, 1) {
                return Step::Stuck;
            }
            let s1 = if self.is_at(j + 1, TokenType::Semi) { true } else { s };
            let n = self.stmt_node(NodeValue::Call(name, args, sys), j + 1, s1);
            return Step::Done(n, j + 1, s1);
        }
        match self.item(j, s) {
            Step::Done(a, j2, s2) => {
                if j2 == j && (stalled || s2 == s) {
                    return Step::Stuck;
                }
                let mut args = args;
                proof {
                    lemma_nodes_sv_push(args@, *a);
                }
                args.push(*a);
                self.call_args(j2, s2, name, sys, args, j2 == j)
            },
            other => other,
        }
    }

    fn item(&self, j: usize, s: bool) -> (r: Step<Box<Node>>)
        ensures
            agrees(self.ctx(), r, item(self.ctx(), j as int, s)),
            forward(r, j as int),
        decreases left(self.ctx(), j as int), 6int, 0int,
    {
        match self.expr(j, s) {
            Step::Done(a, j2, s2) => if !self.present(j2) {
                Step::Stuck
            } else if self.is_at(j2, TokenType::Conma) {
                Step::Done(a, j2 + 1, s2)
            } else {
                Step::Done(a, j2, s2)
            },
            other => other,
        }
    }

    fn array_items(&self, j: usize, s: bool, ty: Box<Node>, vals: Vec<Box<Node>>, stalled: bool)
        -> (r: Step<Box<Node>>)
        ensures
            agrees(self.ctx(), r, array_items(self.ctx(), j as int, s, ty.sv(),
                boxes_sv(vals@, vals.len() as int), stalled)),
            forward(r, j as int),
        decreases left(self.ctx(), j as int), 9int, if stalled { 0int } else { 1int },
    {
        if !self.present(j) {
            return Step::Stuck;
        }
        if self.is_at(j, TokenType::RightSquareBrace) {
            return self.here(NodeValue::Declaration(Declaration::Array(ty, vals)), j + 1, s);
        }
        match self.item(j, s) {
            Step::Done(a, j2, s2) => {
                if j2 == j && (stalled || s2 == s) {
                    return Step::Stuck;
                }
                let mut vals = vals;
                proof {
                    lemma_boxes_sv_push(vals@, a);
                }
                vals.push(a);
                self.array_items(j2, s2, ty, vals, j2 == j)
            },
            other => other,
        }
    }

    fn members(&self, j: usize, s: bool, name: String, ms: Vec<Box<Node>>, stalled: bool)
        -> (r: Step<Box<Node>>)
        ensures
            agrees(self.ctx(), r, members(self.ctx(), j as int, s, name@,
                boxes_sv(ms@, ms.len() as int), stalled)),
            forward(r, j as int),
        decreases left(self.ctx(), j as int), 9int, if stalled { 0int } else { 1int },
    {
        if !self.present(j) {
            return Step::Stuck;
        }
        if self.is_at(j, TokenType::RightCurlyBrace) {
            return self.here(NodeValue::Declaration(Declaration::Struct(name, ms)), j + 1, s);
        }
        match self.item(j, s) {
            Step::Done(a, j2, s2) => {
                if j2 == j && (stalled || s2 == s) {
                    return Step::Stuck;
                }
                let mut ms = ms;
                proof {
                    lemma_boxes_sv_push(ms@, a);
                }
                ms.push(a);
                self.members(j2, s2, name, ms, j2 == j)
            },
            other => other,
        }
    }

    fn term(&self, i: usize, s: bool) -> (r: Step<Box<Node>>)
        ensures
            agrees(self.ctx(), r, term(self.ctx(), i as int, s)),
            forward(r, i as int),
        decreases left(self.ctx(), i as int), 3int, 0int,
    {
        if !self.present(i) {
            return Step::Stuck;
        }
        match self.factor(i, s) {
            Step::Done(n, j, s2) => self.term_rest(j, s2, n),
            other => other,
        }
    }

    fn term_rest(&self, j: usize, s: bool, n: Box<Node>) -> (r: Step<Box<Node>>)
        ensures
            agrees(self.ctx(), r, term_rest(self.ctx(), j as int, s, n.sv())),
            forward(r, j as int),
        decreases left(self.ctx(), j as int), 2int, 0int,
    {
        if !self.present(j) {
            return Step::Stuck;
        }
        match product_op_of(self.tokens[j].kind()) {
            Some(op) => match self.factor(j + 1, s) {
                Step::Done(rhs, j2, s2) => if !self.present(j2) {
                    Step::Stuck
                } else {
                    let v = binary_value(op, n, rhs);
                    let m = self.node(v, j2);
                    self.term_rest(j2, s2, m)
                },
                other => other,
            },
            None => Step::Done(n, j, s),
        }
    }

    fn expr(&self, i: usize, s: bool) -> (r: Step<Box<Node>>)
        ensures
            agrees(self.ctx(), r, expr(self.ctx(), i as int, s)),
            forward(r, i as int),
        decreases left(self.ctx(), i as int), 5int, 0int,
    {
        if !self.present(i) {
            return Step::Stuck;
        }
        match self.term(i, s) {
            Step::Done(n, j, s2) => self.expr_rest(j, s2, n),
            other => other,
        }
    }

    fn expr_rest(&self, j: usize, s: bool, n: Box<Node>) -> (r: Step<Box<Node>>)
        ensures
            agrees(self.ctx(), r, expr_rest(self.ctx(), j as int, s, n.sv())),
            forward(r, j as int),
        decreases left(self.ctx(), j as int), 4int, 0int,
    {
        if !self.present(j) {
            return Step::Stuck;
        }
        match sum_op_of(self.tokens[j].kind()) {
            Some(op) => match self.term(j + 1, s) {
                Step::Done(rhs, j2, s2) => if !self.present(j2) {
                    Step::Stuck
                } else {
                    let v = sum_node_value(op, n, rhs);
                    let m = self.node(v, j2);
                    self.expr_rest(j2, s2, m)
                },
                other => other,
            },
            None => Step::Done(n, j, s),
        }
    }

    fn condition(&self, i: usize, s: bool) -> (r: Step<Box<Node>>)
        ensures
            agrees(self.ctx(), r, condition(self.ctx(), i as int, s)),
            forward(r, i as int),
        decreases left(self.ctx(), i as int), 7int, 0int,
    {
        if !self.present(i) {
            return Step::Stuck;
        }
        match self.expr(i, s) {
            Step::Done(n, j, s2) => self.condition_rest(j, s2, n),
            other => other,
        }
    }

    fn condition_rest(&self, j: usize, s: bool, n: Box<Node>) -> (r: Step<Box<Node>>)
        ensures
            agrees(self.ctx(), r, condition_rest(self.ctx(), j as int, s, n.sv())),
            forward(r, j as int),
        decreases left(self.ctx(), j as int), 6int, 0int,
    {
        if !self.present(j) {
            return Step::Stuck;
        }
        match compare_op_of(self.tokens[j].kind()) {
            Some(op) => match self.expr(j + 1, s) {
                Step::Done(rhs, j2, s2) => if !self.present(j2) {
                    Step::Stuck
                } else {
                    let v = binary_value(op, n, rhs);
                    let m = self.node(v, j2);
                    self.condition_rest(j2, s2, m)
                },
                other => other,
            },
            None => Step::Done(n, j, s),
        }
    }

    fn data_type(&self, i: usize, s: bool) -> (r: Step<Box<Node>>)
        ensures
            agrees(self.ctx(), r, data_type(self.ctx(), i as int, s)),
            forward(r, i as int),
        decreases left(self.ctx(), i as int), 8int, 0int,
    {
        if !self.present(i) || !self.present_at(i, 1) {
            return Step::Stuck;
        }
        let i1 = if !self.is_at(i + 1, TokenType::Eof) && !self.is_at(i + 1, TokenType::Conma) {
            i + 1
        } else {
            i
        };
        match self.expr(i1, s) {
            Step::Done(d, j, s2) => self.here(NodeValue::DataType(data_type_from(d)), j, s2),
            other => other,
        }
    }

    fn block(&self, i: usize, s: bool) -> (r: Step<Box<Node>>)
        ensures
            agrees(self.ctx(), r, block(self.ctx(), i as int, s)),
            forward(r, i as int),
        decreases left(self.ctx(), i as int), 14int, 0int,
    {
        if !self.present(i) {
            Step::Stuck
        } else if self.is_at(i, TokenType::LeftCurlyBrace) {
            self.block_items(i + 1, s, Vec::new(), false)
        } else {
            self.block_items(i, s, Vec::new(), false)
        }
    }

    fn block_items(&self, j: usize, s: bool, ns: Vec<Box<Node>>, stalled: bool) -> (r: Step<Box<Node>>)
        ensures
            agrees(self.ctx(), r, block_items(self.ctx(), j as int, s, boxes_sv(ns@, ns.len() as int), stalled)),
            forward(r, j as int),
        decreases left(self.ctx(), j as int), 13int, if stalled { 0int } else { 1int },
    {
        if !self.present(j) {
            return Step::Stuck;
        }
        if self.is_at(j, TokenType::RightCurlyBrace) {
            return self.here(NodeValue::Block(ns), j + 1, s);
        }
        if self.is_at(j, TokenType::Eof) {
            return self.report(j, "Unexpected end of input, no closing curly brace found: ", false, s);
        }
        match self.statements(j, s, None, false) {
            Step::Done(n, j2, s2) => {
                if j2 == j && (stalled || s2 == s) {
                    return Step::Stuck;
                }
                let mut ns = ns;
                proof {
                    lemma_boxes_sv_push(ns@, n);
                }
                ns.push(n);
                self.block_items(j2, s2, ns, j2 == j)
            },
            other => other,
        }
    }

    fn statements(&self, i: usize, s: bool, prev: Option<Box<Node>>, stalled: bool) -> (r: Step<Box<Node>>)
        ensures
            agrees(self.ctx(), r, statements(self.ctx(), i as int, s, opt_sv(prev), stalled)),
            forward(r, i as int),
        decreases left(self.ctx(), i as int), 12int, if stalled { 0int } else { 1int },
    {
        if !self.present(i) {
            return Step::Stuck;
        }
        if self.is_at(i, TokenType::Eof) || self.is_at(i, TokenType::RightCurlyBrace) {
            return match prev {
                Some(p) => Step::Done(p, i, s),
                None => Step::Fail(String::from_str("No statements found"), i, s),
            };
        }
        match self.statement(i, s) {
            Step::Done(n, i2, s2) => {
                if i2 == i && (stalled || s2 == s) {
                    return Step::Stuck;
                }
                let chain = match prev {
                    Some(p) => append_chain(p, n),
                    None => n,
                };
                self.statements(i2, s2, Some(chain), i2 == i)
            },
            other => other,
        }
    }

    fn statement(&self, i: usize, s: bool) -> (r: Step<Box<Node>>)
        ensures
            agrees(self.ctx(), r, statement(self.ctx(), i as int, s)),
            forward(r, i as int),
        decreases left(self.ctx(), i as int), 11int, 0int,
    {
        if !self.present(i) {
            return Step::Stuck;
        }
        if self.word_is(i, "callback") {
            if !self.present_at(i, 1) {
                Step::Stuck
            } else if self.word_is(i + 1, "fn") {
                self.function(i + 1, s, true)
            } else {
                Step::Done(Box::new(Node::default()), i + 1, s)
            }
        } else if self.word_is(i, "struct") {
            self.structure(i, s)
        } else if self.word_is(i, "fn") {
            self.function(i, s, false)
        } else if self.word_is(i, "while") {
            self.while_loop(i, s)
        } else if self.word_is(i, "if") {
            self.if_else(i, s)
        } else if self.name_is(i, "for") && !self.present_at(i, 2) {
            Step::Stuck
        } else if self.name_is(i, "for") && self.word_is(i + 2, "in") {
            self.for_loop(i, s)
        } else if self.word_is(i, "loop") {
            if !self.present_at(i, 2) {
                Step::Stuck
            } else {
                match self.block(i + 2, s) {
                    Step::Done(b, k, s2) => self.here(NodeValue::ControlFlow(ControlFlow::Loop(b)), k, s2),
                    other => other,
                }
            }
        } else if self.name_is(i, "let") || self.name_is(i, "var") || self.name_is(i, "l")
            || self.name_is(i, "v") {
            self.variable(i, s)
        } else if self.is_at(i, TokenType::Ident) && !self.present_at(i, 2) {
            Step::Stuck
        } else if self.is_at(i, TokenType::Ident) && self.is_at(i + 2, TokenType::Equals)
            && self.word_is(i, "type") {
            self.type_alias(i, s)
        } else if self.is_at(i, TokenType::Ident) && (self.is_at(i + 1, TokenType::Equals)
            || self.is_at(i + 1, TokenType::LeftSquareBrace)) {
            self.assignment(i, s)
        } else if self.name_is(i, "return") {
            match self.expr(i + 1, s) {
                Step::Done(v, j, s2) => if !self.present(j) {
                    Step::Stuck
                } else {
                    let n = self.stmt_node(NodeValue::ControlFlow(ControlFlow::Return(v)), j, s2);
                    Step::Done(n, j, s2)
                },
                other => other,
            }
        } else if self.name_is(i, "break") {
            self.here(NodeValue::ControlFlow(ControlFlow::Break), i + 1, s)
        } else if self.name_is(i, "continue") {
            self.here(NodeValue::ControlFlow(ControlFlow::Continue), i + 1, s)
        } else if self.is_at(i, TokenType::AtSign) && !self.present_at(i, 1) {
            Step::Stuck
        } else if self.is_at(i, TokenType::AtSign) && self.name_is(i + 1, "include") {
            if !self.present_at(i, 2) {
                Step::Stuck
            } else {
                let n = self.node(NodeValue::Include(self.tokens[i + 2].token_value()), i + 2);
                Step::Done(n, i + 3, s)
            }
        } else if self.is_at(i, TokenType::LeftCurlyBrace) {
            self.block_items(i + 1, s, Vec::new(), false)
        } else if self.is_at(i, TokenType::Semi) {
            self.here(NodeValue::EndStatement, i + 1, true)
        } else {
            self.expr(i, false)
        }
    }

    fn structure(&self, i: usize, s: bool) -> (r: Step<Box<Node>>)
        ensures
            agrees(self.ctx(), r, structure(self.ctx(), i as int, s)),
            forward(r, i as int),
        decreases left(self.ctx(), i as int), 10int, 0int,
    {
        if !self.present(i) || !self.present_at(i, 2) {
            return Step::Stuck;
        }
        let name = self.tokens[i + 1].token_value();
        if self.is_at(i + 2, TokenType::LeftCurlyBrace) {
            self.members(i + 3, s, name, Vec::new(), false)
        } else {
            let s1 = if self.is_at(i + 2, TokenType::Semi) { true } else { s };
            let mut ms: Vec<Box<Node>> = Vec::new();
            let z = self.null(i + 2);
            proof {
                lemma_boxes_sv_push(ms@, z);
            }
            ms.push(z);
            assert(boxes_sv(ms@, 1) =~= seq![null_at(self.ctx(), i + 2)]);
            self.here(NodeValue::Declaration(Declaration::Struct(name, ms)), i + 2, s1)
        }
    }

    fn function(&self, i: usize, s: bool, callback: bool) -> (r: Step<Box<Node>>)
        ensures
            agrees(self.ctx(), r, function(self.ctx(), i as int, s, callback)),
            forward(r, i as int),
        decreases left(self.ctx(), i as int), 10int, 0int,
    {
        if !self.present(i) || !self.present_at(i, 1) {
            return Step::Stuck;
        }
        let sys = self.is_at(i + 1, TokenType::AtSign);
        let j1 = if sys { i + 2 } else { i + 1 };
        if !self.present_at(j1, 2) {
            return Step::Stuck;
        }
        let name = self.tokens[j1].token_value();
        let ret0 = self.null(j1 + 2);
        self.params(j1 + 2, s, callback, sys, name, ret0, Vec::new(), false)
    }

    fn params(&self, j: usize, s: bool, callback: bool, sys: bool, name: String, ret0: Box<Node>,
        args: Vec<(Box<Node>, String)>, stalled: bool) -> (r: Step<Box<Node>>)
        ensures
            agrees(self.ctx(), r, params(self.ctx(), j as int, s, callback, sys, name@, ret0.sv(),
                args_sv(args@, args.len() as int), stalled)),
            forward(r, j as int),
        decreases left(self.ctx(), j as int), 9int, if stalled { 0int } else { 1int },
    {
        if !self.present(j) {
            return Step::Stuck;
        }
        if self.is_at(j, TokenType::RightParen) {
            return self.function_tail(j + 1, s, callback, sys, name, ret0, args);
        }
        match self.param(j, s) {
            Step::Done(a, j2, s2) => {
                if j2 == j && (stalled || s2 == s) {
                    return Step::Stuck;
                }
                let mut args = args;
                proof {
                    lemma_args_sv_push(args@, a);
                }
                args.push(a);
                self.params(j2, s2, callback, sys, name, ret0, args, j2 == j)
            },
            Step::Fail(e, at, flag) => Step::Fail(e, at, flag),
            Step::Stuck => Step::Stuck,
        }
    }

    fn param(&self, j: usize, s: bool) -> (r: Step<(Box<Node>, String)>)
        ensures
            param_agrees(self.ctx(), r, param(self.ctx(), j as int, s)),
            forward(r, j as int),
        decreases left(self.ctx(), j as int), 8int, 0int,
    {
        if !self.present(j) {
            return Step::Stuck;
        }
        match self.expr(j, s) {
            Step::Done(a, j2, s2) => {
                if !self.present(j2) {
                    return Step::Stuck;
                }
                let typed = self.param_type(j2, s2);
                match typed {
                    Step::Done(ty, k, sk) => match variable_name(a) {
                        Some(n) => if !self.present(k) {
                            Step::Stuck
                        } else if self.is_at(k, TokenType::Conma) {
                            Step::Done((ty, n), k + 1, sk)
                        } else {
                            Step::Done((ty, n), k, sk)
                        },
                        None => Step::Fail(String::from_str("Invalid argument name"), k, sk),
                    },
                    Step::Fail(e, at, flag) => Step::Fail(e, at, flag),
                    Step::Stuck => Step::Stuck,
                }
            },
            Step::Fail(e, at, flag) => Step::Fail(e, at, flag),
            Step::Stuck => Step::Stuck,
        }
    }

    fn param_type(&self, j: usize, s: bool) -> (r: Step<Box<Node>>)
        ensures
            agrees(self.ctx(), r, param_type(self.ctx(), j as int, s)),
            forward(r, j as int),
        decreases left(self.ctx(), j as int), 7int, 0int,
    {
        if !self.present(j) {
            Step::Stuck
        } else if self.is_at(j, TokenType::Colon) {
            match self.expr(j + 1, s) {
                Step::Done(d, k, s2) => self.here(NodeValue::DataType(data_type_from(d)), k, s2),
                other => other,
            }
        } else {
            Step::Done(self.null(j), j, s)
        }
    }

    fn function_tail(&self, j: usize, s: bool, callback: bool, sys: bool, name: String, ret0: Box<Node>,
        args: Vec<(Box<Node>, String)>) -> (r: Step<Box<Node>>)
        ensures
            agrees(self.ctx(), r, function_tail(self.ctx(), j as int, s, callback, sys, name@, ret0.sv(),
                args_sv(args@, args.len() as int))),
            forward(r, j as int),
        decreases left(self.ctx(), j as int), 15int, 0int,
    {
        if !self.present(j) {
            return Step::Stuck;
        }
        let ret = if self.is_at(j, TokenType::RightArrow) {
            match self.expr(j + 1, s) {
                Step::Done(t, k, s2) => self.here(NodeValue::DataType(data_type_from(t)), k, s2),
                other => other,
            }
        } else {
            Step::Done(ret0, j, s)
        };
        match ret {
            Step::Done(rt, k, s2) => match self.block(k, s2) {
                Step::Done(body, m, s3) => {
                    let d = if callback {
                        Declaration::CallBackFunction(name, args, body, rt, sys)
                    } else {
                        Declaration::Function(name, args, body, rt, sys)
                    };
                    self.here(NodeValue::Declaration(d), m, s3)
                },
                other => other,
            },
            other => other,
        }
    }

    fn while_loop(&self, i: usize, s: bool) -> (r: Step<Box<Node>>)
        ensures
            agrees(self.ctx(), r, while_loop(self.ctx(), i as int, s)),
            forward(r, i as int),
        decreases left(self.ctx(), i as int), 10int, 0int,
    {
        if !self.present(i) || !self.present_at(i, 1) {
            return Step::Stuck;
        }
        let cond = if !self.is_at(i + 1, TokenType::LeftCurlyBrace) {
            self.condition(i + 1, s)
        } else {
            Step::Done(self.null(i + 1), i + 1, s)
        };
        match cond {
            Step::Done(cn, j, s2) => {
                if !self.present(j) {
                    return Step::Stuck;
                }
                match self.block(j + 1, s2) {
                    Step::Done(b, k, s3) => self.here(NodeValue::ControlFlow(ControlFlow::While(cn, b)), k, s3),
                    other => other,
                }
            },
            other => other,
        }
    }

    fn if_else(&self, i: usize, s: bool) -> (r: Step<Box<Node>>)
        ensures
            agrees(self.ctx(), r, if_else(self.ctx(), i as int, s)),
            forward(r, i as int),
        decreases left(self.ctx(), i as int), 10int, 0int,
    {
        if !self.present(i) || !self.present_at(i, 1) {
            return Step::Stuck;
        }
        let cond = if !self.is_at(i + 1, TokenType::LeftCurlyBrace) {
            self.condition(i + 1, s)
        } else {
            Step::Done(self.null(i + 1), i + 1, s)
        };
        match cond {
            Step::Done(cn, j, s2) => {
                if !self.present(j) {
                    return Step::Stuck;
                }
                match self.block(j + 1, s2) {
                    Step::Done(b, k, s3) => {
                        if !self.present(k) {
                            return Step::Stuck;
                        }
                        let head = self.stmt_node(NodeValue::ControlFlow(ControlFlow::If(cn, b)), k, true);
                        self.else_part(k, s3, head)
                    },
                    other => other,
                }
            },
            other => other,
        }
    }

    fn else_part(&self, k: usize, s: bool, head: Box<Node>) -> (r: Step<Box<Node>>)
        ensures
            agrees(self.ctx(), r, else_part(self.ctx(), k as int, s, head.sv())),
            forward(r, k as int),
        decreases left(self.ctx(), k as int), 10int, 0int,
    {
        let mut head = head;
        if !self.present(k) {
            Step::Stuck
        } else if !self.present_at(k, 1) || !self.word_is(k + 1, "else") {
            Step::Done(head, k, s)
        } else if !self.present_at(k, 2) {
            Step::Done(head, k + 1, s)
        } else if self.word_is(k + 2, "if") {
            match self.if_else(k + 2, s) {
                Step::Done(e, m, s4) => {
                    head.next = Some(e);
                    Step::Done(head, m, s4)
                },
                other => other,
            }
        } else {
            match self.block(k + 2, s) {
                Step::Done(eb, m, s4) => {
                    if !self.present(m) {
                        return Step::Stuck;
                    }
                    let tail = self.stmt_node(NodeValue::ControlFlow(ControlFlow::Else(eb)), m, true);
                    head.next = Some(tail);
                    Step::Done(head, m, s4)
                },
                other => other,
            }
        }
    }

    fn for_source(&self, i: usize) -> (r: Option<(Box<Node>, usize)>)
        requires
            i + 3 < self.tokens.len(),
        ensures
            match for_source(self.ctx(), i as int) {
                Some((n, j)) => r matches Some((m, k)) && m.sv() == n && k == j,
                None => r is None,
            },
    {
        let start = self.tokens[i + 3].value_str();
        if !self.present_at(i, 4) {
            None
        } else if self.is_at(i + 4, TokenType::Range) {
            if !self.present_at(i, 5) {
                None
            } else {
                match (parse_i64(start), parse_i64(self.tokens[i + 5].value_str())) {
                    (Some(a), Some(b)) => {
                        let lo = self.node(NodeValue::DataType(DataType::Int(a)), i + 5);
                        let hi = self.node(NodeValue::DataType(DataType::Int(b)), i + 5);
                        Some((self.node(binary_value(BinOp::Range, lo, hi), i + 5), i + 5))
                    },
                    _ => None,
                }
            }
        } else {
            let ty = self.null(i + 3);
            Some((self.node(NodeValue::Variable(ty, self.tokens[i + 3].token_value()), i + 3), i + 3))
        }
    }

    fn for_loop(&self, i: usize, s: bool) -> (r: Step<Box<Node>>)
        ensures
            agrees(self.ctx(), r, for_loop(self.ctx(), i as int, s)),
            forward(r, i as int),
        decreases left(self.ctx(), i as int), 10int, 0int,
    {
        if !self.present(i) || !self.present_at(i, 3) {
            return Step::Stuck;
        }
        match self.for_source(i) {
            None => Step::Stuck,
            Some((src, j)) => match self.block(j + 1, s) {
                Step::Done(b, k, s2) => {
                    if !self.present(k) {
                        return Step::Stuck;
                    }
                    let ty = self.null(k);
                    let var = self.node(NodeValue::Variable(ty, self.tokens[i + 1].token_value()), k);
                    self.here(NodeValue::ControlFlow(ControlFlow::For(var, src, b)), k, s2)
                },
                other => other,
            },
        }
    }

    fn nested(&self, k: usize) -> (r: Option<bool>)
        requires
            k <= self.tokens.len(),
        ensures
            r == nested(self.ctx(), k as int),
    {
        let mut idx = k;
        let mut count: i32 = 0;
        while idx > 0
            invariant
                idx <= k <= self.tokens.len(),
                nested_from(self.ctx(), idx as int, count as int) == nested(self.ctx(), k as int),
            decreases idx,
        {
            let t = idx - 1;
            let next: i64 = if self.is_at(t, TokenType::LeftCurlyBrace) {
                count as i64 + 1
            } else if self.is_at(t, TokenType::RightCurlyBrace) {
                count as i64 - 1
            } else {
                count as i64
            };
            if next < -2147483648 || next > 2147483647 {
                return None;
            }
            if next > 0 {
                return Some(true);
            }
            count = next as i32;
            idx = t;
        }
        Some(false)
    }

    fn declared(&self, k: usize, name: String, ty: Box<Node>, value: Box<Node>, local: bool, mutable: bool,
        reference: bool, s: bool) -> (r: Box<Node>)
        requires
            k < self.tokens.len(),
        ensures
            r.sv() == declared(self.ctx(), k as int, name@, ty.sv(), value.sv(), local, mutable, reference, s),
    {
        proof {
            reveal_with_fuel(Node::sv, 4);
        }
        let nt = self.null(k);
        let var = self.node(NodeValue::Variable(nt, name), k);
        Box::new(Node {
            value: NodeValue::Declaration(Declaration::Variable(var, ty, value, local, mutable, reference)),
            next: None,
            line: self.tokens[k].line(),
            column: self.tokens[k].column(),
            is_statement: s,
        })
    }

    fn declared_empty(&self, k: usize, name: String, ty: Box<Node>, value: Box<Node>, mutable: bool)
        -> (r: Step<Box<Node>>)
        requires
            k < self.tokens.len(),
        ensures
            agrees(self.ctx(), r, declared_empty(self.ctx(), k as int, name@, ty.sv(), value.sv(), mutable)),
            forward(r, k as int),
    {
        match self.nested(k) {
            None => Step::Stuck,
            Some(local) => Step::Done(self.declared(k, name, ty, value, local, mutable, false, true), k, true),
        }
    }

    #[verifier::rlimit(40)]
    fn variable(&self, i: usize, s: bool) -> (r: Step<Box<Node>>)
        ensures
            agrees(self.ctx(), r, variable(self.ctx(), i as int, s)),
            forward(r, i as int),
        decreases left(self.ctx(), i as int), 10int, 0int,
    {
        if !self.present(i) || !self.present_at(i, 1) {
            return Step::Stuck;
        }
        let mutable = self.word_is(i + 1, "mut") || self.word_is(i + 1, "mutable");
        let i2 = if mutable { i + 2 } else { i + 1 };
        if !self.present(i2) || !self.present_at(i2, 1) {
            return Step::Stuck;
        }
        let name = self.tokens[i2].token_value();
        let typed = if self.is_at(i2 + 1, TokenType::Colon) {
            self.data_type(i2 + 1, s)
        } else {
            let unit = self.node(NodeValue::DataType(DataType::Unit(())), i2);
            Step::Done(unit, i2, s)
        };
        match typed {
            Step::Done(ty, i4, s4) => {
                if !self.present(i4) {
                    return Step::Stuck;
                }
                let value0 = self.null(i2);
                if self.is_at(i4, TokenType::Semi) {
                    return self.declared_empty(i4, name, ty, value0, mutable);
                }
                if !self.present_at(i4, 1) {
                    return Step::Stuck;
                }
                let i6 = if self.is_at(i4 + 1, TokenType::Equals) { i4 + 2 } else { i4 + 1 };
                if !self.present(i6) {
                    return Step::Stuck;
                }
                if self.is_at(i6, TokenType::Semi) {
                    return self.declared_empty(i6, name, ty, value0, mutable);
                }
                let reference = self.is_at(i6, TokenType::Reference);
                let valued = if reference {
                    Step::Done(value0, i6 + 1, s4)
                } else {
                    self.expr(i6, s4)
                };
                match valued {
                    Step::Done(v, i7, s7) => {
                        if !self.present(i7) {
                            return Step::Stuck;
                        }
                        let s8 = if self.is_at(i7, TokenType::Semi) { true } else { s7 };
                        match self.nested(i7) {
                            None => Step::Stuck,
                            Some(local) => Step::Done(
                                self.declared(i7, name, ty, v, local, mutable, reference, s8),
                                i7,
                                s8,
                            ),
                        }
                    },
                    other => other,
                }
            },
            other => other,
        }
    }

    fn type_alias(&self, i: usize, s: bool) -> (r: Step<Box<Node>>)
        ensures
            agrees(self.ctx(), r, type_alias(self.ctx(), i as int, s)),
            forward(r, i as int),
        decreases left(self.ctx(), i as int), 10int, 0int,
    {
        if !self.present(i) || !self.present_at(i, 1) {
            return Step::Stuck;
        }
        if !self.present_at(i, 3) {
            return Step::Stuck;
        }
        match self.expr(i + 3, s) {
            Step::Done(v, j, s2) => {
                if !self.present(j) {
                    return Step::Stuck;
                }
                let nt = self.null(j);
                let name = self.node(NodeValue::Variable(nt, self.tokens[i + 1].token_value()), j);
                let n = self.stmt_node(NodeValue::Declaration(Declaration::Type(name, v)), j, s2);
                Step::Done(n, j, s2)
            },
            other => other,
        }
    }

    fn assigned(&self, k: usize, name: String, value: Box<Node>, index: Box<Node>, s: bool) -> (r: Box<Node>)
        requires
            k < self.tokens.len(),
        ensures
            r.sv() == assigned(self.ctx(), k as int, name@, value.sv(), index.sv(), s),
    {
        proof {
            reveal_with_fuel(Node::sv, 3);
        }
        let nt = self.null(k);
        let var = self.node(NodeValue::Variable(nt, name), k);
        Box::new(Node {
            value: NodeValue::Assign(var, value, index),
            next: None,
            line: self.tokens[k].line(),
            column: self.tokens[k].column(),
            is_statement: s,
        })
    }

    fn assignment(&self, i: usize, s: bool) -> (r: Step<Box<Node>>)
        ensures
            agrees(self.ctx(), r, assignment(self.ctx(), i as int, s)),
            forward(r, i as int),
        decreases left(self.ctx(), i as int), 10int, 0int,
    {
        if !self.present(i) || !self.present_at(i, 1) {
            return Step::Stuck;
        }
        let name = self.tokens[i].token_value();
        if self.is_at(i + 1, TokenType::LeftSquareBrace) {
            match self.expr(i + 2, s) {
                Step::Done(ix, j, s2) => {
                    if !self.present(j) {
                        return Step::Stuck;
                    }
                    if !self.present_at(j, 2) {
                        return Step::Stuck;
                    }
                    match self.expr(j + 2, s2) {
                        Step::Done(v, k, s3) => if self.present(k) {
                            Step::Done(self.assigned(k, name, v, ix, s3), k, s3)
                        } else {
                            Step::Stuck
                        },
                        other => other,
                    }
                },
                other => other,
            }
        } else {
            match self.expr(i + 2, s) {
                Step::Done(v, k, s3) => if self.present(k) {
                    let ix = self.null(i);
                    Step::Done(self.assigned(k, name, v, ix, s3), k, s3)
                } else {
                    Step::Stuck
                },
                other => other,
            }
        }
    }
}

/// How a parse from position `i` with flag `s` ends: with the tree, or with the message of the
/// fault, and the parser moved to where the grammar says; or with `None` where it cannot end.
pub open spec fn parse_ends(c: Ctx, i: int, s: bool, r: Option<Result<Box<Node>, String>>, i2: int, s2: bool) -> bool {
    match statements(c, i, s, None, false) {
        Parsed::Done(n, j, t) => r matches Some(Ok(m)) && m.sv() == n && i2 == j && s2 == t,
        Parsed::Failed(f, j, t) => r matches Some(Err(e)) && shows_fault(c, f, e@) && i2 == j && s2 == t,
        Parsed::Stuck => r is None && i2 == i && s2 == s,
    }
}

/// A node that is not a statement and has nothing after it.
pub open spec fn leaf(v: SNodeValue, line: usize, column: usize) -> SNode {
    SNode { value: v, next: None, line, column, is_statement: false }
}

/// The result of parsing a whole token list, as the grammar says.
pub open spec fn parse_gives(c: Ctx, r: Result<Box<Node>, String>) -> bool {
    match statements(c, 0, false, None, false) {
        Parsed::Done(n, _, _) => r matches Ok(m) && m.sv() == n,
        Parsed::Failed(f, _, _) => r matches Err(e) && shows_fault(c, f, e@),
        Parsed::Stuck => false,
    }
}

/// What the parser reads when it is made from `tokens`, `input_path` and `input_content`.
pub open spec fn ctx_of(tokens: Seq<Token>, input_path: Seq<char>, input_content: Seq<char>) -> Ctx {
    Ctx { toks: tokens_view(tokens), src: input_content, file: input_path }
}

impl<'a> Parser<'a> {
    /// `left + right`.
    pub fn new_add(left: Box<Node>, right: Box<Node>, line: usize, column: usize) -> (r: Box<Node>)
        ensures
            r.sv() == leaf(binary(BinOp::Add, left.sv(), right.sv()), line, column),
    {
        Box::new(Node::new(NodeValue::Operator(Operator::Add(left, right)), None, line, column))
    }

    /// `left - right`.
    pub fn new_sub(left: Box<Node>, right: Box<Node>, line: usize, column: usize) -> (r: Box<Node>)
        ensures
            r.sv() == leaf(binary(BinOp::Sub, left.sv(), right.sv()), line, column),
    {
        Box::new(Node::new(NodeValue::Operator(Operator::Sub(left, right)), None, line, column))
    }

    /// `left * right`.
    pub fn new_mul(left: Box<Node>, right: Box<Node>, line: usize, column: usize) -> (r: Box<Node>)
        ensures
            r.sv() == leaf(binary(BinOp::Mul, left.sv(), right.sv()), line, column),
    {
        Box::new(Node::new(NodeValue::Operator(Operator::Mul(left, right)), None, line, column))
    }

    /// `left / right`.
    pub fn new_div(left: Box<Node>, right: Box<Node>, line: usize, column: usize) -> (r: Box<Node>)
        ensures
            r.sv() == leaf(binary(BinOp::Div, left.sv(), right.sv()), line, column),
    {
        Box::new(Node::new(NodeValue::Operator(Operator::Div(left, right)), None, line, column))
    }

    /// An integer literal.
    pub fn new_int(value: i64, line: usize, column: usize) -> (r: Box<Node>)
        ensures
            r.sv() == leaf(SNodeValue::DataType(SDataType::Int(value)), line, column),
    {
        Box::new(Node::new(NodeValue::DataType(DataType::Int(value)), None, line, column))
    }

    /// A floating-point literal, kept as the text it is written with.
    pub fn new_float(value: String, line: usize, column: usize) -> (r: Box<Node>)
        ensures
            r.sv() == leaf(SNodeValue::DataType(SDataType::Float(value@)), line, column),
    {
        Box::new(Node::new(NodeValue::DataType(DataType::Float(value)), None, line, column))
    }

    /// A string literal.
    pub fn new_string(value: String, line: usize, column: usize) -> (r: Box<Node>)
        ensures
            r.sv() == leaf(SNodeValue::DataType(SDataType::String(value@)), line, column),
    {
        Box::new(Node::new(NodeValue::DataType(DataType::String(value)), None, line, column))
    }

    /// A truth value.
    pub fn new_bool(value: bool, line: usize, column: usize) -> (r: Box<Node>)
        ensures
            r.sv() == leaf(SNodeValue::DataType(SDataType::Bool(value)), line, column),
    {
        Box::new(Node::new(NodeValue::DataType(DataType::Bool(value)), None, line, column))
    }

    /// The unit value.
    pub fn new_unit(line: usize, column: usize) -> (r: Box<Node>)
        ensures
            r.sv() == leaf(SNodeValue::DataType(SDataType::Unit), line, column),
    {
        Box::new(Node::new(NodeValue::DataType(DataType::Unit(())), None, line, column))
    }

    /// An include of another file.
    pub fn new_include(include_file: String, line: usize, column: usize) -> (r: Box<Node>)
        ensures
            r.sv() == leaf(SNodeValue::Include(include_file@), line, column),
    {
        Box::new(Node::new(NodeValue::Include(include_file), None, line, column))
    }

    /// A function declaration.
    pub fn new_function(func_name: String, args: Vec<(Box<Node>, String)>, body: Box<Node>,
        return_type: Box<Node>, is_system: bool, line: usize, column: usize) -> (r: Box<Node>)
        ensures
            r.sv() == leaf(SNodeValue::Declaration(SDeclaration::Function(func_name@,
                args_sv(args@, args.len() as int), Box::new(body.sv()), Box::new(return_type.sv()),
                is_system)), line, column),
    {
        proof {
            reveal_with_fuel(Node::sv, 3);
        }
        Box::new(Node::new(
            NodeValue::Declaration(Declaration::Function(func_name, args, body, return_type, is_system)),
            None,
            line,
            column,
        ))
    }

    /// A variable without a type, with `expr` after it.
    pub fn new_variable(name: String, expr: Box<Node>, line: usize, column: usize) -> (r: Box<Node>)
        ensures
            r.sv() == (SNode {
                next: Some(Box::new(expr.sv())),
                ..leaf(SNodeValue::Variable(Box::new(leaf(SNodeValue::Null, line, column)), name@), line, column)
            }),
    {
        proof {
            reveal_with_fuel(Node::sv, 3);
        }
        Box::new(Node::new(NodeValue::Variable(Parser::new_null(line, column), name), Some(expr), line, column))
    }

    /// `return expr`.
    pub fn new_return(expr: Box<Node>, line: usize, column: usize) -> (r: Box<Node>)
        ensures
            r.sv() == leaf(SNodeValue::ControlFlow(SControlFlow::Return(Box::new(expr.sv()))), line, column),
    {
        proof {
            reveal_with_fuel(Node::sv, 3);
        }
        Box::new(Node::new(NodeValue::ControlFlow(ControlFlow::Return(expr)), None, line, column))
    }

    /// An unknown node at the position of the current token.
    pub fn new_unknown(&self) -> (r: Box<Node>)
        requires
            0 <= self.pos() < self.ctx().toks.len(),
        ensures
            r.sv() == node_at(self.ctx(), SNodeValue::Unknown, self.pos()),
    {
        self.node(NodeValue::Unknown, self.i)
    }

    /// An empty node.
    pub fn new_null(line: usize, column: usize) -> (r: Box<Node>)
        ensures
            r.sv() == leaf(SNodeValue::Null, line, column),
    {
        Box::new(Node::new(NodeValue::Null, None, line, column))
    }

    /// A block of statements.
    pub fn new_block(block: Vec<Box<Node>>, line: usize, column: usize) -> (r: Box<Node>)
        ensures
            r.sv() == leaf(SNodeValue::Block(boxes_sv(block@, block.len() as int)), line, column),
    {
        Box::new(Node::new(NodeValue::Block(block), None, line, column))
    }

    /// `left = right`, with an empty index.
    pub fn new_assign(left: Box<Node>, right: Box<Node>, line: usize, column: usize) -> (r: Box<Node>)
        ensures
            r.sv() == leaf(SNodeValue::Assign(Box::new(left.sv()), Box::new(right.sv()), Box::new(default_node())),
                line, column),
    {
        proof {
            reveal_with_fuel(Node::sv, 2);
        }
        Box::new(Node::new(NodeValue::Assign(left, right, Box::new(Node::default())), None, line, column))
    }

    /// A parser at the first token, outside any statement.
    pub fn new(tokens: &'a Vec<Token>, input_path: &str, input_content: String) -> (p: Self)
        ensures
            p.ctx() == ctx_of(tokens@, input_path@, input_content@),
            p.pos() == 0,
            !p.flag(),
    {
        Parser { input_content, input_path: String::from_str(input_path), tokens, i: 0, is_statement: false }
    }

    /// The source text.
    pub fn input_content(&self) -> (r: String)
        ensures
            r@ == self.ctx().src,
    {
        self.input_content.clone()
    }

    /// The path of the source.
    pub fn input_path(&self) -> (r: String)
        ensures
            r@ == self.ctx().file,
    {
        self.input_path.clone()
    }

    /// Parses the statements from the current token up to the end of input or a `}` that closes
    /// nothing, chaining them one after the other; `None` where the parse could not end.
    pub fn try_parse(&mut self) -> (r: Option<Result<Box<Node>, String>>)
        ensures
            final(self).ctx() == old(self).ctx(),
            parse_ends(old(self).ctx(), old(self).pos(), old(self).flag(), r, final(self).pos(), final(self).flag()),
            r matches Some(Ok(_)) ==> {
                &&& final(self).pos() >= old(self).pos()
                &&& present(final(self).ctx(), final(self).pos())
                &&& (is_at(final(self).ctx(), final(self).pos(), TokenType::Eof)
                    || is_at(final(self).ctx(), final(self).pos(), TokenType::RightCurlyBrace))
            },
    {
        proof {
            law_statements_end_at_close(self.ctx(), self.i as int, self.is_statement, None, false);
        }
        match self.statements(self.i, self.is_statement, None, false) {
            Step::Done(n, j, s) => {
                self.i = j;
                self.is_statement = s;
                Some(Ok(n))
            },
            Step::Fail(e, j, s) => {
                self.i = j;
                self.is_statement = s;
                Some(Err(e))
            },
            Step::Stuck => None,
        }
    }

    /// Parses the statements from the current token up to the end of input or a `}` that closes
    /// nothing, chaining them one after the other.
    pub fn parse(&mut self) -> (r: Result<Box<Node>, String>)
        requires
            !(statements(old(self).ctx(), old(self).pos(), old(self).flag(), None, false) is Stuck),
        ensures
            final(self).ctx() == old(self).ctx(),
            parse_ends(old(self).ctx(), old(self).pos(), old(self).flag(), Some(r), final(self).pos(), final(self).flag()),
    {
        match self.try_parse() {
            Some(r) => r,
            None => Err(String::new()),
        }
    }

    /// Parses a whole list of tokens, reporting faults against `input_content` and `input_path`.
    pub fn from_parse(tokens: &Vec<Token>, input_path: &str, input_content: String) -> (r: Result<Box<Node>, String>)
        requires
            !(statements(ctx_of(tokens@, input_path@, input_content@), 0, false, None, false) is Stuck),
        ensures
            parse_gives(ctx_of(tokens@, input_path@, input_content@), r),
    {
        let mut parser = Parser::new(tokens, input_path, input_content);
        parser.parse()
    }
}

} // verus!
