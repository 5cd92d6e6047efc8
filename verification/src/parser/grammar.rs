//! What the parser does, as mathematical functions of the token list.
//!
//! Each function takes the position of the current token and the statement flag, and says
//! what the parser ends with: a syntax tree with the position and flag after it, a fault, or
//! `Stuck`.  `Stuck` is where the parser cannot finish: it reads past the last token, reads a
//! number that does not fit, reports a fault at a position the report cannot show, or comes
//! back to a state it was already in without taking a token, and so would run forever.
//! A parse never moves back; the checks below for a position before the start only keep the
//! recursion well-founded, and the parser's own steps show that they never apply.
use vstd::prelude::*;
use crate::types::{TokenType, TokenKind, chain, SNode, SNodeValue, SDataType, SControlFlow, SOperator,
    SDeclaration, BinOp, UnOp};
use crate::lexer::TokenView;
use crate::literal::{i64_text, float_text, bool_text};
use crate::error::nth_line;

verus! {

/// What the parser reads: the tokens, the source text they came from and its path.
pub struct Ctx {
    pub toks: Seq<TokenView>,
    pub src: Seq<char>,
    pub file: Seq<char>,
}

/// Why parsing stopped: a report against the token at a position (its text, and whether the
/// token is shown as `Some(..)`), or a plain message.
pub enum Fault {
    At(int, Seq<char>, bool),
    Plain(Seq<char>),
}

/// The end of a parse: a value with the position and the statement flag after it, a fault
/// with the position and flag where it arose, or no end at all.
pub enum Parsed<A> {
    Done(A, int, bool),
    Failed(Fault, int, bool),
    Stuck,
}

/// The same fault or `Stuck`, for a parse that did not finish with a value.
pub open spec fn pass<A, B>(p: Parsed<A>) -> Parsed<B> {
    match p {
        Parsed::Failed(f, j, s) => Parsed::Failed(f, j, s),
        _ => Parsed::Stuck,
    }
}

/// There is a token at `i`.
pub open spec fn present(c: Ctx, i: int) -> bool {
    0 <= i < c.toks.len()
}

/// The token at `i` is of the plain kind `t`.
pub open spec fn is_at(c: Ctx, i: int, t: TokenType) -> bool {
    c.toks[i].kind == TokenKind::Plain(t)
}

/// How many tokens are left from `i`.
pub open spec fn left(c: Ctx, i: int) -> nat {
    if 0 <= i < c.toks.len() { (c.toks.len() - i) as nat } else { 0 }
}

/// A node at the position of the token at `i`.
pub open spec fn node_at(c: Ctx, v: SNodeValue, i: int) -> SNode {
    SNode { value: v, next: None, line: c.toks[i].line, column: c.toks[i].column, is_statement: false }
}

/// An empty node at the position of the token at `i`.
pub open spec fn null_at(c: Ctx, i: int) -> SNode {
    node_at(c, SNodeValue::Null, i)
}

/// `Node::default()`.
pub open spec fn default_node() -> SNode {
    SNode { value: SNodeValue::Null, next: None, line: 0, column: 0, is_statement: false }
}

/// `DataType::from(node)`: the name of a variable, the unit type for anything else.
pub open spec fn data_type_of(n: SNode) -> SDataType {
    match n.value {
        SNodeValue::Variable(_, name) => SDataType::String(name),
        _ => SDataType::Unit,
    }
}

/// `n` with `m` put after the last node of its chain.
pub open spec fn append(n: SNode, m: SNode) -> SNode
    decreases n,
{
    match n.next {
        None => SNode { next: Some(Box::new(m)), ..n },
        Some(k) => SNode { next: Some(Box::new(append(*k, m))), ..n },
    }
}

/// A report can be drawn at the token at `k`: its line counts from 1, and so does its
/// column where the source has that line.
pub open spec fn shown_at(c: Ctx, k: int) -> bool {
    &&& c.toks[k].line >= 1
    &&& nth_line(c.src, c.toks[k].line - 1) is Some ==> c.toks[k].column >= 1
}

/// A report at the token at `k`, with the statement flag `s`.
pub open spec fn report<A>(c: Ctx, k: int, text: Seq<char>, some: bool, s: bool) -> Parsed<A> {
    if shown_at(c, k) { Parsed::Failed(Fault::At(k, text, some), k, s) } else { Parsed::Stuck }
}

/// A node at the token at `j`, which must exist, with the parse going on from `j`.
pub open spec fn node_here(c: Ctx, v: SNodeValue, j: int, s: bool) -> Parsed<SNode> {
    if present(c, j) { Parsed::Done(node_at(c, v, j), j, s) } else { Parsed::Stuck }
}

/// The operator that a token of the product level stands for.
pub open spec fn product_op(k: TokenKind) -> Option<BinOp> {
    match k {
        TokenKind::Plain(TokenType::Mul) => Some(BinOp::Mul),
        TokenKind::Plain(TokenType::Div) => Some(BinOp::Div),
        TokenKind::Plain(TokenType::MulAssign) => Some(BinOp::MulAssign),
        TokenKind::Plain(TokenType::DivAssign) => Some(BinOp::DivAssign),
        _ => None,
    }
}

/// The operator that a token of the sum level stands for; `++` and `--` take one operand.
pub open spec fn sum_op(k: TokenKind) -> Option<SumOp> {
    match k {
        TokenKind::Plain(TokenType::Add) => Some(SumOp::Two(BinOp::Add)),
        TokenKind::Plain(TokenType::Sub) => Some(SumOp::Two(BinOp::Sub)),
        TokenKind::Plain(TokenType::AddAssign) => Some(SumOp::Two(BinOp::AddAssign)),
        TokenKind::Plain(TokenType::SubAssign) => Some(SumOp::Two(BinOp::SubAssign)),
        TokenKind::Plain(TokenType::Increment) => Some(SumOp::One(UnOp::Increment)),
        TokenKind::Plain(TokenType::Decrement) => Some(SumOp::One(UnOp::Decrement)),
        TokenKind::Plain(TokenType::BitAnd) => Some(SumOp::Two(BinOp::BitAnd)),
        TokenKind::Plain(TokenType::BitOr) => Some(SumOp::Two(BinOp::BitOr)),
        TokenKind::Plain(TokenType::BitXor) => Some(SumOp::Two(BinOp::BitXor)),
        TokenKind::Plain(TokenType::ShiftLeft) => Some(SumOp::Two(BinOp::ShiftLeft)),
        TokenKind::Plain(TokenType::ShiftRight) => Some(SumOp::Two(BinOp::ShiftRight)),
        _ => None,
    }
}

/// An operator of the sum level.
#[derive(PartialEq, Eq, Structural, Clone, Copy)]
pub enum SumOp {
    Two(BinOp),
    One(UnOp),
}

/// The operator that a token of the comparison level stands for.
pub open spec fn compare_op(k: TokenKind) -> Option<BinOp> {
    match k {
        TokenKind::Plain(TokenType::Eq) => Some(BinOp::Eq),
        TokenKind::Plain(TokenType::Ne) => Some(BinOp::Ne),
        TokenKind::Plain(TokenType::Lt) => Some(BinOp::Lt),
        TokenKind::Plain(TokenType::Gt) => Some(BinOp::Gt),
        TokenKind::Plain(TokenType::Le) => Some(BinOp::Le),
        TokenKind::Plain(TokenType::Ge) => Some(BinOp::Ge),
        TokenKind::Plain(TokenType::And) => Some(BinOp::And),
        TokenKind::Plain(TokenType::Or) => Some(BinOp::Or),
        _ => None,
    }
}

/// `l op r` as a node value.
pub open spec fn binary(op: BinOp, l: SNode, r: SNode) -> SNodeValue {
    SNodeValue::Operator(SOperator::Binary(op, Box::new(l), Box::new(r)))
}

/// The value a sum-level operator makes of `l` and `r`; `++` and `--` drop `r`.
pub open spec fn sum_value(op: SumOp, l: SNode, r: SNode) -> SNodeValue {
    match op {
        SumOp::Two(b) => binary(b, l, r),
        SumOp::One(u) => SNodeValue::Operator(SOperator::Unary(u, Box::new(l))),
    }
}

/// One operand: a literal, a comment, a variable (with an optional type), a call, a
/// parenthesised expression, a block or an array; `@` before it marks a system call.
pub open spec fn factor(c: Ctx, i: int, s: bool) -> Parsed<SNode>
    decreases left(c, i), 1int, 0int,
{
    if !present(c, i) {
        Parsed::Stuck
    } else {
        let sys = is_at(c, i, TokenType::AtSign);
        let i1 = if sys { i + 1 } else { i };
        if !present(c, i1) {
            Parsed::Stuck
        } else {
            let t = c.toks[i1];
            match t.kind {
                TokenKind::MultiComment(v, p) => node_here(c, SNodeValue::MultiComment(v, p), i1 + 1, s),
                TokenKind::SingleComment(v, p) => node_here(c, SNodeValue::SingleComment(v, p), i1 + 1, s),
                TokenKind::Plain(k) => {
                    if k == TokenType::DoubleQuote || k == TokenType::SingleQuote {
                        node_here(c, SNodeValue::DataType(SDataType::String(t.value)), i1 + 1, s)
                    } else if k == TokenType::Number {
                        match i64_text(t.value) {
                            Some(n) => node_here(c, SNodeValue::DataType(SDataType::Int(n as i64)), i1 + 1, s),
                            None => if float_text(t.value) {
                                node_here(c, SNodeValue::DataType(SDataType::Float(t.value)), i1 + 1, s)
                            } else {
                                Parsed::Done(default_node(), i1, s)
                            },
                        }
                    } else if k == TokenType::Ident {
                        match bool_text(t.value) {
                            Some(b) => node_here(c, SNodeValue::DataType(SDataType::Bool(b)), i1 + 1, s),
                            None => named(c, i1 + 1, s, t.value, sys),
                        }
                    } else if k == TokenType::LeftParen {
                        match expr(c, i1 + 1, s) {
                            Parsed::Done(n, j, s2) => if !present(c, j) {
                                Parsed::Stuck
                            } else if is_at(c, j, TokenType::RightParen) {
                                Parsed::Done(n, j + 1, s2)
                            } else {
                                report(c, j, "no closing parenthesis in factor: "@, false, s2)
                            },
                            r => pass(r),
                        }
                    } else if k == TokenType::LeftCurlyBrace {
                        block_items(c, i1 + 1, s, Seq::empty(), false)
                    } else if k == TokenType::LeftSquareBrace {
                        array_items(c, i1 + 1, s, null_at(c, i1), Seq::empty(), false)
                    } else {
                        report(c, i1, "Unexpected token in factor: "@, true, s)
                    }
                },
            }
        }
    }
}

/// After a name at `j - 1`: a call when `(` follows, else a variable with an optional type.
pub open spec fn named(c: Ctx, j: int, s: bool, name: Seq<char>, sys: bool) -> Parsed<SNode>
    decreases left(c, j), 1int, 0int,
{
    if !present(c, j) {
        Parsed::Stuck
    } else if is_at(c, j, TokenType::LeftParen) {
        call_args(c, j + 1, s, name, sys, Seq::empty(), false)
    } else if is_at(c, j, TokenType::Colon) {
        match data_type(c, j + 1, s) {
            Parsed::Done(d, k, s2) => node_here(c, SNodeValue::Variable(Box::new(d), name), k, s2),
            r => pass(r),
        }
    } else {
        node_here(c, SNodeValue::Variable(Box::new(null_at(c, j)), name), j, s)
    }
}

/// The arguments of a call from `j` up to `)`, with those read so far.
pub open spec fn call_args(c: Ctx, j: int, s: bool, name: Seq<char>, sys: bool, args: Seq<SNode>,
    stalled: bool) -> Parsed<SNode>
    decreases left(c, j), 9int, if stalled { 0int } else { 1int },
{
    if !present(c, j) {
        Parsed::Stuck
    } else if is_at(c, j, TokenType::RightParen) {
        if !present(c, j + 1) {
            Parsed::Stuck
        } else {
            let s1 = if is_at(c, j + 1, TokenType::Semi) { true } else { s };
            Parsed::Done(
                SNode {
                    value: SNodeValue::Call(name, args, sys),
                    next: None,
                    line: c.toks[j + 1].line,
                    column: c.toks[j + 1].column,
                    is_statement: s1,
                },
                j + 1,
                s1,
            )
        }
    } else {
        match item(c, j, s) {
            Parsed::Done(a, j2, s2) => if j2 < j || (j2 == j && (stalled || s2 == s)) {
                Parsed::Stuck
            } else {
                call_args(c, j2, s2, name, sys, args.push(a), j2 == j)
            },
            r => pass(r),
        }
    }
}

/// An expression, then the `,` that may follow it.
pub open spec fn item(c: Ctx, j: int, s: bool) -> Parsed<SNode>
    decreases left(c, j), 6int, 0int,
{
    match expr(c, j, s) {
        Parsed::Done(a, j2, s2) => if !present(c, j2) {
            Parsed::Stuck
        } else if is_at(c, j2, TokenType::Conma) {
            Parsed::Done(a, j2 + 1, s2)
        } else {
            Parsed::Done(a, j2, s2)
        },
        r => pass(r),
    }
}

/// The elements of an array from `j` up to `]`.
pub open spec fn array_items(c: Ctx, j: int, s: bool, ty: SNode, vals: Seq<SNode>, stalled: bool)
    -> Parsed<SNode>
    decreases left(c, j), 9int, if stalled { 0int } else { 1int },
{
    if !present(c, j) {
        Parsed::Stuck
    } else if is_at(c, j, TokenType::RightSquareBrace) {
        node_here(c, SNodeValue::Declaration(SDeclaration::Array(Box::new(ty), vals)), j + 1, s)
    } else {
        match item(c, j, s) {
            Parsed::Done(a, j2, s2) => if j2 < j || (j2 == j && (stalled || s2 == s)) {
                Parsed::Stuck
            } else {
                array_items(c, j2, s2, ty, vals.push(a), j2 == j)
            },
            r => pass(r),
        }
    }
}

/// The members of a structure from `j` up to `}`.
pub open spec fn members(c: Ctx, j: int, s: bool, name: Seq<char>, ms: Seq<SNode>, stalled: bool)
    -> Parsed<SNode>
    decreases left(c, j), 9int, if stalled { 0int } else { 1int },
{
    if !present(c, j) {
        Parsed::Stuck
    } else if is_at(c, j, TokenType::RightCurlyBrace) {
        node_here(c, SNodeValue::Declaration(SDeclaration::Struct(name, ms)), j + 1, s)
    } else {
        match item(c, j, s) {
            Parsed::Done(a, j2, s2) => if j2 < j || (j2 == j && (stalled || s2 == s)) {
                Parsed::Stuck
            } else {
                members(c, j2, s2, name, ms.push(a), j2 == j)
            },
            r => pass(r),
        }
    }
}

/// Products: operands joined by `*`, `/`, `*=` and `/=`, from the left.
pub open spec fn term(c: Ctx, i: int, s: bool) -> Parsed<SNode>
    decreases left(c, i), 3int, 0int,
{
    if !present(c, i) {
        Parsed::Stuck
    } else {
        match factor(c, i, s) {
            Parsed::Done(n, j, s2) => if j < i { Parsed::Stuck } else { term_rest(c, j, s2, n) },
            r => pass(r),
        }
    }
}

/// The rest of a product after `n`.
pub open spec fn term_rest(c: Ctx, j: int, s: bool, n: SNode) -> Parsed<SNode>
    decreases left(c, j), 2int, 0int,
{
    if !present(c, j) {
        Parsed::Stuck
    } else {
        match product_op(c.toks[j].kind) {
            Some(op) => match factor(c, j + 1, s) {
                Parsed::Done(r, j2, s2) => if j2 <= j || !present(c, j2) {
                    Parsed::Stuck
                } else {
                    term_rest(c, j2, s2, node_at(c, binary(op, n, r), j2))
                },
                r => pass(r),
            },
            None => Parsed::Done(n, j, s),
        }
    }
}

/// Sums: products joined by `+`, `-`, `+=`, `-=`, `++`, `--` and the bit operators.
pub open spec fn expr(c: Ctx, i: int, s: bool) -> Parsed<SNode>
    decreases left(c, i), 5int, 0int,
{
    if !present(c, i) {
        Parsed::Stuck
    } else {
        match term(c, i, s) {
            Parsed::Done(n, j, s2) => if j < i { Parsed::Stuck } else { expr_rest(c, j, s2, n) },
            r => pass(r),
        }
    }
}

/// The rest of a sum after `n`.
pub open spec fn expr_rest(c: Ctx, j: int, s: bool, n: SNode) -> Parsed<SNode>
    decreases left(c, j), 4int, 0int,
{
    if !present(c, j) {
        Parsed::Stuck
    } else {
        match sum_op(c.toks[j].kind) {
            Some(op) => match term(c, j + 1, s) {
                Parsed::Done(r, j2, s2) => if j2 <= j || !present(c, j2) {
                    Parsed::Stuck
                } else {
                    expr_rest(c, j2, s2, node_at(c, sum_value(op, n, r), j2))
                },
                r => pass(r),
            },
            None => Parsed::Done(n, j, s),
        }
    }
}

/// Conditions: sums joined by comparisons, `&&` and `||`.
pub open spec fn condition(c: Ctx, i: int, s: bool) -> Parsed<SNode>
    decreases left(c, i), 7int, 0int,
{
    if !present(c, i) {
        Parsed::Stuck
    } else {
        match expr(c, i, s) {
            Parsed::Done(n, j, s2) => if j < i { Parsed::Stuck } else { condition_rest(c, j, s2, n) },
            r => pass(r),
        }
    }
}

/// The rest of a condition after `n`.
pub open spec fn condition_rest(c: Ctx, j: int, s: bool, n: SNode) -> Parsed<SNode>
    decreases left(c, j), 6int, 0int,
{
    if !present(c, j) {
        Parsed::Stuck
    } else {
        match compare_op(c.toks[j].kind) {
            Some(op) => match expr(c, j + 1, s) {
                Parsed::Done(r, j2, s2) => if j2 <= j || !present(c, j2) {
                    Parsed::Stuck
                } else {
                    condition_rest(c, j2, s2, node_at(c, binary(op, n, r), j2))
                },
                r => pass(r),
            },
            None => Parsed::Done(n, j, s),
        }
    }
}

/// A type after `:`: the token at `i` is skipped unless the end of input or `,` comes next.
pub open spec fn data_type(c: Ctx, i: int, s: bool) -> Parsed<SNode>
    decreases left(c, i), 8int, 0int,
{
    if !present(c, i) || !present(c, i + 1) {
        Parsed::Stuck
    } else {
        let i1 = if !is_at(c, i + 1, TokenType::Eof) && !is_at(c, i + 1, TokenType::Conma) {
            i + 1
        } else {
            i
        };
        match expr(c, i1, s) {
            Parsed::Done(d, j, s2) => if j < i {
                Parsed::Stuck
            } else {
                node_here(c, SNodeValue::DataType(data_type_of(d)), j, s2)
            },
            r => pass(r),
        }
    }
}

/// A block: `{` when it is there, then statements up to `}`.
pub open spec fn block(c: Ctx, i: int, s: bool) -> Parsed<SNode>
    decreases left(c, i), 14int, 0int,
{
    if !present(c, i) {
        Parsed::Stuck
    } else if is_at(c, i, TokenType::LeftCurlyBrace) {
        block_items(c, i + 1, s, Seq::empty(), false)
    } else {
        block_items(c, i, s, Seq::empty(), false)
    }
}

/// The statements of a block from `j` up to `}`, with those read so far.
pub open spec fn block_items(c: Ctx, j: int, s: bool, ns: Seq<SNode>, stalled: bool) -> Parsed<SNode>
    decreases left(c, j), 13int, if stalled { 0int } else { 1int },
{
    if !present(c, j) {
        Parsed::Stuck
    } else if is_at(c, j, TokenType::RightCurlyBrace) {
        node_here(c, SNodeValue::Block(ns), j + 1, s)
    } else if is_at(c, j, TokenType::Eof) {
        report(c, j, "Unexpected end of input, no closing curly brace found: "@, false, s)
    } else {
        match statements(c, j, s, None, false) {
            Parsed::Done(n, j2, s2) => if j2 < j || (j2 == j && (stalled || s2 == s)) {
                Parsed::Stuck
            } else {
                block_items(c, j2, s2, ns.push(n), j2 == j)
            },
            r => pass(r),
        }
    }
}

/// Statements from `i` up to the end of input or `}`, chained after `prev`.
pub open spec fn statements(c: Ctx, i: int, s: bool, prev: Option<SNode>, stalled: bool) -> Parsed<SNode>
    decreases left(c, i), 12int, if stalled { 0int } else { 1int },
{
    if !present(c, i) {
        Parsed::Stuck
    } else if is_at(c, i, TokenType::Eof) || is_at(c, i, TokenType::RightCurlyBrace) {
        match prev {
            Some(p) => Parsed::Done(p, i, s),
            None => Parsed::Failed(Fault::Plain("No statements found"@), i, s),
        }
    } else {
        match statement(c, i, s) {
            Parsed::Done(n, i2, s2) => {
                let chain = match prev {
                    Some(p) => append(p, n),
                    None => n,
                };
                if i2 < i || (i2 == i && (stalled || s2 == s)) {
                    Parsed::Stuck
                } else {
                    statements(c, i2, s2, Some(chain), i2 == i)
                }
            },
            r => pass(r),
        }
    }
}

/// The word at `i` is `w`.
pub open spec fn word(c: Ctx, i: int, w: Seq<char>) -> bool {
    c.toks[i].value == w
}

/// The word at `i` is `w` and the token is a name.
pub open spec fn name_word(c: Ctx, i: int, w: Seq<char>) -> bool {
    is_at(c, i, TokenType::Ident) && c.toks[i].value == w
}

/// One statement, chosen by the token at `i` and those after it.
pub open spec fn statement(c: Ctx, i: int, s: bool) -> Parsed<SNode>
    decreases left(c, i), 11int, 0int,
{
    if !present(c, i) {
        Parsed::Stuck
    } else if word(c, i, "callback"@) {
        if !present(c, i + 1) {
            Parsed::Stuck
        } else if word(c, i + 1, "fn"@) {
            function(c, i + 1, s, true)
        } else {
            Parsed::Done(default_node(), i + 1, s)
        }
    } else if word(c, i, "struct"@) {
        structure(c, i, s)
    } else if word(c, i, "fn"@) {
        function(c, i, s, false)
    } else if word(c, i, "while"@) {
        while_loop(c, i, s)
    } else if word(c, i, "if"@) {
        if_else(c, i, s)
    } else if name_word(c, i, "for"@) && !present(c, i + 2) {
        Parsed::Stuck
    } else if name_word(c, i, "for"@) && word(c, i + 2, "in"@) {
        for_loop(c, i, s)
    } else if word(c, i, "loop"@) {
        if !present(c, i + 2) {
            Parsed::Stuck
        } else {
            match block(c, i + 2, s) {
                Parsed::Done(b, k, s2) => node_here(c, SNodeValue::ControlFlow(SControlFlow::Loop(Box::new(b))), k, s2),
                r => pass(r),
            }
        }
    } else if name_word(c, i, "let"@) || name_word(c, i, "var"@) || name_word(c, i, "l"@)
        || name_word(c, i, "v"@) {
        variable(c, i, s)
    } else if is_at(c, i, TokenType::Ident) && !present(c, i + 2) {
        Parsed::Stuck
    } else if is_at(c, i, TokenType::Ident) && is_at(c, i + 2, TokenType::Equals) && word(c, i, "type"@) {
        type_alias(c, i, s)
    } else if is_at(c, i, TokenType::Ident) && (is_at(c, i + 1, TokenType::Equals)
        || is_at(c, i + 1, TokenType::LeftSquareBrace)) {
        assignment(c, i, s)
    } else if name_word(c, i, "return"@) {
        match expr(c, i + 1, s) {
            Parsed::Done(v, j, s2) => if j <= i || !present(c, j) {
                Parsed::Stuck
            } else {
                Parsed::Done(
                    SNode {
                        value: SNodeValue::ControlFlow(SControlFlow::Return(Box::new(v))),
                        next: None,
                        line: c.toks[j].line,
                        column: c.toks[j].column,
                        is_statement: s2,
                    },
                    j,
                    s2,
                )
            },
            r => pass(r),
        }
    } else if name_word(c, i, "break"@) {
        node_here(c, SNodeValue::ControlFlow(SControlFlow::Break), i + 1, s)
    } else if name_word(c, i, "continue"@) {
        node_here(c, SNodeValue::ControlFlow(SControlFlow::Continue), i + 1, s)
    } else if is_at(c, i, TokenType::AtSign) && !present(c, i + 1) {
        Parsed::Stuck
    } else if is_at(c, i, TokenType::AtSign) && name_word(c, i + 1, "include"@) {
        if !present(c, i + 2) {
            Parsed::Stuck
        } else {
            Parsed::Done(node_at(c, SNodeValue::Include(c.toks[i + 2].value), i + 2), i + 3, s)
        }
    } else if is_at(c, i, TokenType::LeftCurlyBrace) {
        block_items(c, i + 1, s, Seq::empty(), false)
    } else if is_at(c, i, TokenType::Semi) {
        node_here(c, SNodeValue::EndStatement, i + 1, true)
    } else {
        expr(c, i, false)
    }
}

/// `struct name { members }`, or `struct name` alone.
pub open spec fn structure(c: Ctx, i: int, s: bool) -> Parsed<SNode>
    decreases left(c, i), 10int, 0int,
{
    if !present(c, i) || !present(c, i + 2) {
        Parsed::Stuck
    } else {
        let name = c.toks[i + 1].value;
        if is_at(c, i + 2, TokenType::LeftCurlyBrace) {
            members(c, i + 3, s, name, Seq::empty(), false)
        } else {
            let s1 = if is_at(c, i + 2, TokenType::Semi) { true } else { s };
            node_here(c, SNodeValue::Declaration(SDeclaration::Struct(name, seq![null_at(c, i + 2)])), i + 2, s1)
        }
    }
}

/// `fn` at `i`: an optional `@`, the name, the arguments, an optional `-> type`, the body.
pub open spec fn function(c: Ctx, i: int, s: bool, callback: bool) -> Parsed<SNode>
    decreases left(c, i), 10int, 0int,
{
    if !present(c, i) || !present(c, i + 1) {
        Parsed::Stuck
    } else {
        let sys = is_at(c, i + 1, TokenType::AtSign);
        let j1 = if sys { i + 2 } else { i + 1 };
        if !present(c, j1 + 2) {
            Parsed::Stuck
        } else {
            params(c, j1 + 2, s, callback, sys, c.toks[j1].value, null_at(c, j1 + 2), Seq::empty(), false)
        }
    }
}

/// The parameters from `j` up to `)`, with those read so far, then the rest of the function.
pub open spec fn params(c: Ctx, j: int, s: bool, callback: bool, sys: bool, name: Seq<char>,
    ret0: SNode, args: Seq<(SNode, Seq<char>)>, stalled: bool) -> Parsed<SNode>
    decreases left(c, j), 9int, if stalled { 0int } else { 1int },
{
    if !present(c, j) {
        Parsed::Stuck
    } else if is_at(c, j, TokenType::RightParen) {
        function_tail(c, j + 1, s, callback, sys, name, ret0, args)
    } else {
        match param(c, j, s) {
            Parsed::Done(a, j2, s2) => if j2 < j || (j2 == j && (stalled || s2 == s)) {
                Parsed::Stuck
            } else {
                params(c, j2, s2, callback, sys, name, ret0, args.push(a), j2 == j)
            },
            r => pass(r),
        }
    }
}

/// One parameter: a name, an optional `: type`, then the `,` that may follow.
pub open spec fn param(c: Ctx, j: int, s: bool) -> Parsed<(SNode, Seq<char>)>
    decreases left(c, j), 8int, 0int,
{
    if !present(c, j) {
        Parsed::Stuck
    } else {
        match expr(c, j, s) {
            Parsed::Done(a, j2, s2) => if j2 < j || !present(c, j2) {
                Parsed::Stuck
            } else {
                let typed = param_type(c, j2, s2);
                match typed {
                    Parsed::Done(ty, k, sk) => match a.value {
                        SNodeValue::Variable(_, n) => if !present(c, k) {
                            Parsed::Stuck
                        } else if is_at(c, k, TokenType::Conma) {
                            Parsed::Done((ty, n), k + 1, sk)
                        } else {
                            Parsed::Done((ty, n), k, sk)
                        },
                        _ => Parsed::Failed(Fault::Plain("Invalid argument name"@), k, sk),
                    },
                    r => pass(r),
                }
            },
            r => pass(r),
        }
    }
}

/// The type of a parameter: `: type` at `j`, or none.
pub open spec fn param_type(c: Ctx, j: int, s: bool) -> Parsed<SNode>
    decreases left(c, j), 7int, 0int,
{
    if !present(c, j) {
        Parsed::Stuck
    } else if is_at(c, j, TokenType::Colon) {
        match expr(c, j + 1, s) {
            Parsed::Done(d, k, s2) => if k <= j {
                Parsed::Stuck
            } else {
                node_here(c, SNodeValue::DataType(data_type_of(d)), k, s2)
            },
            r => pass(r),
        }
    } else {
        Parsed::Done(null_at(c, j), j, s)
    }
}

/// After the parameters: an optional `-> type`, then the body.
pub open spec fn function_tail(c: Ctx, j: int, s: bool, callback: bool, sys: bool, name: Seq<char>,
    ret0: SNode, args: Seq<(SNode, Seq<char>)>) -> Parsed<SNode>
    decreases left(c, j), 15int, 0int,
{
    if !present(c, j) {
        Parsed::Stuck
    } else {
        let ret: Parsed<SNode> = if is_at(c, j, TokenType::RightArrow) {
            match expr(c, j + 1, s) {
                Parsed::Done(t, k, s2) => if k <= j {
                    Parsed::Stuck
                } else {
                    node_here(c, SNodeValue::DataType(data_type_of(t)), k, s2)
                },
                r => pass(r),
            }
        } else {
            Parsed::Done(ret0, j, s)
        };
        match ret {
            Parsed::Done(rt, k, s2) => if k < j {
                Parsed::Stuck
            } else {
                match block(c, k, s2) {
                    Parsed::Done(body, m, s3) => {
                        let d = if callback {
                            SDeclaration::CallBackFunction(name, args, Box::new(body), Box::new(rt), sys)
                        } else {
                            SDeclaration::Function(name, args, Box::new(body), Box::new(rt), sys)
                        };
                        node_here(c, SNodeValue::Declaration(d), m, s3)
                    },
                    r => pass(r),
                }
            },
            r => pass(r),
        }
    }
}

/// `while condition { body }`; the condition may be left out.
pub open spec fn while_loop(c: Ctx, i: int, s: bool) -> Parsed<SNode>
    decreases left(c, i), 10int, 0int,
{
    if !present(c, i) || !present(c, i + 1) {
        Parsed::Stuck
    } else {
        let cond: Parsed<SNode> = if !is_at(c, i + 1, TokenType::LeftCurlyBrace) {
            condition(c, i + 1, s)
        } else {
            Parsed::Done(null_at(c, i + 1), i + 1, s)
        };
        match cond {
            Parsed::Done(cn, j, s2) => if j <= i {
                Parsed::Stuck
            } else {
                match block(c, j + 1, s2) {
                    Parsed::Done(b, k, s3) => node_here(
                        c,
                        SNodeValue::ControlFlow(SControlFlow::While(Box::new(cn), Box::new(b))),
                        k,
                        s3,
                    ),
                    r => pass(r),
                }
            },
            r => pass(r),
        }
    }
}

/// `if condition { body }`, with what the token after the next one says may follow.
pub open spec fn if_else(c: Ctx, i: int, s: bool) -> Parsed<SNode>
    decreases left(c, i), 10int, 0int,
{
    if !present(c, i) || !present(c, i + 1) {
        Parsed::Stuck
    } else {
        let cond: Parsed<SNode> = if !is_at(c, i + 1, TokenType::LeftCurlyBrace) {
            condition(c, i + 1, s)
        } else {
            Parsed::Done(null_at(c, i + 1), i + 1, s)
        };
        match cond {
            Parsed::Done(cn, j, s2) => if j <= i {
                Parsed::Stuck
            } else {
                match block(c, j + 1, s2) {
                    Parsed::Done(b, k, s3) => if k <= i || !present(c, k) {
                        Parsed::Stuck
                    } else {
                        let head = SNode {
                            value: SNodeValue::ControlFlow(SControlFlow::If(Box::new(cn), Box::new(b))),
                            next: None,
                            line: c.toks[k].line,
                            column: c.toks[k].column,
                            is_statement: true,
                        };
                        else_part(c, k, s3, head)
                    },
                    r => pass(r),
                }
            },
            r => pass(r),
        }
    }
}

/// What follows an `if` node `head` that ends at `k`: when the token after the next one is
/// `else`, that `else` is taken, then `if ...` or a block.
pub open spec fn else_part(c: Ctx, k: int, s: bool, head: SNode) -> Parsed<SNode>
    decreases left(c, k), 10int, 0int,
{
    if !present(c, k) {
        Parsed::Stuck
    } else if !present(c, k + 1) || !word(c, k + 1, "else"@) {
        Parsed::Done(head, k, s)
    } else if !present(c, k + 2) {
        Parsed::Done(head, k + 1, s)
    } else if word(c, k + 2, "if"@) {
        match if_else(c, k + 2, s) {
            Parsed::Done(e, m, s4) => Parsed::Done(SNode { next: Some(Box::new(e)), ..head }, m, s4),
            r => pass(r),
        }
    } else {
        match block(c, k + 2, s) {
            Parsed::Done(eb, m, s4) => if !present(c, m) {
                Parsed::Stuck
            } else {
                let tail = SNode {
                    value: SNodeValue::ControlFlow(SControlFlow::Else(Box::new(eb))),
                    next: None,
                    line: c.toks[m].line,
                    column: c.toks[m].column,
                    is_statement: true,
                };
                Parsed::Done(SNode { next: Some(Box::new(tail)), ..head }, m, s4)
            },
            r => pass(r),
        }
    }
}

/// The range or collection of `for name in ...`, with the position of the token that ends it.
pub open spec fn for_source(c: Ctx, i: int) -> Option<(SNode, int)> {
    let start = c.toks[i + 3].value;
    if !present(c, i + 4) {
        None
    } else if is_at(c, i + 4, TokenType::Range) {
        if !present(c, i + 5) {
            None
        } else {
            match (i64_text(start), i64_text(c.toks[i + 5].value)) {
                (Some(a), Some(b)) => Some((
                    node_at(c, binary(
                        BinOp::Range,
                        node_at(c, SNodeValue::DataType(SDataType::Int(a as i64)), i + 5),
                        node_at(c, SNodeValue::DataType(SDataType::Int(b as i64)), i + 5),
                    ), i + 5),
                    i + 5,
                )),
                _ => None,
            }
        }
    } else {
        Some((node_at(c, SNodeValue::Variable(Box::new(null_at(c, i + 3)), start), i + 3), i + 3))
    }
}

/// `for name in a..b { body }` or `for name in collection { body }`.
pub open spec fn for_loop(c: Ctx, i: int, s: bool) -> Parsed<SNode>
    decreases left(c, i), 10int, 0int,
{
    if !present(c, i) || !present(c, i + 3) {
        Parsed::Stuck
    } else {
        match for_source(c, i) {
            None => Parsed::Stuck,
            Some((src, j)) => match block(c, j + 1, s) {
                Parsed::Done(b, k, s2) => if !present(c, k) {
                    Parsed::Stuck
                } else {
                    let var = node_at(c, SNodeValue::Variable(Box::new(null_at(c, k)), c.toks[i + 1].value), k);
                    node_here(
                        c,
                        SNodeValue::ControlFlow(SControlFlow::For(Box::new(var), Box::new(src), Box::new(b))),
                        k,
                        s2,
                    )
                },
                r => pass(r),
            },
        }
    }
}

/// How `{` and `}` before `k` are scanned backwards, from a count of `count`: whether the count
/// goes above zero, or `None` where it would leave the range of an `i32`.
pub open spec fn nested_from(c: Ctx, k: int, count: int) -> Option<bool>
    decreases k,
{
    if k <= 0 {
        Some(false)
    } else {
        let next = if is_at(c, k - 1, TokenType::LeftCurlyBrace) {
            count + 1
        } else if is_at(c, k - 1, TokenType::RightCurlyBrace) {
            count - 1
        } else {
            count
        };
        if next < i32::MIN || next > i32::MAX {
            None
        } else if next > 0 {
            Some(true)
        } else {
            nested_from(c, k - 1, next)
        }
    }
}

/// A declaration at `k` is local: some `{` before it is not closed before it.
pub open spec fn nested(c: Ctx, k: int) -> Option<bool> {
    nested_from(c, k, 0)
}

/// The declaration node for `name` ending at `k`.
pub open spec fn declared(c: Ctx, k: int, name: Seq<char>, ty: SNode, value: SNode, local: bool,
    mutable: bool, reference: bool, s: bool) -> SNode {
    SNode {
        value: SNodeValue::Declaration(SDeclaration::Variable(
            Box::new(node_at(c, SNodeValue::Variable(Box::new(null_at(c, k)), name), k)),
            Box::new(ty),
            Box::new(value),
            local,
            mutable,
            reference,
        )),
        next: None,
        line: c.toks[k].line,
        column: c.toks[k].column,
        is_statement: s,
    }
}

/// A declaration that ends at `k` with `;` and no value.
pub open spec fn declared_empty(c: Ctx, k: int, name: Seq<char>, ty: SNode, value: SNode,
    mutable: bool) -> Parsed<SNode> {
    match nested(c, k) {
        None => Parsed::Stuck,
        Some(local) => Parsed::Done(declared(c, k, name, ty, value, local, mutable, false, true), k, true),
    }
}

/// `let [mut] name [: type] [= value | = &]`, and the same after `var`, `l` or `v`.
pub open spec fn variable(c: Ctx, i: int, s: bool) -> Parsed<SNode>
    decreases left(c, i), 10int, 0int,
{
    if !present(c, i) || !present(c, i + 1) {
        Parsed::Stuck
    } else {
        let mutable = word(c, i + 1, "mut"@) || word(c, i + 1, "mutable"@);
        let i2 = if mutable { i + 2 } else { i + 1 };
        if !present(c, i2) || !present(c, i2 + 1) {
            Parsed::Stuck
        } else {
            let name = c.toks[i2].value;
            let ty0 = node_at(c, SNodeValue::DataType(SDataType::Unit), i2);
            let value0 = null_at(c, i2);
            let typed: Parsed<SNode> = if is_at(c, i2 + 1, TokenType::Colon) {
                data_type(c, i2 + 1, s)
            } else {
                Parsed::Done(ty0, i2, s)
            };
            match typed {
                Parsed::Done(ty, i4, s4) => if i4 <= i || !present(c, i4) {
                    Parsed::Stuck
                } else if is_at(c, i4, TokenType::Semi) {
                    declared_empty(c, i4, name, ty, value0, mutable)
                } else if !present(c, i4 + 1) {
                    Parsed::Stuck
                } else {
                    let i6 = if is_at(c, i4 + 1, TokenType::Equals) { i4 + 2 } else { i4 + 1 };
                    if !present(c, i6) {
                        Parsed::Stuck
                    } else if is_at(c, i6, TokenType::Semi) {
                        declared_empty(c, i6, name, ty, value0, mutable)
                    } else {
                        let valued: Parsed<SNode> = if is_at(c, i6, TokenType::Reference) {
                            Parsed::Done(value0, i6 + 1, s4)
                        } else {
                            expr(c, i6, s4)
                        };
                        match valued {
                            Parsed::Done(v, i7, s7) => if !present(c, i7) {
                                Parsed::Stuck
                            } else {
                                let s8 = if is_at(c, i7, TokenType::Semi) { true } else { s7 };
                                match nested(c, i7) {
                                    None => Parsed::Stuck,
                                    Some(local) => Parsed::Done(
                                        declared(c, i7, name, ty, v, local, mutable,
                                            is_at(c, i6, TokenType::Reference), s8),
                                        i7,
                                        s8,
                                    ),
                                }
                            },
                            r => pass(r),
                        }
                    }
                },
                r => pass(r),
            }
        }
    }
}

/// `type name = value`.
pub open spec fn type_alias(c: Ctx, i: int, s: bool) -> Parsed<SNode>
    decreases left(c, i), 10int, 0int,
{
    if !present(c, i) || !present(c, i + 1) {
        Parsed::Stuck
    } else {
        match expr(c, i + 3, s) {
            Parsed::Done(v, j, s2) => if !present(c, j) {
                Parsed::Stuck
            } else {
                let name = node_at(c, SNodeValue::Variable(Box::new(null_at(c, j)), c.toks[i + 1].value), j);
                Parsed::Done(
                    SNode {
                        value: SNodeValue::Declaration(SDeclaration::Type(Box::new(name), Box::new(v))),
                        next: None,
                        line: c.toks[j].line,
                        column: c.toks[j].column,
                        is_statement: s2,
                    },
                    j,
                    s2,
                )
            },
            r => pass(r),
        }
    }
}

/// The node of `name = value` or `name[index] = value` ending at `k`.
pub open spec fn assigned(c: Ctx, k: int, name: Seq<char>, value: SNode, index: SNode, s: bool) -> SNode {
    SNode {
        value: SNodeValue::Assign(
            Box::new(node_at(c, SNodeValue::Variable(Box::new(null_at(c, k)), name), k)),
            Box::new(value),
            Box::new(index),
        ),
        next: None,
        line: c.toks[k].line,
        column: c.toks[k].column,
        is_statement: s,
    }
}

/// `name = value` or `name[index] = value`.
pub open spec fn assignment(c: Ctx, i: int, s: bool) -> Parsed<SNode>
    decreases left(c, i), 10int, 0int,
{
    if !present(c, i) || !present(c, i + 1) {
        Parsed::Stuck
    } else {
        let name = c.toks[i].value;
        if is_at(c, i + 1, TokenType::LeftSquareBrace) {
            match expr(c, i + 2, s) {
                Parsed::Done(ix, j, s2) => if j <= i {
                    Parsed::Stuck
                } else {
                    match expr(c, j + 2, s2) {
                        Parsed::Done(v, k, s3) => if present(c, k) {
                            Parsed::Done(assigned(c, k, name, v, ix, s3), k, s3)
                        } else {
                            Parsed::Stuck
                        },
                        r => pass(r),
                    }
                },
                r => pass(r),
            }
        } else {
            match expr(c, i + 2, s) {
                Parsed::Done(v, k, s3) => if present(c, k) {
                    Parsed::Done(assigned(c, k, name, v, null_at(c, i), s3), k, s3)
                } else {
                    Parsed::Stuck
                },
                r => pass(r),
            }
        }
    }
}

/// The token that writes a binary operator: each operator is written with the token of the
/// same name.
pub open spec fn op_token(b: BinOp) -> TokenType {
    match b {
        BinOp::Eq => TokenType::Eq,
        BinOp::Ne => TokenType::Ne,
        BinOp::Lt => TokenType::Lt,
        BinOp::Gt => TokenType::Gt,
        BinOp::Le => TokenType::Le,
        BinOp::Ge => TokenType::Ge,
        BinOp::And => TokenType::And,
        BinOp::Or => TokenType::Or,
        BinOp::Add => TokenType::Add,
        BinOp::Sub => TokenType::Sub,
        BinOp::Mul => TokenType::Mul,
        BinOp::Div => TokenType::Div,
        BinOp::AddAssign => TokenType::AddAssign,
        BinOp::SubAssign => TokenType::SubAssign,
        BinOp::MulAssign => TokenType::MulAssign,
        BinOp::DivAssign => TokenType::DivAssign,
        BinOp::BitAnd => TokenType::BitAnd,
        BinOp::BitOr => TokenType::BitOr,
        BinOp::BitXor => TokenType::BitXor,
        BinOp::ShiftLeft => TokenType::ShiftLeft,
        BinOp::ShiftRight => TokenType::ShiftRight,
        BinOp::BitAndAssign => TokenType::BitAndAssign,
        BinOp::BitOrAssign => TokenType::BitOrAssign,
        BinOp::BitXorAssign => TokenType::BitXorAssign,
        BinOp::ShiftLeftAssign => TokenType::ShiftLeftAssign,
        BinOp::ShiftRightAssign => TokenType::ShiftRightAssign,
        BinOp::Range => TokenType::Range,
    }
}

/// The token that writes an operator with one operand.
pub open spec fn unop_token(u: UnOp) -> TokenType {
    match u {
        UnOp::Increment => TokenType::Increment,
        UnOp::Decrement => TokenType::Decrement,
        UnOp::BitNot => TokenType::BitNot,
    }
}

/// The parser reads each operator token as the operator of the same name, at the level it
/// belongs to: `*`, `/`, `*=`, `/=` bind tightest; then `+`, `-`, `+=`, `-=`, `++`, `--` and
/// the bit operators; then the comparisons, `&&` and `||`.  An operator node is only ever made
/// from the token that writes it: a `-` between two terms gives a subtraction, never an
/// addition.
pub proof fn law_operator_tokens_keep_their_names()
    ensures
        forall|k: TokenKind| #[trigger] product_op(k) matches Some(b) ==> k == TokenKind::Plain(op_token(b)),
        forall|k: TokenKind| #[trigger] sum_op(k) matches Some(SumOp::Two(b)) ==> k == TokenKind::Plain(op_token(b)),
        forall|k: TokenKind| #[trigger] sum_op(k) matches Some(SumOp::One(u)) ==> k == TokenKind::Plain(unop_token(u)),
        forall|k: TokenKind| #[trigger] compare_op(k) matches Some(b) ==> k == TokenKind::Plain(op_token(b)),
        forall|b: BinOp| (b == BinOp::Mul || b == BinOp::Div || b == BinOp::MulAssign || b == BinOp::DivAssign)
            ==> #[trigger] product_op(TokenKind::Plain(op_token(b))) == Some(b),
        forall|b: BinOp| (b == BinOp::Add || b == BinOp::Sub || b == BinOp::AddAssign || b == BinOp::SubAssign
            || b == BinOp::BitAnd || b == BinOp::BitOr || b == BinOp::BitXor || b == BinOp::ShiftLeft
            || b == BinOp::ShiftRight) ==> #[trigger] sum_op(TokenKind::Plain(op_token(b))) == Some(SumOp::Two(b)),
        forall|u: UnOp| (u == UnOp::Increment || u == UnOp::Decrement)
            ==> #[trigger] sum_op(TokenKind::Plain(unop_token(u))) == Some(SumOp::One(u)),
        forall|b: BinOp| (b == BinOp::Eq || b == BinOp::Ne || b == BinOp::Lt || b == BinOp::Gt || b == BinOp::Le
            || b == BinOp::Ge || b == BinOp::And || b == BinOp::Or)
            ==> #[trigger] compare_op(TokenKind::Plain(op_token(b))) == Some(b),
{
}

/// A list of statements ends only where the input ends or at a `}`: when it is parsed, the
/// token at the position after it is the end of input or `}`.
pub proof fn law_statements_end_at_close(c: Ctx, i: int, s: bool, prev: Option<SNode>, stalled: bool)
    ensures
        statements(c, i, s, prev, stalled) matches Parsed::Done(_, j, _) ==> present(c, j)
            && (is_at(c, j, TokenType::Eof) || is_at(c, j, TokenType::RightCurlyBrace)),
    decreases left(c, i), if stalled { 0int } else { 1int },
{
    if present(c, i) && !(is_at(c, i, TokenType::Eof) || is_at(c, i, TokenType::RightCurlyBrace)) {
        match statement(c, i, s) {
            Parsed::Done(n, i2, s2) => {
                let chain = match prev {
                    Some(p) => append(p, n),
                    None => n,
                };
                if !(i2 < i || (i2 == i && (stalled || s2 == s))) {
                    law_statements_end_at_close(c, i2, s2, Some(chain), i2 == i);
                }
            },
            _ => {},
        }
    }
}

/// A node without the link to the node after it.
pub open spec fn unlinked(x: SNode) -> SNode {
    SNode { next: None, ..x }
}

/// The nodes of the chain that starts at `n`, each without its link.
pub open spec fn heads(n: SNode) -> Seq<SNode> {
    chain(n).map_values(|x: SNode| unlinked(x))
}

/// Putting `m` after the chain of `n` makes a chain of the nodes of `n`, then those of `m`.
pub proof fn law_append_chains(n: SNode, m: SNode)
    ensures
        heads(append(n, m)) == heads(n) + heads(m),
    decreases n,
{
    match n.next {
        Some(k) => {
            law_append_chains(*k, m);
            let an = append(n, m);
            assert(chain(an) == seq![an] + chain(append(*k, m)));
            assert(chain(n) == seq![n] + chain(*k));
            assert(heads(an) =~= seq![unlinked(an)] + heads(append(*k, m)));
            assert(heads(n) =~= seq![unlinked(n)] + heads(*k));
            assert(unlinked(an) == unlinked(n));
            assert(heads(an) =~= heads(n) + heads(m));
        },
        None => {
            assert(heads(append(n, m)) =~= heads(n) + heads(m));
        },
    }
}

} // verus!
