//! Token kinds and the syntax tree of the language.
use vstd::prelude::*;
use crate::text::{str_debug, debug_str};
use crate::error::{decimal, usize_to_decimal};

verus! {

/// The kind of a token.
#[derive(PartialEq, Debug)]
pub enum TokenType {
    Add,
    Sub,
    Mul,
    Div,
    Increment,
    Decrement,
    AddAssign,
    SubAssign,
    MulAssign,
    DivAssign,
    Eq,
    Ne,
    Lt,
    Gt,
    Le,
    Ge,
    And,
    Or,
    BitAnd,
    BitOr,
    BitXor,
    BitNot,
    ShiftLeft,
    ShiftRight,
    BitAndAssign,
    BitOrAssign,
    BitXorAssign,
    ShiftLeftAssign,
    ShiftRightAssign,
    Ident,
    Number,
    Reference,
    LeftParen,
    RightParen,
    RightCurlyBrace,
    LeftCurlyBrace,
    LeftSquareBrace,
    RightSquareBrace,
    Conma,
    Equals,
    AtSign,
    Semi,
    Colon,
    DoubleQuote,
    SingleQuote,
    SingleComment(String, (usize, usize)),
    MultiComment(Vec<String>, (usize, usize)),
    RightArrow,
    Eof,
    Range,
    ScopeResolution,
}

/// The mathematical value of a token kind: the comment payloads become
/// character sequences, every other kind stands for itself.
pub enum TokenKind {
    Plain(TokenType),
    SingleComment(Seq<char>, (usize, usize)),
    MultiComment(Seq<Seq<char>>, (usize, usize)),
}

/// The character sequences of a list of strings.
pub open spec fn strings_view(v: Seq<String>) -> Seq<Seq<char>> {
    v.map_values(|s: String| s@)
}

impl View for TokenType {
    type V = TokenKind;

    open spec fn view(&self) -> TokenKind {
        match self {
            TokenType::SingleComment(s, p) => TokenKind::SingleComment(s@, *p),
            TokenType::MultiComment(v, p) => TokenKind::MultiComment(strings_view(v@), *p),
            _ => TokenKind::Plain(*self),
        }
    }
}

/// A copy of a list of strings.
pub fn clone_strings(v: &Vec<String>) -> (r: Vec<String>)
    ensures
        strings_view(r@) == strings_view(v@),
{
    let mut r: Vec<String> = Vec::new();
    let mut i: usize = 0;
    while i < v.len()
        invariant
            i <= v.len(),
            r.len() == i,
            forall|j: int| 0 <= j < i ==> r@[j]@ == v@[j]@,
        decreases v.len() - i,
    {
        r.push(v[i].clone());
        i += 1;
    }
    assert(strings_view(r@) =~= strings_view(v@));
    r
}

impl Clone for TokenType {
    fn clone(&self) -> (r: Self)
        ensures
            r@ == self@,
    {
        match self {
            TokenType::Add => TokenType::Add,
            TokenType::Sub => TokenType::Sub,
            TokenType::Mul => TokenType::Mul,
            TokenType::Div => TokenType::Div,
            TokenType::Increment => TokenType::Increment,
            TokenType::Decrement => TokenType::Decrement,
            TokenType::AddAssign => TokenType::AddAssign,
            TokenType::SubAssign => TokenType::SubAssign,
            TokenType::MulAssign => TokenType::MulAssign,
            TokenType::DivAssign => TokenType::DivAssign,
            TokenType::Eq => TokenType::Eq,
            TokenType::Ne => TokenType::Ne,
            TokenType::Lt => TokenType::Lt,
            TokenType::Gt => TokenType::Gt,
            TokenType::Le => TokenType::Le,
            TokenType::Ge => TokenType::Ge,
            TokenType::And => TokenType::And,
            TokenType::Or => TokenType::Or,
            TokenType::BitAnd => TokenType::BitAnd,
            TokenType::BitOr => TokenType::BitOr,
            TokenType::BitXor => TokenType::BitXor,
            TokenType::BitNot => TokenType::BitNot,
            TokenType::ShiftLeft => TokenType::ShiftLeft,
            TokenType::ShiftRight => TokenType::ShiftRight,
            TokenType::BitAndAssign => TokenType::BitAndAssign,
            TokenType::BitOrAssign => TokenType::BitOrAssign,
            TokenType::BitXorAssign => TokenType::BitXorAssign,
            TokenType::ShiftLeftAssign => TokenType::ShiftLeftAssign,
            TokenType::ShiftRightAssign => TokenType::ShiftRightAssign,
            TokenType::Ident => TokenType::Ident,
            TokenType::Number => TokenType::Number,
            TokenType::Reference => TokenType::Reference,
            TokenType::LeftParen => TokenType::LeftParen,
            TokenType::RightParen => TokenType::RightParen,
            TokenType::RightCurlyBrace => TokenType::RightCurlyBrace,
            TokenType::LeftCurlyBrace => TokenType::LeftCurlyBrace,
            TokenType::LeftSquareBrace => TokenType::LeftSquareBrace,
            TokenType::RightSquareBrace => TokenType::RightSquareBrace,
            TokenType::Conma => TokenType::Conma,
            TokenType::Equals => TokenType::Equals,
            TokenType::AtSign => TokenType::AtSign,
            TokenType::Semi => TokenType::Semi,
            TokenType::Colon => TokenType::Colon,
            TokenType::DoubleQuote => TokenType::DoubleQuote,
            TokenType::SingleQuote => TokenType::SingleQuote,
            TokenType::SingleComment(s, p) => TokenType::SingleComment(s.clone(), *p),
            TokenType::MultiComment(v, p) => TokenType::MultiComment(clone_strings(v), *p),
            TokenType::RightArrow => TokenType::RightArrow,
            TokenType::Eof => TokenType::Eof,
            TokenType::Range => TokenType::Range,
            TokenType::ScopeResolution => TokenType::ScopeResolution,
        }
    }
}


/// The name of a kind of token, as `Debug` writes it.
pub open spec fn kind_name(t: TokenType) -> Seq<char> {
    match t {
        TokenType::Add => "Add"@,
        TokenType::Sub => "Sub"@,
        TokenType::Mul => "Mul"@,
        TokenType::Div => "Div"@,
        TokenType::Increment => "Increment"@,
        TokenType::Decrement => "Decrement"@,
        TokenType::AddAssign => "AddAssign"@,
        TokenType::SubAssign => "SubAssign"@,
        TokenType::MulAssign => "MulAssign"@,
        TokenType::DivAssign => "DivAssign"@,
        TokenType::Eq => "Eq"@,
        TokenType::Ne => "Ne"@,
        TokenType::Lt => "Lt"@,
        TokenType::Gt => "Gt"@,
        TokenType::Le => "Le"@,
        TokenType::Ge => "Ge"@,
        TokenType::And => "And"@,
        TokenType::Or => "Or"@,
        TokenType::BitAnd => "BitAnd"@,
        TokenType::BitOr => "BitOr"@,
        TokenType::BitXor => "BitXor"@,
        TokenType::BitNot => "BitNot"@,
        TokenType::ShiftLeft => "ShiftLeft"@,
        TokenType::ShiftRight => "ShiftRight"@,
        TokenType::BitAndAssign => "BitAndAssign"@,
        TokenType::BitOrAssign => "BitOrAssign"@,
        TokenType::BitXorAssign => "BitXorAssign"@,
        TokenType::ShiftLeftAssign => "ShiftLeftAssign"@,
        TokenType::ShiftRightAssign => "ShiftRightAssign"@,
        TokenType::Ident => "Ident"@,
        TokenType::Number => "Number"@,
        TokenType::Reference => "Reference"@,
        TokenType::LeftParen => "LeftParen"@,
        TokenType::RightParen => "RightParen"@,
        TokenType::RightCurlyBrace => "RightCurlyBrace"@,
        TokenType::LeftCurlyBrace => "LeftCurlyBrace"@,
        TokenType::LeftSquareBrace => "LeftSquareBrace"@,
        TokenType::RightSquareBrace => "RightSquareBrace"@,
        TokenType::Conma => "Conma"@,
        TokenType::Equals => "Equals"@,
        TokenType::AtSign => "AtSign"@,
        TokenType::Semi => "Semi"@,
        TokenType::Colon => "Colon"@,
        TokenType::DoubleQuote => "DoubleQuote"@,
        TokenType::SingleQuote => "SingleQuote"@,
        TokenType::RightArrow => "RightArrow"@,
        TokenType::Eof => "Eof"@,
        TokenType::Range => "Range"@,
        TokenType::ScopeResolution => "ScopeResolution"@,
        TokenType::SingleComment(_, _) => "SingleComment"@,
        TokenType::MultiComment(_, _) => "MultiComment"@,
    }
}

/// A pair of numbers as `Debug` writes it: `(a, b)`.
pub open spec fn pair_debug(p: (usize, usize)) -> Seq<char> {
    "("@ + decimal(p.0 as nat) + ", "@ + decimal(p.1 as nat) + ")"@
}

/// The strings `v[0..n]`, each as `Debug` writes it, separated by `, `.
pub open spec fn items_debug(v: Seq<Seq<char>>, n: int) -> Seq<char>
    decreases n,
{
    if n <= 0 {
        Seq::empty()
    } else if n == 1 {
        str_debug(v[0])
    } else {
        items_debug(v, n - 1) + ", "@ + str_debug(v[n - 1])
    }
}

/// A token kind as `Debug` writes it.
pub open spec fn kind_debug(k: TokenKind) -> Seq<char> {
    match k {
        TokenKind::Plain(t) => kind_name(t),
        TokenKind::SingleComment(s, p) => "SingleComment("@ + str_debug(s) + ", "@ + pair_debug(p) + ")"@,
        TokenKind::MultiComment(v, p) => "MultiComment(["@ + items_debug(v, v.len() as int) + "], "@
            + pair_debug(p) + ")"@,
    }
}

fn kind_name_text(t: &TokenType) -> (r: &'static str)
    ensures
        r@ == kind_name(*t),
{
    match t {
        TokenType::Add => "Add",
        TokenType::Sub => "Sub",
        TokenType::Mul => "Mul",
        TokenType::Div => "Div",
        TokenType::Increment => "Increment",
        TokenType::Decrement => "Decrement",
        TokenType::AddAssign => "AddAssign",
        TokenType::SubAssign => "SubAssign",
        TokenType::MulAssign => "MulAssign",
        TokenType::DivAssign => "DivAssign",
        TokenType::Eq => "Eq",
        TokenType::Ne => "Ne",
        TokenType::Lt => "Lt",
        TokenType::Gt => "Gt",
        TokenType::Le => "Le",
        TokenType::Ge => "Ge",
        TokenType::And => "And",
        TokenType::Or => "Or",
        TokenType::BitAnd => "BitAnd",
        TokenType::BitOr => "BitOr",
        TokenType::BitXor => "BitXor",
        TokenType::BitNot => "BitNot",
        TokenType::ShiftLeft => "ShiftLeft",
        TokenType::ShiftRight => "ShiftRight",
        TokenType::BitAndAssign => "BitAndAssign",
        TokenType::BitOrAssign => "BitOrAssign",
        TokenType::BitXorAssign => "BitXorAssign",
        TokenType::ShiftLeftAssign => "ShiftLeftAssign",
        TokenType::ShiftRightAssign => "ShiftRightAssign",
        TokenType::Ident => "Ident",
        TokenType::Number => "Number",
        TokenType::Reference => "Reference",
        TokenType::LeftParen => "LeftParen",
        TokenType::RightParen => "RightParen",
        TokenType::RightCurlyBrace => "RightCurlyBrace",
        TokenType::LeftCurlyBrace => "LeftCurlyBrace",
        TokenType::LeftSquareBrace => "LeftSquareBrace",
        TokenType::RightSquareBrace => "RightSquareBrace",
        TokenType::Conma => "Conma",
        TokenType::Equals => "Equals",
        TokenType::AtSign => "AtSign",
        TokenType::Semi => "Semi",
        TokenType::Colon => "Colon",
        TokenType::DoubleQuote => "DoubleQuote",
        TokenType::SingleQuote => "SingleQuote",
        TokenType::RightArrow => "RightArrow",
        TokenType::Eof => "Eof",
        TokenType::Range => "Range",
        TokenType::ScopeResolution => "ScopeResolution",
        TokenType::SingleComment(_, _) => "SingleComment",
        TokenType::MultiComment(_, _) => "MultiComment",
    }
}

fn pair_text(p: (usize, usize)) -> (r: String)
    ensures
        r@ == pair_debug(p),
{
    let mut r = String::from_str("(");
    r.append(usize_to_decimal(p.0).as_str());
    r.append(", ");
    r.append(usize_to_decimal(p.1).as_str());
    r.append(")");
    r
}

fn items_text(v: &Vec<String>) -> (r: String)
    ensures
        r@ == items_debug(strings_view(v@), v.len() as int),
{
    let ghost w = strings_view(v@);
    let mut r = String::new();
    let mut k: usize = 0;
    while k < v.len()
        invariant
            k <= v.len(),
            w == strings_view(v@),
            r@ == items_debug(w, k as int),
        decreases v.len() - k,
    {
        if k > 0 {
            r.append(", ");
        }
        r.append(debug_str(v[k].as_str()).as_str());
        k += 1;
    }
    r
}

impl TokenType {
    /// The kind as `Debug` writes it.
    pub fn debug_text(&self) -> (r: String)
        ensures
            r@ == kind_debug(self@),
    {
        match self {
            TokenType::SingleComment(s, p) => {
                let mut r = String::from_str("SingleComment(");
                r.append(debug_str(s.as_str()).as_str());
                r.append(", ");
                r.append(pair_text(*p).as_str());
                r.append(")");
                r
            },
            TokenType::MultiComment(v, p) => {
                let mut r = String::from_str("MultiComment([");
                r.append(items_text(v).as_str());
                r.append("], ");
                r.append(pair_text(*p).as_str());
                r.append(")");
                r
            },
            _ => String::from_str(kind_name_text(self)),
        }
    }
}

/// A literal value.  A floating-point literal is kept as the text it was written with.
#[derive(Debug, PartialEq)]
pub enum DataType {
    Int(i64),
    Float(String),
    String(String),
    Bool(bool),
    Unit(()),
}

/// Control flow.
#[derive(Debug, PartialEq)]
pub enum ControlFlow {
    If(Box<Node>, Box<Node>),
    Else(Box<Node>),
    ElseIf(Box<Node>, Box<Node>),
    Loop(Box<Node>),
    While(Box<Node>, Box<Node>),
    For(Box<Node>, Box<Node>, Box<Node>),
    Return(Box<Node>),
    Break,
    Continue,
}

/// Operators.
#[derive(Debug, PartialEq)]
pub enum Operator {
    Eq(Box<Node>, Box<Node>),
    Ne(Box<Node>, Box<Node>),
    Lt(Box<Node>, Box<Node>),
    Gt(Box<Node>, Box<Node>),
    Le(Box<Node>, Box<Node>),
    Ge(Box<Node>, Box<Node>),
    And(Box<Node>, Box<Node>),
    Or(Box<Node>, Box<Node>),
    Add(Box<Node>, Box<Node>),
    Sub(Box<Node>, Box<Node>),
    Mul(Box<Node>, Box<Node>),
    Div(Box<Node>, Box<Node>),
    Increment(Box<Node>),
    Decrement(Box<Node>),
    AddAssign(Box<Node>, Box<Node>),
    SubAssign(Box<Node>, Box<Node>),
    MulAssign(Box<Node>, Box<Node>),
    DivAssign(Box<Node>, Box<Node>),
    BitAnd(Box<Node>, Box<Node>),
    BitOr(Box<Node>, Box<Node>),
    BitXor(Box<Node>, Box<Node>),
    BitNot(Box<Node>),
    ShiftLeft(Box<Node>, Box<Node>),
    ShiftRight(Box<Node>, Box<Node>),
    BitAndAssign(Box<Node>, Box<Node>),
    BitOrAssign(Box<Node>, Box<Node>),
    BitXorAssign(Box<Node>, Box<Node>),
    ShiftLeftAssign(Box<Node>, Box<Node>),
    ShiftRightAssign(Box<Node>, Box<Node>),
    Range(Box<Node>, Box<Node>),
}

/// Declarations.
#[derive(Debug, PartialEq)]
pub enum Declaration {
    Variable(Box<Node>, Box<Node>, Box<Node>, bool, bool, bool),
    Struct(String, Vec<Box<Node>>),
    Impl(String, Vec<Box<Node>>),
    Function(String, Vec<(Box<Node>, String)>, Box<Node>, Box<Node>, bool),
    CallBackFunction(String, Vec<(Box<Node>, String)>, Box<Node>, Box<Node>, bool),
    Type(Box<Node>, Box<Node>),
    Array(Box<Node>, Vec<Box<Node>>),
}

/// What a node of the syntax tree holds.
#[derive(Debug, PartialEq)]
pub enum NodeValue {
    ControlFlow(ControlFlow),
    Operator(Operator),
    DataType(DataType),
    Declaration(Declaration),
    Assign(Box<Node>, Box<Node>, Box<Node>),
    Block(Vec<Box<Node>>),
    Variable(Box<Node>, String),
    Call(String, Vec<Node>, bool),
    MultiComment(Vec<String>, (usize, usize)),
    SingleComment(String, (usize, usize)),
    Include(String),
    Mod(String),
    ModDeclaration(String, Vec<Box<Node>>),
    Use(String, Box<Node>),
    EndStatement,
    Null,
    Unknown,
}

/// A node of the syntax tree: a statement may be followed by the next one.
#[derive(Debug, PartialEq)]
pub struct Node {
    pub value: NodeValue,
    pub next: Option<Box<Node>>,
    pub line: usize,
    pub column: usize,
    pub is_statement: bool,
}

impl Default for NodeValue {
    fn default() -> (r: Self)
        ensures
            r.sv() == SNodeValue::Null,
    {
        NodeValue::Null
    }
}

impl Default for Node {
    fn default() -> (r: Self)
        ensures
            r.sv() == (SNode { value: SNodeValue::Null, next: None, line: 0, column: 0, is_statement: false }),
    {
        proof {
            reveal_with_fuel(Node::sv, 2);
        }
        Node { value: NodeValue::Null, next: None, line: 0, column: 0, is_statement: false }
    }
}

/// The node `n` and those chained after it, in order.
pub open spec fn chain(n: SNode) -> Seq<SNode>
    decreases n,
{
    match n.next {
        Some(m) => seq![n] + chain(*m),
        None => seq![n],
    }
}

impl Node {
    /// A node that is not a statement, with `next` after it.
    pub fn new(value: NodeValue, next: Option<Box<Node>>, line: usize, column: usize) -> (r: Self)
        ensures
            r.sv() == (SNode {
                value: value.sv(),
                next: match next {
                    Some(b) => Some(Box::new(b.sv())),
                    None => None,
                },
                line,
                column,
                is_statement: false,
            }),
    {
        Node { value, next, line, column, is_statement: false }
    }

    /// Whether a node follows this one.
    pub fn is_next(&self) -> (r: bool)
        ensures
            r == (self.sv().next is Some),
    {
        self.next.is_some()
    }

    /// This node and those chained after it, in order.
    pub fn iter(&self) -> (r: Vec<&Node>)
        ensures
            r@.map_values(|n: &Node| n.sv()) == chain(self.sv()),
    {
        let mut r: Vec<&Node> = Vec::new();
        let mut cur: &Node = self;
        loop
            invariant
                r@.map_values(|n: &Node| n.sv()) + chain(cur.sv()) == chain(self.sv()),
            decreases chain(cur.sv()).len(),
        {
            let ghost before = r@.map_values(|n: &Node| n.sv());
            r.push(cur);
            assert(r@.map_values(|n: &Node| n.sv()) =~= before.push(cur.sv()));
            match &cur.next {
                Some(b) => {
                    proof {
                        assert(chain(cur.sv()) == seq![cur.sv()] + chain(b.sv()));
                        assert(r@.map_values(|n: &Node| n.sv()) + chain(b.sv()) =~= chain(self.sv()));
                    }
                    cur = b;
                },
                None => {
                    assert(r@.map_values(|n: &Node| n.sv()) =~= chain(self.sv()));
                    return r;
                },
            }
        }
    }

    /// What the node holds.
    pub fn value(&self) -> (r: &NodeValue)
        ensures
            r.sv() == self.sv().value,
    {
        &self.value
    }

    /// The node after this one.
    pub fn next(&self) -> (r: &Option<Box<Node>>)
        ensures
            match *r {
                Some(b) => self.sv().next == Some(Box::new(b.sv())),
                None => self.sv().next is None,
            },
    {
        &self.next
    }

    /// Puts `next` after this node.
    pub fn set_next(&mut self, next: Option<Box<Node>>)
        ensures
            final(self).sv() == (SNode {
                next: match next {
                    Some(b) => Some(Box::new(b.sv())),
                    None => None,
                },
                ..old(self).sv()
            }),
    {
        self.next = next;
    }

    /// The line where the node ends.
    pub fn line(&self) -> (r: usize)
        ensures
            r == self.sv().line,
    {
        self.line
    }

    /// The column where the node ends.
    pub fn column(&self) -> (r: usize)
        ensures
            r == self.sv().column,
    {
        self.column
    }

    /// Whether the node ends a statement.
    pub fn is_statement(&self) -> (r: bool)
        ensures
            r == self.sv().is_statement,
    {
        self.is_statement
    }
}

/// The mathematical value of a literal.
pub enum SDataType {
    Int(i64),
    Float(Seq<char>),
    String(Seq<char>),
    Bool(bool),
    Unit,
}

/// The mathematical value of control flow.
pub enum SControlFlow {
    If(Box<SNode>, Box<SNode>),
    Else(Box<SNode>),
    ElseIf(Box<SNode>, Box<SNode>),
    Loop(Box<SNode>),
    While(Box<SNode>, Box<SNode>),
    For(Box<SNode>, Box<SNode>, Box<SNode>),
    Return(Box<SNode>),
    Break,
    Continue,
}

/// The kinds of operators with two operands.
#[derive(PartialEq, Eq, Structural, Clone, Copy, Debug)]
pub enum BinOp {
    Eq, Ne, Lt, Gt, Le, Ge, And, Or, Add, Sub, Mul, Div, AddAssign, SubAssign, MulAssign,
    DivAssign, BitAnd, BitOr, BitXor, ShiftLeft, ShiftRight, BitAndAssign, BitOrAssign,
    BitXorAssign, ShiftLeftAssign, ShiftRightAssign, Range,
}

/// The kinds of operators with one operand.
#[derive(PartialEq, Eq, Structural, Clone, Copy, Debug)]
pub enum UnOp {
    Increment, Decrement, BitNot,
}

/// The mathematical value of an operator.
pub enum SOperator {
    Binary(BinOp, Box<SNode>, Box<SNode>),
    Unary(UnOp, Box<SNode>),
}

/// The mathematical value of a declaration.
pub enum SDeclaration {
    Variable(Box<SNode>, Box<SNode>, Box<SNode>, bool, bool, bool),
    Struct(Seq<char>, Seq<SNode>),
    Impl(Seq<char>, Seq<SNode>),
    Function(Seq<char>, Seq<(SNode, Seq<char>)>, Box<SNode>, Box<SNode>, bool),
    CallBackFunction(Seq<char>, Seq<(SNode, Seq<char>)>, Box<SNode>, Box<SNode>, bool),
    Type(Box<SNode>, Box<SNode>),
    Array(Box<SNode>, Seq<SNode>),
}

/// The mathematical value of what a node holds.
pub enum SNodeValue {
    ControlFlow(SControlFlow),
    Operator(SOperator),
    DataType(SDataType),
    Declaration(SDeclaration),
    Assign(Box<SNode>, Box<SNode>, Box<SNode>),
    Block(Seq<SNode>),
    Variable(Box<SNode>, Seq<char>),
    Call(Seq<char>, Seq<SNode>, bool),
    MultiComment(Seq<Seq<char>>, (usize, usize)),
    SingleComment(Seq<char>, (usize, usize)),
    Include(Seq<char>),
    Mod(Seq<char>),
    ModDeclaration(Seq<char>, Seq<SNode>),
    Use(Seq<char>, Box<SNode>),
    EndStatement,
    Null,
    Unknown,
}

/// The mathematical value of a node.
pub struct SNode {
    pub value: SNodeValue,
    pub next: Option<Box<SNode>>,
    pub line: usize,
    pub column: usize,
    pub is_statement: bool,
}

impl Node {
    /// The mathematical value of a node.
    pub open spec fn sv(self) -> SNode
        decreases self, 0int,
    {
        SNode {
            value: self.value.sv(),
            next: match self.next {
                Some(n) => Some(Box::new(n.sv())),
                None => None,
            },
            line: self.line,
            column: self.column,
            is_statement: self.is_statement,
        }
    }
}

/// The values of boxed nodes `bs[0..n]`.
pub open spec fn boxes_sv(bs: Seq<Box<Node>>, n: int) -> Seq<SNode>
    decreases bs, n,
{
    if n <= 0 || n > bs.len() {
        Seq::empty()
    } else {
        boxes_sv(bs, n - 1).push(bs[n - 1].sv())
    }
}

/// The values of nodes `ns[0..n]`.
pub open spec fn nodes_sv(ns: Seq<Node>, n: int) -> Seq<SNode>
    decreases ns, n,
{
    if n <= 0 || n > ns.len() {
        Seq::empty()
    } else {
        nodes_sv(ns, n - 1).push(ns[n - 1].sv())
    }
}

/// The values of typed arguments `args[0..n]`.
pub open spec fn args_sv(args: Seq<(Box<Node>, String)>, n: int) -> Seq<(SNode, Seq<char>)>
    decreases args, n,
{
    if n <= 0 || n > args.len() {
        Seq::empty()
    } else {
        args_sv(args, n - 1).push((args[n - 1].0.sv(), args[n - 1].1@))
    }
}

/// `boxes_sv` reads only the first `n` nodes.
pub proof fn lemma_boxes_sv_prefix(a: Seq<Box<Node>>, b: Seq<Box<Node>>, n: int)
    requires
        0 <= n <= a.len(),
        n <= b.len(),
        forall|k: int| 0 <= k < n ==> a[k] == b[k],
    ensures
        boxes_sv(a, n) == boxes_sv(b, n),
    decreases n,
{
    if n > 0 {
        lemma_boxes_sv_prefix(a, b, n - 1);
    }
}

/// The values of boxed nodes after a push.
pub proof fn lemma_boxes_sv_push(a: Seq<Box<Node>>, x: Box<Node>)
    ensures
        boxes_sv(a.push(x), a.len() + 1int) == boxes_sv(a, a.len() as int).push(x.sv()),
{
    lemma_boxes_sv_prefix(a, a.push(x), a.len() as int);
}

/// `nodes_sv` reads only the first `n` nodes.
pub proof fn lemma_nodes_sv_prefix(a: Seq<Node>, b: Seq<Node>, n: int)
    requires
        0 <= n <= a.len(),
        n <= b.len(),
        forall|k: int| 0 <= k < n ==> a[k] == b[k],
    ensures
        nodes_sv(a, n) == nodes_sv(b, n),
    decreases n,
{
    if n > 0 {
        lemma_nodes_sv_prefix(a, b, n - 1);
    }
}

/// The values of nodes after a push.
pub proof fn lemma_nodes_sv_push(a: Seq<Node>, x: Node)
    ensures
        nodes_sv(a.push(x), a.len() + 1int) == nodes_sv(a, a.len() as int).push(x.sv()),
{
    lemma_nodes_sv_prefix(a, a.push(x), a.len() as int);
}

/// `args_sv` reads only the first `n` arguments.
pub proof fn lemma_args_sv_prefix(a: Seq<(Box<Node>, String)>, b: Seq<(Box<Node>, String)>, n: int)
    requires
        0 <= n <= a.len(),
        n <= b.len(),
        forall|k: int| 0 <= k < n ==> a[k] == b[k],
    ensures
        args_sv(a, n) == args_sv(b, n),
    decreases n,
{
    if n > 0 {
        lemma_args_sv_prefix(a, b, n - 1);
    }
}

/// The values of typed arguments after a push.
pub proof fn lemma_args_sv_push(a: Seq<(Box<Node>, String)>, x: (Box<Node>, String))
    ensures
        args_sv(a.push(x), a.len() + 1int) == args_sv(a, a.len() as int).push((x.0.sv(), x.1@)),
{
    lemma_args_sv_prefix(a, a.push(x), a.len() as int);
}

impl DataType {
    /// The mathematical value of a literal.
    pub open spec fn sv(self) -> SDataType {
        match self {
            DataType::Int(i) => SDataType::Int(i),
            DataType::Float(s) => SDataType::Float(s@),
            DataType::String(s) => SDataType::String(s@),
            DataType::Bool(b) => SDataType::Bool(b),
            DataType::Unit(_) => SDataType::Unit,
        }
    }
}

impl ControlFlow {
    /// The mathematical value of control flow.
    pub open spec fn sv(self) -> SControlFlow
        decreases self, 0int,
    {
        match self {
            ControlFlow::If(a, b) => SControlFlow::If(Box::new(a.sv()), Box::new(b.sv())),
            ControlFlow::Else(a) => SControlFlow::Else(Box::new(a.sv())),
            ControlFlow::ElseIf(a, b) => SControlFlow::ElseIf(Box::new(a.sv()), Box::new(b.sv())),
            ControlFlow::Loop(a) => SControlFlow::Loop(Box::new(a.sv())),
            ControlFlow::While(a, b) => SControlFlow::While(Box::new(a.sv()), Box::new(b.sv())),
            ControlFlow::For(a, b, c) => SControlFlow::For(Box::new(a.sv()), Box::new(b.sv()), Box::new(c.sv())),
            ControlFlow::Return(a) => SControlFlow::Return(Box::new(a.sv())),
            ControlFlow::Break => SControlFlow::Break,
            ControlFlow::Continue => SControlFlow::Continue,
        }
    }
}

impl Operator {
    /// The mathematical value of an operator.
    pub open spec fn sv(self) -> SOperator
        decreases self, 0int,
    {
        match self {
            Operator::Eq(a, b) => SOperator::Binary(BinOp::Eq, Box::new(a.sv()), Box::new(b.sv())),
            Operator::Ne(a, b) => SOperator::Binary(BinOp::Ne, Box::new(a.sv()), Box::new(b.sv())),
            Operator::Lt(a, b) => SOperator::Binary(BinOp::Lt, Box::new(a.sv()), Box::new(b.sv())),
            Operator::Gt(a, b) => SOperator::Binary(BinOp::Gt, Box::new(a.sv()), Box::new(b.sv())),
            Operator::Le(a, b) => SOperator::Binary(BinOp::Le, Box::new(a.sv()), Box::new(b.sv())),
            Operator::Ge(a, b) => SOperator::Binary(BinOp::Ge, Box::new(a.sv()), Box::new(b.sv())),
            Operator::And(a, b) => SOperator::Binary(BinOp::And, Box::new(a.sv()), Box::new(b.sv())),
            Operator::Or(a, b) => SOperator::Binary(BinOp::Or, Box::new(a.sv()), Box::new(b.sv())),
            Operator::Add(a, b) => SOperator::Binary(BinOp::Add, Box::new(a.sv()), Box::new(b.sv())),
            Operator::Sub(a, b) => SOperator::Binary(BinOp::Sub, Box::new(a.sv()), Box::new(b.sv())),
            Operator::Mul(a, b) => SOperator::Binary(BinOp::Mul, Box::new(a.sv()), Box::new(b.sv())),
            Operator::Div(a, b) => SOperator::Binary(BinOp::Div, Box::new(a.sv()), Box::new(b.sv())),
            Operator::Increment(a) => SOperator::Unary(UnOp::Increment, Box::new(a.sv())),
            Operator::Decrement(a) => SOperator::Unary(UnOp::Decrement, Box::new(a.sv())),
            Operator::AddAssign(a, b) => SOperator::Binary(BinOp::AddAssign, Box::new(a.sv()), Box::new(b.sv())),
            Operator::SubAssign(a, b) => SOperator::Binary(BinOp::SubAssign, Box::new(a.sv()), Box::new(b.sv())),
            Operator::MulAssign(a, b) => SOperator::Binary(BinOp::MulAssign, Box::new(a.sv()), Box::new(b.sv())),
            Operator::DivAssign(a, b) => SOperator::Binary(BinOp::DivAssign, Box::new(a.sv()), Box::new(b.sv())),
            Operator::BitAnd(a, b) => SOperator::Binary(BinOp::BitAnd, Box::new(a.sv()), Box::new(b.sv())),
            Operator::BitOr(a, b) => SOperator::Binary(BinOp::BitOr, Box::new(a.sv()), Box::new(b.sv())),
            Operator::BitXor(a, b) => SOperator::Binary(BinOp::BitXor, Box::new(a.sv()), Box::new(b.sv())),
            Operator::BitNot(a) => SOperator::Unary(UnOp::BitNot, Box::new(a.sv())),
            Operator::ShiftLeft(a, b) => SOperator::Binary(BinOp::ShiftLeft, Box::new(a.sv()), Box::new(b.sv())),
            Operator::ShiftRight(a, b) => SOperator::Binary(BinOp::ShiftRight, Box::new(a.sv()), Box::new(b.sv())),
            Operator::BitAndAssign(a, b) => SOperator::Binary(BinOp::BitAndAssign, Box::new(a.sv()), Box::new(b.sv())),
            Operator::BitOrAssign(a, b) => SOperator::Binary(BinOp::BitOrAssign, Box::new(a.sv()), Box::new(b.sv())),
            Operator::BitXorAssign(a, b) => SOperator::Binary(BinOp::BitXorAssign, Box::new(a.sv()), Box::new(b.sv())),
            Operator::ShiftLeftAssign(a, b) => SOperator::Binary(BinOp::ShiftLeftAssign, Box::new(a.sv()), Box::new(b.sv())),
            Operator::ShiftRightAssign(a, b) => SOperator::Binary(BinOp::ShiftRightAssign, Box::new(a.sv()), Box::new(b.sv())),
            Operator::Range(a, b) => SOperator::Binary(BinOp::Range, Box::new(a.sv()), Box::new(b.sv())),
        }
    }
}

impl Declaration {
    /// The mathematical value of a declaration.
    pub open spec fn sv(self) -> SDeclaration
        decreases self, 0int,
    {
        match self {
            Declaration::Variable(a, b, c, x, y, z) => SDeclaration::Variable(Box::new(a.sv()), Box::new(b.sv()), Box::new(c.sv()), x, y, z),
            Declaration::Struct(n, v) => SDeclaration::Struct(n@, boxes_sv(v@, v@.len() as int)),
            Declaration::Impl(n, v) => SDeclaration::Impl(n@, boxes_sv(v@, v@.len() as int)),
            Declaration::Function(n, args, b, r, s) => SDeclaration::Function(n@, args_sv(args@, args@.len() as int), Box::new(b.sv()), Box::new(r.sv()), s),
            Declaration::CallBackFunction(n, args, b, r, s) => SDeclaration::CallBackFunction(n@, args_sv(args@, args@.len() as int), Box::new(b.sv()), Box::new(r.sv()), s),
            Declaration::Type(a, b) => SDeclaration::Type(Box::new(a.sv()), Box::new(b.sv())),
            Declaration::Array(a, v) => SDeclaration::Array(Box::new(a.sv()), boxes_sv(v@, v@.len() as int)),
        }
    }
}

impl NodeValue {
    /// The mathematical value of what a node holds.
    pub open spec fn sv(self) -> SNodeValue
        decreases self, 0int,
    {
        match self {
            NodeValue::ControlFlow(c) => SNodeValue::ControlFlow(c.sv()),
            NodeValue::Operator(o) => SNodeValue::Operator(o.sv()),
            NodeValue::DataType(d) => SNodeValue::DataType(d.sv()),
            NodeValue::Declaration(d) => SNodeValue::Declaration(d.sv()),
            NodeValue::Assign(a, b, c) => SNodeValue::Assign(Box::new(a.sv()), Box::new(b.sv()), Box::new(c.sv())),
            NodeValue::Block(v) => SNodeValue::Block(boxes_sv(v@, v@.len() as int)),
            NodeValue::Variable(a, n) => SNodeValue::Variable(Box::new(a.sv()), n@),
            NodeValue::Call(n, args, s) => SNodeValue::Call(n@, nodes_sv(args@, args@.len() as int), s),
            NodeValue::MultiComment(v, p) => SNodeValue::MultiComment(strings_view(v@), p),
            NodeValue::SingleComment(s, p) => SNodeValue::SingleComment(s@, p),
            NodeValue::Include(s) => SNodeValue::Include(s@),
            NodeValue::Mod(s) => SNodeValue::Mod(s@),
            NodeValue::ModDeclaration(s, v) => SNodeValue::ModDeclaration(s@, boxes_sv(v@, v@.len() as int)),
            NodeValue::Use(s, n) => SNodeValue::Use(s@, Box::new(n.sv())),
            NodeValue::EndStatement => SNodeValue::EndStatement,
            NodeValue::Null => SNodeValue::Null,
            NodeValue::Unknown => SNodeValue::Unknown,
        }
    }
}

} // verus!
