//! The interpreter's tables: local and global variables and declared types, and the
//! operations that read and change them.
use vstd::prelude::*;
use crate::decoder::values::{RtValue, Val, value_debug, int_text, i64_to_text, vals_sv, lemma_vals_sv_index};
use crate::scope_manager::{pairs_map, unique_names, lemma_pairs_map_index, lemma_pairs_map_absent, lemma_pairs_map_update};
use crate::text::{str_eq, chars_of};
use crate::types::{Node, SNode};

verus! {

/// A variable: its declared type name, the value the table holds for it, the address of
/// the memory cell that a read of it gives, and whether it may be assigned.  Variables that
/// share an address are references to one another.
pub struct Variable {
    pub data_type: String,
    pub value: RtValue,
    pub address: usize,
    pub is_mutable: bool,
}

/// The mathematical value of a variable.
pub struct SVar {
    pub data_type: Seq<char>,
    pub value: Val,
    pub address: usize,
    pub is_mutable: bool,
}

impl Variable {
    /// The mathematical value of a variable.
    pub open spec fn sv(self) -> SVar {
        SVar { data_type: self.data_type@, value: self.value.sv(), address: self.address, is_mutable: self.is_mutable }
    }
}

/// A memory cell: a value, or the raw integer that `++` and `--` store, which is no value a
/// read can give.
pub enum MemCell {
    Value(RtValue),
    Raw(i64),
}

/// The mathematical value of a memory cell.
pub enum Cell {
    Value(Val),
    Raw,
}

impl MemCell {
    /// The mathematical value of a memory cell.
    pub open spec fn sv(self) -> Cell {
        match self {
            MemCell::Value(v) => Cell::Value(v.sv()),
            MemCell::Raw(_) => Cell::Raw,
        }
    }
}

/// The memory a list of cells stands for.
pub open spec fn cells_view(cs: Seq<MemCell>) -> Seq<Cell> {
    cs.map_values(|c: MemCell| c.sv())
}

/// The caller's result of a piece of floating-point work: the value it gives, or a division
/// by zero.
pub enum FloatAnswer {
    Value(RtValue),
    DivisionByZero,
}

/// The mathematical value of a floating-point result.
pub enum SFloatAnswer {
    Value(Val),
    DivisionByZero,
}

impl FloatAnswer {
    /// The mathematical value of a floating-point result.
    pub open spec fn sv(self) -> SFloatAnswer {
        match self {
            FloatAnswer::Value(v) => SFloatAnswer::Value(v.sv()),
            FloatAnswer::DivisionByZero => SFloatAnswer::DivisionByZero,
        }
    }
}

/// The floating-point results a list of answers stands for.
pub open spec fn answers_view(a: Seq<FloatAnswer>) -> Seq<SFloatAnswer> {
    a.map_values(|x: FloatAnswer| x.sv())
}

/// The variables a list of named variables stands for.
pub open spec fn vars_map(ps: Seq<(String, Variable)>) -> Map<Seq<char>, SVar> {
    pairs_map(ps).map_values(|v: Variable| v.sv())
}

/// The types a list of named types stands for.
pub open spec fn types_map(ps: Seq<(String, String)>) -> Map<Seq<char>, Seq<char>> {
    pairs_map(ps).map_values(|t: String| t@)
}

/// A declared function: its parameters, each a name and a type name, and its body, a node
/// of the program.
pub struct FuncDef<'a> {
    pub params: Vec<(String, String)>,
    pub body: &'a Node,
}

/// The mathematical value of a declared function.
pub struct SFunc {
    pub params: Seq<(Seq<char>, Seq<char>)>,
    pub body: SNode,
}

/// The texts of a list of parameters.
pub open spec fn params_view(ps: Seq<(String, String)>) -> Seq<(Seq<char>, Seq<char>)> {
    ps.map_values(|p: (String, String)| (p.0@, p.1@))
}

impl<'a> FuncDef<'a> {
    /// The mathematical value of a declared function.
    pub open spec fn sv(self) -> SFunc {
        SFunc { params: params_view(self.params@), body: self.body.sv() }
    }
}

/// The functions a list of named functions stands for.
pub open spec fn funcs_map<'a>(ps: Seq<(String, FuncDef<'a>)>) -> Map<Seq<char>, SFunc> {
    pairs_map(ps).map_values(|f: FuncDef<'a>| f.sv())
}

/// The state of the interpreter: local variables, global variables, declared types,
/// declared functions, the entry function a program declared (`main` or `Main`), the memory
/// cells variables read from, and the results of floating-point work given by the caller,
/// of which the first `used` have been taken.
#[verifier::ext_equal]
pub struct DecoderView {
    pub local: Map<Seq<char>, SVar>,
    pub global: Map<Seq<char>, SVar>,
    pub types: Map<Seq<char>, Seq<char>>,
    pub funcs: Map<Seq<char>, SFunc>,
    pub entry: Option<Seq<char>>,
    pub memory: Seq<Cell>,
    pub answers: Seq<SFloatAnswer>,
    pub used: nat,
}

/// A step of evaluation: a value, an error message, an error message that belongs at a line
/// and column of the source, floating-point work that the caller carries out, a node whose
/// evaluation is not done here (`~`, includes, modules, `use`), or the end of the budget of
/// loop turns and calls.
pub enum SOutcome {
    Value(Val),
    Error(Seq<char>),
    Framed(Seq<char>, usize, usize),
    Float(SFloatWork),
    Unsupported,
    Exhausted,
}

/// Floating-point work: a conversion to `f32` (`true`) or `f64`, an arithmetic operation, or
/// a comparison.
pub enum SFloatWork {
    Convert(bool, Val),
    Arith(ArithOp, Val, Val),
    Compare(Relation, Val, Val),
}

/// The arithmetic operators of the language.
#[derive(PartialEq, Eq, Structural, Clone, Copy, Debug)]
pub enum ArithOp {
    Add,
    Sub,
    Mul,
    Div,
    AddAssign,
    SubAssign,
    MulAssign,
    DivAssign,
}

/// The relations a condition tests.
#[derive(PartialEq, Eq, Structural, Clone, Copy, Debug)]
pub enum Relation {
    Eq,
    Ne,
    Lt,
    Gt,
    Le,
    Ge,
}

/// Floating-point work for the caller.
pub enum FloatWork {
    Convert(bool, RtValue),
    Arith(ArithOp, RtValue, RtValue),
    Compare(Relation, RtValue, RtValue),
}

/// The result of a step of evaluation.
pub enum Outcome {
    Value(RtValue),
    Error(String),
    Framed(String, usize, usize),
    Float(FloatWork),
    Unsupported,
    Exhausted,
}

impl FloatWork {
    /// The mathematical value of floating-point work.
    pub open spec fn sv(self) -> SFloatWork {
        match self {
            FloatWork::Convert(b, v) => SFloatWork::Convert(b, v.sv()),
            FloatWork::Arith(op, l, r) => SFloatWork::Arith(op, l.sv(), r.sv()),
            FloatWork::Compare(rel, l, r) => SFloatWork::Compare(rel, l.sv(), r.sv()),
        }
    }
}

impl Outcome {
    /// The mathematical value of an outcome.
    pub open spec fn sv(self) -> SOutcome {
        match self {
            Outcome::Value(v) => SOutcome::Value(v.sv()),
            Outcome::Error(e) => SOutcome::Error(e@),
            Outcome::Framed(e, l, c) => SOutcome::Framed(e@, l, c),
            Outcome::Float(w) => SOutcome::Float(w.sv()),
            Outcome::Unsupported => SOutcome::Unsupported,
            Outcome::Exhausted => SOutcome::Exhausted,
        }
    }
}

/// The interpreter, for a program whose nodes live as long as `'a`.
pub struct Decoder<'a> {
    local_context: Vec<(String, Variable)>,
    global_context: Vec<(String, Variable)>,
    type_context: Vec<(String, String)>,
    functions: Vec<(String, FuncDef<'a>)>,
    entry: Option<String>,
    memory: Vec<MemCell>,
    answers: Vec<FloatAnswer>,
    used: usize,
}

impl<'a> View for Decoder<'a> {
    type V = DecoderView;

    closed spec fn view(&self) -> DecoderView {
        DecoderView {
            local: vars_map(self.local_context@),
            global: vars_map(self.global_context@),
            types: types_map(self.type_context@),
            funcs: funcs_map(self.functions@),
            entry: match self.entry {
                Some(e) => Some(e@),
                None => None,
            },
            memory: cells_view(self.memory@),
            answers: answers_view(self.answers@),
            used: self.used as nat,
        }
    }
}

/// The text `f32` (`true`) or `f64`.
pub open spec fn float_type_name(single: bool) -> Seq<char> {
    if single { seq!['f', '3', '2'] } else { seq!['f', '6', '4'] }
}

/// `'a' + s + 'b'` for two characters around a text.
pub open spec fn quoted(s: Seq<char>) -> Seq<char> {
    seq!['\''] + s + seq!['\'']
}

/// What checking `v` against the type named `t` gives, errors belonging at `line` and
/// `column`.
pub open spec fn check_type_spec(d: DecoderView, v: Val, t: Seq<char>, line: usize, column: usize) -> SOutcome {
    if !d.types.contains_key(t) {
        SOutcome::Framed("Type "@ + quoted(t) + " is not defined"@, line, column)
    } else if t == "unit"@ || t == "void"@ {
        SOutcome::Value(Val::Null)
    } else if t == "i32"@ {
        match v {
            Val::Int(n) => if -2147483648 <= n <= 2147483647 {
                SOutcome::Value(Val::Int(n))
            } else {
                SOutcome::Framed("Value out of range for i32: "@ + int_text(n as int), line, column)
            },
            _ => SOutcome::Framed("Type mismatch for i32: "@ + value_debug(v), line, column),
        }
    } else if t == "i64"@ {
        match v {
            Val::Int(n) => SOutcome::Value(Val::Int(n)),
            _ => SOutcome::Framed("Type mismatch for i64: "@ + value_debug(v), line, column),
        }
    } else if t == float_type_name(true) || t == float_type_name(false) {
        let single = t == float_type_name(true);
        match v {
            Val::Int(_) | Val::Float(_) => SOutcome::Float(SFloatWork::Convert(single, v)),
            _ => SOutcome::Framed("Type mismatch for "@ + t + ": "@ + value_debug(v), line, column),
        }
    } else {
        SOutcome::Value(v)
    }
}

/// An error at `line` and `column`.
pub open spec fn refused_at(o: SOutcome, line: usize, column: usize) -> bool {
    o matches SOutcome::Framed(_, l, c) && l == line && c == column
}

/// Checking an integer against the declared type `i32` accepts it, unchanged, exactly when it
/// lies between `i32::MIN` and `i32::MAX`; any other integer, and any value that is no
/// integer, is refused with an error at the given position.
pub proof fn law_i32_accepts_exactly_its_range(d: DecoderView, v: Val, line: usize, column: usize)
    requires
        d.types.contains_key("i32"@),
    ensures
        v matches Val::Int(n) && i32::MIN <= n <= i32::MAX
            ==> check_type_spec(d, v, "i32"@, line, column) == SOutcome::Value(v),
        !(v matches Val::Int(n) && i32::MIN <= n <= i32::MAX)
            ==> refused_at(check_type_spec(d, v, "i32"@, line, column), line, column),
{
    reveal_strlit("i32");
    reveal_strlit("unit");
    reveal_strlit("void");
}

/// Checking against the declared type `i64` accepts every integer unchanged and refuses
/// every other value with an error at the given position.
pub proof fn law_i64_accepts_every_integer(d: DecoderView, v: Val, line: usize, column: usize)
    requires
        d.types.contains_key("i64"@),
    ensures
        v is Int ==> check_type_spec(d, v, "i64"@, line, column) == SOutcome::Value(v),
        !(v is Int) ==> refused_at(check_type_spec(d, v, "i64"@, line, column), line, column),
{
    reveal_strlit("i64");
    reveal_strlit("i32");
    reveal_strlit("unit");
    reveal_strlit("void");
    assert("i64"@ != "i32"@) by {
        assert("i64"@[1] != "i32"@[1]);
    }
    assert("i64"@ != "unit"@) by {
        assert("i64"@[0] != "unit"@[0]);
    }
    assert("i64"@ != "void"@) by {
        assert("i64"@[0] != "void"@[0]);
    }
}

/// Checking against a declared `unit` or `void` gives `Null`; against a declared `f32` or
/// `f64`, a number becomes floating-point work for that type and any other value is refused.
pub proof fn law_unit_and_float_types(d: DecoderView, v: Val, line: usize, column: usize)
    ensures
        d.types.contains_key("unit"@) ==> check_type_spec(d, v, "unit"@, line, column) == SOutcome::Value(Val::Null),
        d.types.contains_key("void"@) ==> check_type_spec(d, v, "void"@, line, column) == SOutcome::Value(Val::Null),
        d.types.contains_key(seq!['f', '3', '2']) && (v is Int || v is Float)
            ==> check_type_spec(d, v, seq!['f', '3', '2'], line, column) == SOutcome::Float(SFloatWork::Convert(true, v)),
        d.types.contains_key(seq!['f', '6', '4']) && (v is Int || v is Float)
            ==> check_type_spec(d, v, seq!['f', '6', '4'], line, column) == SOutcome::Float(SFloatWork::Convert(false, v)),
        d.types.contains_key(seq!['f', '3', '2']) && !(v is Int || v is Float)
            ==> refused_at(check_type_spec(d, v, seq!['f', '3', '2'], line, column), line, column),
        d.types.contains_key(seq!['f', '6', '4']) && !(v is Int || v is Float)
            ==> refused_at(check_type_spec(d, v, seq!['f', '6', '4'], line, column), line, column),
{
    reveal_strlit("i64");
    reveal_strlit("i32");
    reveal_strlit("unit");
    reveal_strlit("void");
    assert(seq!['f', '3', '2'] != "i32"@) by { assert(seq!['f', '3', '2'][0] != "i32"@[0]); }
    assert(seq!['f', '3', '2'] != "i64"@) by { assert(seq!['f', '3', '2'][0] != "i64"@[0]); }
    assert(seq!['f', '3', '2'] != "unit"@) by { assert(seq!['f', '3', '2'][0] != "unit"@[0]); }
    assert(seq!['f', '3', '2'] != "void"@) by { assert(seq!['f', '3', '2'][0] != "void"@[0]); }
    assert(seq!['f', '6', '4'] != "i32"@) by { assert(seq!['f', '6', '4'][0] != "i32"@[0]); }
    assert(seq!['f', '6', '4'] != "i64"@) by { assert(seq!['f', '6', '4'][0] != "i64"@[0]); }
    assert(seq!['f', '6', '4'] != "unit"@) by { assert(seq!['f', '6', '4'][0] != "unit"@[0]); }
    assert(seq!['f', '6', '4'] != "void"@) by { assert(seq!['f', '6', '4'][0] != "void"@[0]); }
    assert(seq!['f', '6', '4'] != seq!['f', '3', '2']) by { assert(seq!['f', '6', '4'][1] != seq!['f', '3', '2'][1]); }
    assert("unit"@ != "void"@) by { assert("unit"@[0] != "void"@[0]); }
}

/// Checking against any other declared type leaves the value as it is.
pub proof fn law_other_types_accept_any_value(d: DecoderView, v: Val, t: Seq<char>, line: usize, column: usize)
    requires
        d.types.contains_key(t),
        t != "unit"@,
        t != "void"@,
        t != "i32"@,
        t != "i64"@,
        t != seq!['f', '3', '2'],
        t != seq!['f', '6', '4'],
    ensures
        check_type_spec(d, v, t, line, column) == SOutcome::Value(v),
{
}

/// A type that was never declared accepts no value.
pub proof fn law_undeclared_type_refuses(d: DecoderView, v: Val, t: Seq<char>, line: usize, column: usize)
    requires
        !d.types.contains_key(t),
    ensures
        refused_at(check_type_spec(d, v, t, line, column), line, column),
{
}

/// The reserved words of the language, which no variable or function may be named.
pub open spec fn reserved_word(s: Seq<char>) -> bool {
    s == "if"@
        || s == "else"@
        || s == "while"@
        || s == "for"@
        || s == "break"@
        || s == "continue"@
        || s == "i32"@
        || s == "i64"@
        || s == float_type_name(true)
        || s == float_type_name(false)
        || s == "u32"@
        || s == "u64"@
        || s == "type"@
        || s == "let"@
        || s == "l"@
        || s == "var"@
        || s == "v"@
        || s == "fn"@
        || s == "mut"@
        || s == "loop"@
        || s == "="@
        || s == "+"@
        || s == "++"@
        || s == "-"@
        || s == "--"@
        || s == "+="@
        || s == "-="@
        || s == "*"@
        || s == "*="@
        || s == "/"@
        || s == "/="@
        || s == "{"@
        || s == "}"@
        || s == "["@
        || s == "]"@
        || s == "mod"@
        || s == "use"@
        || s == "bool"@
        || s == "struct"@
        || s == "enum"@
        || s == "%"@
        || s == "&"@
        || s == "&="@
        || s == "|"@
        || s == "|="@
        || s == "^"@
        || s == "~"@
        || s == "^="@
}

/// Whether `name` is `f32` (`single`) or `f64`.
fn is_float_type_name(name: &str, single: bool) -> (r: bool)
    ensures
        r == (name@ == float_type_name(single)),
{
    let cs = chars_of(name);
    let second = if single { '3' } else { '6' };
    let third = if single { '2' } else { '4' };
    let r = cs.len() == 3 && cs[0] == 'f' && cs[1] == second && cs[2] == third;
    assert(r ==> cs@ =~= float_type_name(single));
    r
}

/// Whether `name` is a reserved word.
pub fn is_reserved(name: &str) -> (r: bool)
    ensures
        r == reserved_word(name@),
{
    str_eq(name, "if")
        || str_eq(name, "else")
        || str_eq(name, "while")
        || str_eq(name, "for")
        || str_eq(name, "break")
        || str_eq(name, "continue")
        || str_eq(name, "i32")
        || str_eq(name, "i64")
        || is_float_type_name(name, true)
        || is_float_type_name(name, false)
        || str_eq(name, "u32")
        || str_eq(name, "u64")
        || str_eq(name, "type")
        || str_eq(name, "let")
        || str_eq(name, "l")
        || str_eq(name, "var")
        || str_eq(name, "v")
        || str_eq(name, "fn")
        || str_eq(name, "mut")
        || str_eq(name, "loop")
        || str_eq(name, "=")
        || str_eq(name, "+")
        || str_eq(name, "++")
        || str_eq(name, "-")
        || str_eq(name, "--")
        || str_eq(name, "+=")
        || str_eq(name, "-=")
        || str_eq(name, "*")
        || str_eq(name, "*=")
        || str_eq(name, "/")
        || str_eq(name, "/=")
        || str_eq(name, "{")
        || str_eq(name, "}")
        || str_eq(name, "[")
        || str_eq(name, "]")
        || str_eq(name, "mod")
        || str_eq(name, "use")
        || str_eq(name, "bool")
        || str_eq(name, "struct")
        || str_eq(name, "enum")
        || str_eq(name, "%")
        || str_eq(name, "&")
        || str_eq(name, "&=")
        || str_eq(name, "|")
        || str_eq(name, "|=")
        || str_eq(name, "^")
        || str_eq(name, "~")
        || str_eq(name, "^=")
}

/// The variable a name refers to: the local one, else the global one.
pub open spec fn found_var(d: DecoderView, name: Seq<char>) -> Option<SVar> {
    if d.local.contains_key(name) {
        Some(d.local[name])
    } else if d.global.contains_key(name) {
        Some(d.global[name])
    } else {
        None
    }
}

/// What reading a variable gives: the value in the memory cell of the local one, else of the
/// global one, else `Null`; a cell that holds no value cannot be read.
pub open spec fn read_spec(d: DecoderView, name: Seq<char>) -> SOutcome {
    match found_var(d, name) {
        Some(v) => if v.address < d.memory.len() && d.memory[v.address as int] is Value {
            SOutcome::Value(d.memory[v.address as int]->Value_0)
        } else {
            SOutcome::Error("Failed to retrieve value"@)
        },
        None => SOutcome::Value(Val::Null),
    }
}

/// The state after a new memory cell holding `v` is made; its address is the old length.
pub open spec fn alloc_spec(d: DecoderView, v: Val) -> DecoderView {
    DecoderView { memory: d.memory.push(Cell::Value(v)), ..d }
}

/// The state after the cell at `address` is set to `c`; nothing changes when there is none.
pub open spec fn write_spec(d: DecoderView, address: usize, c: Cell) -> DecoderView {
    if address < d.memory.len() {
        DecoderView { memory: d.memory.update(address as int, c), ..d }
    } else {
        d
    }
}

/// The error a declaration of `name` meets before its value is computed, if any.
pub open spec fn declare_check(d: DecoderView, name: Seq<char>, is_local: bool, is_statement: bool) -> Option<Seq<char>> {
    if !is_statement {
        Some("Variable declaration must be a statement"@)
    } else if reserved_word(name) {
        Some(quoted(name) + " is a reserved word"@)
    } else if (if is_local { d.local.contains_key(name) } else { d.global.contains_key(name) || d.funcs.contains_key(name) }) {
        Some("Variable "@ + quoted(name) + " is already defined"@)
    } else {
        None
    }
}

/// The state after a declaration stores its variable.
pub open spec fn declare_store(d: DecoderView, name: Seq<char>, v: SVar, is_local: bool) -> DecoderView {
    if is_local {
        DecoderView { local: d.local.insert(name, v), ..d }
    } else {
        DecoderView { global: d.global.insert(name, v), ..d }
    }
}

/// A declaration of `name` with an already computed value: its result and the state after it.
pub open spec fn declare_spec(
    d: DecoderView,
    name: Seq<char>,
    value: Val,
    ty: Seq<char>,
    is_local: bool,
    is_mutable: bool,
    is_statement: bool,
) -> (SOutcome, DecoderView) {
    match declare_check(d, name, is_local, is_statement) {
        Some(e) => (SOutcome::Error(e), d),
        None => (
            SOutcome::Value(value),
            declare_store(
                alloc_spec(d, value),
                name,
                SVar { data_type: ty, value, address: d.memory.len() as usize, is_mutable },
                is_local,
            ),
        ),
    }
}

/// The error an assignment to `name` meets before its value is computed, if any.
pub open spec fn assign_check(d: DecoderView, name: Seq<char>, is_statement: bool) -> Option<Seq<char>> {
    if !is_statement {
        Some("Variable Assign must be a statement"@)
    } else {
        match found_var(d, name) {
            None => if d.funcs.contains_key(name) {
                Some("Variable "@ + quoted(name) + " is not mutable"@)
            } else {
                Some("Variable "@ + quoted(name) + " is not defined"@)
            },
            Some(v) => if !v.is_mutable {
                Some("Variable "@ + quoted(name) + " is not mutable"@)
            } else {
                None
            },
        }
    }
}

/// Writes a variable back where it was found: the local table when it holds the name, else
/// the global one.
pub open spec fn put_var(d: DecoderView, name: Seq<char>, v: SVar) -> DecoderView {
    if d.local.contains_key(name) {
        DecoderView { local: d.local.insert(name, v), ..d }
    } else {
        DecoderView { global: d.global.insert(name, v), ..d }
    }
}

/// The position an index value selects: a negative or fractional number selects 0.
pub open spec fn index_position(index: Val) -> Option<int> {
    match index {
        Val::Int(n) => Some(if n < 0 { 0 } else { n as int }),
        Val::Float(_) => Some(0),
        _ => None,
    }
}

/// An assignment of `new` to the variable `var` found under `name` (at `index` when it holds
/// an array): its result and the state after it.  The value the table holds for the
/// variable, so changed, is written both to the table and to the variable's memory cell.
pub open spec fn assign_store(d: DecoderView, name: Seq<char>, var: SVar, new: Val, index: Val) -> (SOutcome, DecoderView) {
    match var.value {
        Val::Array(xs) => match index_position(index) {
            Some(k) => if k < xs.len() {
                (
                    SOutcome::Value(new),
                    put_var(
                        write_spec(d, var.address, Cell::Value(Val::Array(xs.update(k, new)))),
                        name,
                        SVar { value: Val::Array(xs.update(k, new)), ..var },
                    ),
                )
            } else {
                (SOutcome::Error("Index out of bounds"@), d)
            },
            None => (SOutcome::Error("Index is not a number"@), d),
        },
        _ => (SOutcome::Value(new), put_var(write_spec(d, var.address, Cell::Value(new)), name, SVar { value: new, ..var })),
    }
}

/// An assignment with already computed value and index: its result and the state after it.
pub open spec fn assign_spec(d: DecoderView, name: Seq<char>, new: Val, index: Val, is_statement: bool) -> (SOutcome, DecoderView) {
    match assign_check(d, name, is_statement) {
        Some(e) => (SOutcome::Error(e), d),
        None => assign_store(d, name, found_var(d, name)->Some_0, new, index),
    }
}

/// The state after a function is declared: `main` and `Main` become the entry function
/// whether or not the declaration succeeds; a reserved name (where `checked`; a callback's
/// name is not checked) or one that a global variable or a function holds is an error; a
/// system function is also stored under `@name`.
pub open spec fn func_decl_spec(d: DecoderView, name: Seq<char>, f: SFunc, is_system: bool, checked: bool) -> (SOutcome, DecoderView) {
    let d0 = if name == "main"@ || name == "Main"@ { DecoderView { entry: Some(name), ..d } } else { d };
    if checked && reserved_word(name) {
        (SOutcome::Error(quoted(name) + " is a reserved word"@), d0)
    } else if d0.global.contains_key(name) || d0.funcs.contains_key(name) {
        (SOutcome::Error("Function "@ + quoted(name) + " is already defined"@), d0)
    } else {
        let fs = if is_system { d0.funcs.insert(seq!['@'] + name, f) } else { d0.funcs };
        (SOutcome::Value(Val::Null), DecoderView { funcs: fs.insert(name, f), ..d0 })
    }
}

/// A type declaration: an error when the name is taken, else the name, with the type recorded.
pub open spec fn type_decl_spec(d: DecoderView, name: Seq<char>, ty: Seq<char>) -> (SOutcome, DecoderView) {
    if d.types.contains_key(name) {
        (SOutcome::Error("type "@ + quoted(name) + " is already defined"@), d)
    } else {
        (SOutcome::Value(Val::Str(name)), DecoderView { types: d.types.insert(name, ty), ..d })
    }
}

/// The position of `name` in a list of named entries.
fn find_name<V>(ps: &Vec<(String, V)>, name: &str) -> (r: Option<usize>)
    ensures
        match r {
            Some(j) => j < ps@.len() && ps@[j as int].0@ == name@,
            None => forall|k: int| 0 <= k < ps@.len() ==> ps@[k].0@ != name@,
        },
{
    let mut j: usize = 0;
    while j < ps.len()
        invariant
            j <= ps.len(),
            forall|k: int| 0 <= k < j ==> ps@[k].0@ != name@,
        decreases ps.len() - j,
    {
        if str_eq(ps[j].0.as_str(), name) {
            return Some(j);
        }
        j += 1;
    }
    None
}

/// Adding a pair with a new name to a list without repeated names.
proof fn lemma_pairs_push<V>(ps: Seq<(String, V)>, name: String, v: V)
    requires
        unique_names(ps),
        forall|k: int| 0 <= k < ps.len() ==> ps[k].0@ != name@,
    ensures
        unique_names(ps.push((name, v))),
        pairs_map(ps.push((name, v))) == pairs_map(ps).insert(name@, v),
{
    let qs = ps.push((name, v));
    assert(qs.drop_last() =~= ps);
    assert forall|a: int, b: int| 0 <= a < qs.len() && 0 <= b < qs.len() && a != b
        implies qs[a].0@ != qs[b].0@ by {
        if a < ps.len() && b < ps.len() {
            assert(ps[a].0@ != ps[b].0@);
        }
    }
}

/// Setting the pair at `j`, which holds `name`, keeps the names unique.
proof fn lemma_pairs_set<V>(ps: Seq<(String, V)>, j: int, name: String, v: V)
    requires
        unique_names(ps),
        0 <= j < ps.len(),
        ps[j].0@ == name@,
    ensures
        unique_names(ps.update(j, (name, v))),
        pairs_map(ps.update(j, (name, v))) == pairs_map(ps).insert(name@, v),
{
    lemma_pairs_map_update(ps, j, name, v);
    let qs = ps.update(j, (name, v));
    assert forall|a: int, b: int| 0 <= a < qs.len() && 0 <= b < qs.len() && a != b
        implies qs[a].0@ != qs[b].0@ by {
        assert(ps[a].0@ != ps[b].0@);
    }
}

/// Adds a new variable to a list that does not hold its name.
fn push_var(ps: &mut Vec<(String, Variable)>, name: String, var: Variable)
    requires
        unique_names(old(ps)@),
        !vars_map(old(ps)@).contains_key(name@),
    ensures
        unique_names(final(ps)@),
        vars_map(final(ps)@) == vars_map(old(ps)@).insert(name@, var.sv()),
{
    proof {
        if exists|k: int| 0 <= k < old(ps)@.len() && old(ps)@[k].0@ == name@ {
            let k = choose|k: int| 0 <= k < old(ps)@.len() && old(ps)@[k].0@ == name@;
            lemma_pairs_map_index(old(ps)@, k);
        }
        lemma_pairs_push(old(ps)@, name, var);
    }
    let ghost n = name@;
    let ghost sv = var.sv();
    ps.push((name, var));
    proof {
        assert(vars_map(ps@) =~= vars_map(old(ps)@).insert(n, sv));
    }
}

/// Replaces the variable at `j`, which holds `name`.
fn set_var(ps: &mut Vec<(String, Variable)>, j: usize, name: String, var: Variable)
    requires
        unique_names(old(ps)@),
        j < old(ps)@.len(),
        old(ps)@[j as int].0@ == name@,
    ensures
        unique_names(final(ps)@),
        vars_map(final(ps)@) == vars_map(old(ps)@).insert(name@, var.sv()),
{
    proof {
        lemma_pairs_set(old(ps)@, j as int, name, var);
    }
    let ghost n = name@;
    let ghost sv = var.sv();
    ps.set(j, (name, var));
    proof {
        assert(vars_map(ps@) =~= vars_map(old(ps)@).insert(n, sv));
    }
}

/// The text `prefix'name'suffix`.
pub(crate) fn quoted_message(prefix: &str, name: &str, suffix: &str) -> (s: String)
    ensures
        s@ == prefix@ + quoted(name@) + suffix@,
{
    let mut s = prefix.to_string();
    s.push('\'');
    s.append(name);
    s.push('\'');
    s.append(suffix);
    assert(s@ =~= prefix@ + quoted(name@) + suffix@);
    s
}

/// One step of the map of a list of named variables.
proof fn lemma_vars_map_step(ps: Seq<(String, Variable)>)
    requires
        ps.len() > 0,
    ensures
        vars_map(ps) == vars_map(ps.drop_last()).insert(ps.last().0@, ps.last().1.sv()),
{
    assert(vars_map(ps) =~= vars_map(ps.drop_last()).insert(ps.last().0@, ps.last().1.sv()));
}

/// Two lists with the same names and equal values stand for the same variables.
proof fn lemma_vars_map_same(a: Seq<(String, Variable)>, b: Seq<(String, Variable)>)
    requires
        a.len() == b.len(),
        forall|k: int| 0 <= k < a.len() ==> #[trigger] a[k].0@ == b[k].0@ && a[k].1.sv() == b[k].1.sv(),
    ensures
        vars_map(a) == vars_map(b),
    decreases a.len(),
{
    if a.len() == 0 {
        assert(vars_map(a) =~= vars_map(b));
    } else {
        lemma_vars_map_same(a.drop_last(), b.drop_last());
        lemma_vars_map_step(a);
        lemma_vars_map_step(b);
        assert(a.last().0@ == b.last().0@ && a.last().1.sv() == b.last().1.sv());
    }
}

impl Variable {
    /// An equal variable.
    pub fn copy(&self) -> (r: Variable)
        ensures
            r.sv() == self.sv(),
    {
        Variable {
            data_type: self.data_type.clone(),
            value: self.value.copy(),
            address: self.address,
            is_mutable: self.is_mutable,
        }
    }
}

/// An equal list of parameters.
fn copy_params(ps: &Vec<(String, String)>) -> (r: Vec<(String, String)>)
    ensures
        params_view(r@) == params_view(ps@),
{
    let mut out: Vec<(String, String)> = Vec::new();
    let mut i: usize = 0;
    while i < ps.len()
        invariant
            i <= ps.len(),
            out@.len() == i,
            forall|k: int| 0 <= k < i ==> #[trigger] out@[k].0@ == ps@[k].0@ && out@[k].1@ == ps@[k].1@,
        decreases ps.len() - i,
    {
        out.push((ps[i].0.clone(), ps[i].1.clone()));
        i += 1;
    }
    assert(params_view(out@) =~= params_view(ps@));
    out
}

/// An equal list of named variables.
fn copy_vars(ps: &Vec<(String, Variable)>) -> (r: Vec<(String, Variable)>)
    requires
        unique_names(ps@),
    ensures
        unique_names(r@),
        vars_map(r@) == vars_map(ps@),
{
    let mut out: Vec<(String, Variable)> = Vec::new();
    let mut i: usize = 0;
    while i < ps.len()
        invariant
            i <= ps.len(),
            out@.len() == i,
            forall|k: int| 0 <= k < i ==> #[trigger] out@[k].0@ == ps@[k].0@ && out@[k].1.sv() == ps@[k].1.sv(),
        decreases ps.len() - i,
    {
        let name = ps[i].0.clone();
        let var = ps[i].1.copy();
        out.push((name, var));
        i += 1;
    }
    proof {
        lemma_vars_map_same(out@, ps@);
        assert forall|a: int, b: int| 0 <= a < out@.len() && 0 <= b < out@.len() && a != b
            implies out@[a].0@ != out@[b].0@ by {
            assert(out@[a].0@ == ps@[a].0@);
            assert(out@[b].0@ == ps@[b].0@);
        }
    }
    out
}

impl<'a> Decoder<'a> {
    #[verifier::type_invariant]
    spec fn names_unique(self) -> bool {
        &&& unique_names(self.local_context@)
        &&& unique_names(self.global_context@)
        &&& unique_names(self.type_context@)
        &&& unique_names(self.functions@)
    }

    /// An interpreter with no variables, no types and no functions.
    pub fn new() -> (d: Self)
        ensures
            d@.local == Map::<Seq<char>, SVar>::empty(),
            d@.global == Map::<Seq<char>, SVar>::empty(),
            d@.types == Map::<Seq<char>, Seq<char>>::empty(),
            d@.funcs == Map::<Seq<char>, SFunc>::empty(),
            d@.entry is None,
            d@.memory == Seq::<Cell>::empty(),
            d@.answers == Seq::<SFloatAnswer>::empty(),
            d@.used == 0,
    {
        let d = Decoder {
            local_context: Vec::new(),
            global_context: Vec::new(),
            type_context: Vec::new(),
            functions: Vec::new(),
            entry: None,
            memory: Vec::new(),
            answers: Vec::new(),
            used: 0,
        };
        assert(d@.memory =~= Seq::<Cell>::empty());
        assert(d@.answers =~= Seq::<SFloatAnswer>::empty());
        assert(d@.local =~= Map::<Seq<char>, SVar>::empty());
        assert(d@.global =~= Map::<Seq<char>, SVar>::empty());
        assert(d@.types =~= Map::<Seq<char>, Seq<char>>::empty());
        assert(d@.funcs =~= Map::<Seq<char>, SFunc>::empty());
        d
    }

    /// Whether a function named `name` is declared.
    pub(crate) fn has_function(&self, name: &str) -> (r: bool)
        ensures
            r == self@.funcs.contains_key(name@),
    {
        proof {
            use_type_invariant(self);
        }
        match find_name(&self.functions, name) {
            Some(j) => {
                proof {
                    lemma_pairs_map_index(self.functions@, j as int);
                }
                true
            },
            None => {
                proof {
                    lemma_pairs_map_absent(self.functions@, name@);
                }
                false
            },
        }
    }

    /// The function named `name`, with a copy of its parameters.
    pub(crate) fn function(&self, name: &str) -> (r: Option<FuncDef<'a>>)
        ensures
            match r {
                Some(f) => self@.funcs.contains_key(name@) && f.sv() == self@.funcs[name@],
                None => !self@.funcs.contains_key(name@),
            },
    {
        proof {
            use_type_invariant(self);
        }
        match find_name(&self.functions, name) {
            Some(j) => {
                proof {
                    lemma_pairs_map_index(self.functions@, j as int);
                }
                let params = copy_params(&self.functions[j].1.params);
                Some(FuncDef { params, body: self.functions[j].1.body })
            },
            None => {
                proof {
                    lemma_pairs_map_absent(self.functions@, name@);
                }
                None
            },
        }
    }

    /// Declares a function: `main` and `Main` become the entry function; a reserved name
    /// (where `checked`, which a callback is not), or one that a global variable or a function
    /// holds, is an error; a system function is also stored under `@name`.
    pub fn declare_function(
        &mut self,
        name: &str,
        params: Vec<(String, String)>,
        body: &'a Node,
        is_system: bool,
        checked: bool,
    ) -> (r: Outcome)
        ensures
            (r.sv(), final(self)@) == func_decl_spec(
                old(self)@,
                name@,
                SFunc { params: params_view(params@), body: body.sv() },
                is_system,
                checked,
            ),
    {
        proof {
            use_type_invariant(&*self);
        }
        if str_eq(name, "main") || str_eq(name, "Main") {
            self.entry = Some(name.to_string());
        }
        assert(self@ =~= (if name@ == "main"@ || name@ == "Main"@ { DecoderView { entry: Some(name@), ..old(self)@ } } else { old(self)@ }));
        if checked && is_reserved(name) {
            proof {
                reveal_strlit("");
                assert(""@ + quoted(name@) =~= quoted(name@));
            }
            return Outcome::Error(quoted_message("", name, " is a reserved word"));
        }
        if self.table_has(name, false) || self.has_function(name) {
            return Outcome::Error(quoted_message("Function ", name, " is already defined"));
        }
        let ghost f = SFunc { params: params_view(params@), body: body.sv() };
        let mut table: Vec<(String, FuncDef<'a>)> = Vec::new();
        std::mem::swap(&mut table, &mut self.functions);
        proof {
            if exists|k: int| 0 <= k < table@.len() && table@[k].0@ == name@ {
                let k = choose|k: int| 0 <= k < table@.len() && table@[k].0@ == name@;
                lemma_pairs_map_index(table@, k);
            }
        }
        assert(forall|k: int| 0 <= k < table@.len() ==> table@[k].0@ != name@);
        let ghost orig = table@;
        if is_system {
            let mut at = "@".to_string();
            at.append(name);
            proof {
                reveal_strlit("@");
            }
            let copy = FuncDef { params: copy_params(&params), body };
            assert(at@ =~= seq!['@'] + name@);
            assert(copy.sv() == f);
            assert(at@.len() == name@.len() + 1);
            assert(at@ != name@);
            match find_name(&table, at.as_str()) {
                Some(j) => {
                    proof {
                        lemma_pairs_set(table@, j as int, at, copy);
                    }
                    table.set(j, (at, copy));
                },
                None => {
                    proof {
                        lemma_pairs_push(table@, at, copy);
                    }
                    table.push((at, copy));
                },
            }
            assert(funcs_map(table@) =~= funcs_map(orig).insert(seq!['@'] + name@, f));
        }
        assert(funcs_map(table@) =~= (if is_system { funcs_map(orig).insert(seq!['@'] + name@, f) } else { funcs_map(orig) }));
        assert(forall|k: int| 0 <= k < table@.len() ==> table@[k].0@ != name@);
        let ghost before = table@;
        let entry = (name.to_string(), FuncDef { params, body });
        proof {
            lemma_pairs_push(before, entry.0, entry.1);
        }
        table.push(entry);
        assert(funcs_map(table@) =~= funcs_map(before).insert(name@, f));
        std::mem::swap(&mut table, &mut self.functions);
        assert(self@ =~= func_decl_spec(old(self)@, name@, f, is_system, checked).1);
        Outcome::Value(RtValue::Null)
    }

    /// The variable `name` refers to, copied: the local one, else the global one.
    pub fn find_variable(&self, name: &str) -> (r: Option<Variable>)
        ensures
            match found_var(self@, name@) {
                Some(v) => r matches Some(w) && w.sv() == v,
                None => r is None,
            },
    {
        proof {
            use_type_invariant(self);
        }
        match find_name(&self.local_context, name) {
            Some(j) => {
                proof {
                    lemma_pairs_map_index(self.local_context@, j as int);
                }
                Some(self.local_context[j].1.copy())
            },
            None => {
                proof {
                    lemma_pairs_map_absent(self.local_context@, name@);
                }
                match find_name(&self.global_context, name) {
                    Some(j) => {
                        proof {
                            lemma_pairs_map_index(self.global_context@, j as int);
                        }
                        Some(self.global_context[j].1.copy())
                    },
                    None => {
                        proof {
                            lemma_pairs_map_absent(self.global_context@, name@);
                        }
                        None
                    },
                }
            },
        }
    }

    /// The value of a variable as a script reads it: the local one, else the global one,
    /// else `Null`.
    pub fn read_variable(&self, name: &str) -> (r: Outcome)
        ensures
            r.sv() == read_spec(self@, name@),
    {
        match self.find_variable(name) {
            Some(v) => {
                if v.address < self.memory.len() {
                    match &self.memory[v.address] {
                        MemCell::Value(x) => Outcome::Value(x.copy()),
                        MemCell::Raw(_) => Outcome::Error("Failed to retrieve value".to_string()),
                    }
                } else {
                    Outcome::Error("Failed to retrieve value".to_string())
                }
            },
            None => Outcome::Value(RtValue::Null),
        }
    }

    /// Whether the type `name` is declared.
    fn has_type(&self, name: &str) -> (r: bool)
        ensures
            r == self@.types.contains_key(name@),
    {
        proof {
            use_type_invariant(self);
        }
        match find_name(&self.type_context, name) {
            Some(j) => {
                proof {
                    lemma_pairs_map_index(self.type_context@, j as int);
                }
                true
            },
            None => {
                proof {
                    lemma_pairs_map_absent(self.type_context@, name@);
                }
                false
            },
        }
    }

    /// Checks `value` against the declared type `expected_type`: `unit` and `void` give
    /// `Null`, `i32` and `i64` accept integers in their range, `f32` and `f64` ask for a
    /// conversion, and any other declared type accepts the value as it is.  Errors belong
    /// at `line` and `column`.
    pub fn check_type(&self, value: &RtValue, expected_type: &str, line: usize, column: usize) -> (r: Outcome)
        ensures
            r.sv() == check_type_spec(self@, value.sv(), expected_type@, line, column),
    {
        if !self.has_type(expected_type) {
            return Outcome::Framed(quoted_message("Type ", expected_type, " is not defined"), line, column);
        }
        if str_eq(expected_type, "unit") || str_eq(expected_type, "void") {
            return Outcome::Value(RtValue::Null);
        }
        if str_eq(expected_type, "i32") {
            return match value {
                RtValue::Int(n) => {
                    if -2147483648 <= *n && *n <= 2147483647 {
                        Outcome::Value(RtValue::Int(*n))
                    } else {
                        let mut s = "Value out of range for i32: ".to_string();
                        s.append(i64_to_text(*n).as_str());
                        Outcome::Framed(s, line, column)
                    }
                },
                _ => {
                    let mut s = "Type mismatch for i32: ".to_string();
                    s.append(value.debug_text().as_str());
                    Outcome::Framed(s, line, column)
                },
            };
        }
        if str_eq(expected_type, "i64") {
            return match value {
                RtValue::Int(n) => Outcome::Value(RtValue::Int(*n)),
                _ => {
                    let mut s = "Type mismatch for i64: ".to_string();
                    s.append(value.debug_text().as_str());
                    Outcome::Framed(s, line, column)
                },
            };
        }
        let single = is_float_type_name(expected_type, true);
        if single || is_float_type_name(expected_type, false) {
            return match value {
                RtValue::Int(_) | RtValue::Float(_) => Outcome::Float(FloatWork::Convert(single, value.copy())),
                _ => {
                    let mut s = "Type mismatch for ".to_string();
                    s.append(expected_type);
                    s.append(": ");
                    s.append(value.debug_text().as_str());
                    Outcome::Framed(s, line, column)
                },
            };
        }
        Outcome::Value(value.copy())
    }

    /// The error a declaration meets before its value is computed, if any.
    pub(crate) fn declare_check(&self, name: &str, is_local: bool, is_statement: bool) -> (r: Option<String>)
        ensures
            match declare_check(self@, name@, is_local, is_statement) {
                Some(e) => r matches Some(m) && m@ == e,
                None => r is None,
            },
    {
        proof {
            use_type_invariant(self);
        }
        if !is_statement {
            return Some("Variable declaration must be a statement".to_string());
        }
        if is_reserved(name) {
            proof {
                reveal_strlit("");
                assert(""@ + quoted(name@) =~= quoted(name@));
            }
            return Some(quoted_message("", name, " is a reserved word"));
        }
        let found = if is_local { find_name(&self.local_context, name) } else { find_name(&self.global_context, name) };
        match found {
            Some(j) => {
                proof {
                    if is_local {
                        lemma_pairs_map_index(self.local_context@, j as int);
                    } else {
                        lemma_pairs_map_index(self.global_context@, j as int);
                    }
                }
                Some(quoted_message("Variable ", name, " is already defined"))
            },
            None => {
                proof {
                    if is_local {
                        lemma_pairs_map_absent(self.local_context@, name@);
                    } else {
                        lemma_pairs_map_absent(self.global_context@, name@);
                    }
                }
                if !is_local && self.has_function(name) {
                    return Some(quoted_message("Variable ", name, " is already defined"));
                }
                None
            },
        }
    }

    /// Stores a declared variable in the chosen table, replacing one of the same name.
    pub(crate) fn declare_store(&mut self, name: String, var: Variable, is_local: bool)
        ensures
            final(self)@ == declare_store(old(self)@, name@, var.sv(), is_local),
    {
        proof {
            use_type_invariant(&*self);
        }
        let ghost n = name@;
        let ghost v = var.sv();
        let mut table: Vec<(String, Variable)> = Vec::new();
        if is_local {
            std::mem::swap(&mut table, &mut self.local_context);
        } else {
            std::mem::swap(&mut table, &mut self.global_context);
        }
        match find_name(&table, name.as_str()) {
            Some(j) => {
                set_var(&mut table, j, name, var);
            },
            None => {
                proof {
                    lemma_pairs_map_absent(table@, name@);
                }
                push_var(&mut table, name, var);
            },
        }
        if is_local {
            std::mem::swap(&mut table, &mut self.local_context);
        } else {
            std::mem::swap(&mut table, &mut self.global_context);
        }
        assert(self@ =~= declare_store(old(self)@, n, v, is_local));
    }

    /// Declares a variable with an already computed value: an error when the declaration is
    /// not a statement, the name is reserved, or the chosen table holds it already; else the
    /// variable is stored in the chosen table and its value returned.
    pub fn declare_variable(
        &mut self,
        name: &str,
        value: RtValue,
        ty: &str,
        is_local: bool,
        is_mutable: bool,
        is_statement: bool,
    ) -> (r: Outcome)
        ensures
            (r.sv(), final(self)@) == declare_spec(old(self)@, name@, value.sv(), ty@, is_local, is_mutable, is_statement),
    {
        match self.declare_check(name, is_local, is_statement) {
            Some(e) => Outcome::Error(e),
            None => {
                let result = value.copy();
                let cell = value.copy();
                let address = self.new_cell(cell);
                let var = Variable { data_type: ty.to_string(), value, address, is_mutable };
                self.declare_store(name.to_string(), var, is_local);
                Outcome::Value(result)
            },
        }
    }
    /// Writes a variable back where it was found: the local table when it holds the name,
    /// else the global one.
    pub(crate) fn put_variable(&mut self, name: &str, var: Variable)
        ensures
            final(self)@ == put_var(old(self)@, name@, var.sv()),
    {
        proof {
            use_type_invariant(&*self);
        }
        let ghost v = var.sv();
        let mut table: Vec<(String, Variable)> = Vec::new();
        match find_name(&self.local_context, name) {
            Some(j) => {
                proof {
                    lemma_pairs_map_index(self.local_context@, j as int);
                }
                std::mem::swap(&mut table, &mut self.local_context);
                set_var(&mut table, j, name.to_string(), var);
                std::mem::swap(&mut table, &mut self.local_context);
            },
            None => {
                proof {
                    lemma_pairs_map_absent(self.local_context@, name@);
                }
                std::mem::swap(&mut table, &mut self.global_context);
                match find_name(&table, name) {
                    Some(j) => {
                        set_var(&mut table, j, name.to_string(), var);
                    },
                    None => {
                        proof {
                            lemma_pairs_map_absent(table@, name@);
                        }
                        push_var(&mut table, name.to_string(), var);
                    },
                }
                std::mem::swap(&mut table, &mut self.global_context);
            },
        }
        assert(self@ =~= put_var(old(self)@, name@, v));
    }

    /// The variable an assignment writes to, or the error it meets before its value is
    /// computed.
    pub(crate) fn assign_check(&self, name: &str, is_statement: bool) -> (r: Result<Variable, String>)
        ensures
            match assign_check(self@, name@, is_statement) {
                Some(e) => r matches Err(m) && m@ == e,
                None => r matches Ok(v) && found_var(self@, name@) == Some(v.sv()),
            },
    {
        if !is_statement {
            return Err("Variable Assign must be a statement".to_string());
        }
        match self.find_variable(name) {
            None => {
                if self.has_function(name) {
                    Err(quoted_message("Variable ", name, " is not mutable"))
                } else {
                    Err(quoted_message("Variable ", name, " is not defined"))
                }
            },
            Some(v) => {
                if !v.is_mutable {
                    Err(quoted_message("Variable ", name, " is not mutable"))
                } else {
                    Ok(v)
                }
            },
        }
    }

    /// Stores `new` into the variable `var` found under `name`, at `index` when it holds an
    /// array.
    pub(crate) fn assign_store(&mut self, name: &str, var: Variable, new: RtValue, index: &RtValue) -> (r: Outcome)
        ensures
            (r.sv(), final(self)@) == assign_store(old(self)@, name@, var.sv(), new.sv(), index.sv()),
    {
        let Variable { data_type, value, address, is_mutable } = var;
        match value {
            RtValue::Array(mut items) => {
                proof {
                    lemma_vals_sv_index(items@, items@.len() as int);
                }
                let k: i64 = match index {
                    RtValue::Int(n) => if *n < 0 { 0 } else { *n },
                    RtValue::Float(_) => 0,
                    _ => {
                        return Outcome::Error("Index is not a number".to_string());
                    },
                };
                if (k as u128) < (items.len() as u128) {
                    let result = new.copy();
                    let ghost old_items = items@;
                    proof {
                        lemma_vals_sv_index(old_items, old_items.len() as int);
                    }
                    items.set(k as usize, new);
                    proof {
                        lemma_vals_sv_index(items@, items@.len() as int);
                        assert(vals_sv(items@, items@.len() as int) =~= vals_sv(old_items, old_items.len() as int).update(
                            k as int,
                            result.sv(),
                        ));
                    }
                    let stored = RtValue::Array(items);
                    self.write_cell(address, MemCell::Value(stored.copy()));
                    self.put_variable(name, Variable { data_type, value: stored, address, is_mutable });
                    Outcome::Value(result)
                } else {
                    Outcome::Error("Index out of bounds".to_string())
                }
            },
            other => {
                let result = new.copy();
                self.write_cell(address, MemCell::Value(new.copy()));
                self.put_variable(name, Variable { data_type, value: new, address, is_mutable });
                Outcome::Value(result)
            },
        }
    }

    /// Assigns an already computed value (at `index` when the variable holds an array): an
    /// error when the assignment is not a statement, the name is not declared or the variable
    /// is not mutable, or the index is not a number or is past the end; else the variable is
    /// updated where it was found and the value returned.
    pub fn assign(&mut self, name: &str, value: RtValue, index: &RtValue, is_statement: bool) -> (r: Outcome)
        ensures
            (r.sv(), final(self)@) == assign_spec(old(self)@, name@, value.sv(), index.sv(), is_statement),
    {
        match self.assign_check(name, is_statement) {
            Err(e) => Outcome::Error(e),
            Ok(var) => self.assign_store(name, var, value, index),
        }
    }

    /// Declares a type: an error when its name is taken, else the name, with the type
    /// recorded.
    pub fn declare_type(&mut self, name: &str, ty: &str) -> (r: Outcome)
        ensures
            (r.sv(), final(self)@) == type_decl_spec(old(self)@, name@, ty@),
    {
        proof {
            use_type_invariant(&*self);
        }
        match find_name(&self.type_context, name) {
            Some(j) => {
                proof {
                    lemma_pairs_map_index(self.type_context@, j as int);
                }
                Outcome::Error(quoted_message("type ", name, " is already defined"))
            },
            None => {
                proof {
                    lemma_pairs_map_absent(self.type_context@, name@);
                }
                let mut table: Vec<(String, String)> = Vec::new();
                std::mem::swap(&mut table, &mut self.type_context);
                let ghost before = table@;
                let n = name.to_string();
                let t = ty.to_string();
                proof {
                    lemma_pairs_push(before, n, t);
                }
                table.push((n, t));
                std::mem::swap(&mut table, &mut self.type_context);
                assert(self@ =~= type_decl_spec(old(self)@, name@, ty@).1);
                Outcome::Value(RtValue::Str(name.to_string()))
            },
        }
    }

    /// A copy of the local variables, to put back with `restore_locals`.
    pub(crate) fn save_locals(&self) -> (r: Vec<(String, Variable)>)
        ensures
            unique_names(r@),
            vars_map(r@) == self@.local,
    {
        proof {
            use_type_invariant(self);
        }
        copy_vars(&self.local_context)
    }

    /// Puts back local variables saved with `save_locals`.
    pub(crate) fn restore_locals(&mut self, saved: Vec<(String, Variable)>)
        requires
            unique_names(saved@),
        ensures
            final(self)@ == (DecoderView { local: vars_map(saved@), ..old(self)@ }),
    {
        proof {
            use_type_invariant(&*self);
        }
        self.local_context = saved;
        assert(self@ =~= (DecoderView { local: vars_map(saved@), ..old(self)@ }));
    }
    /// Whether the local (`is_local`) or the global table holds `name`.
    pub(crate) fn table_has(&self, name: &str, is_local: bool) -> (r: bool)
        ensures
            r == (if is_local { self@.local } else { self@.global }).contains_key(name@),
    {
        proof {
            use_type_invariant(self);
        }
        let found = if is_local { find_name(&self.local_context, name) } else { find_name(&self.global_context, name) };
        match found {
            Some(j) => {
                proof {
                    if is_local {
                        lemma_pairs_map_index(self.local_context@, j as int);
                    } else {
                        lemma_pairs_map_index(self.global_context@, j as int);
                    }
                }
                true
            },
            None => {
                proof {
                    if is_local {
                        lemma_pairs_map_absent(self.local_context@, name@);
                    } else {
                        lemma_pairs_map_absent(self.global_context@, name@);
                    }
                }
                false
            },
        }
    }

    /// The memory address of the variable `name` in the local (`is_local`) or the global table.
    pub(crate) fn table_address(&self, name: &str, is_local: bool) -> (r: Option<usize>)
        ensures
            match r {
                Some(a) => (if is_local { self@.local } else { self@.global }).contains_key(name@)
                    && a == (if is_local { self@.local } else { self@.global })[name@].address,
                None => !(if is_local { self@.local } else { self@.global }).contains_key(name@),
            },
    {
        proof {
            use_type_invariant(self);
        }
        let found = if is_local { find_name(&self.local_context, name) } else { find_name(&self.global_context, name) };
        match found {
            Some(j) => {
                proof {
                    if is_local {
                        lemma_pairs_map_index(self.local_context@, j as int);
                    } else {
                        lemma_pairs_map_index(self.global_context@, j as int);
                    }
                }
                if is_local {
                    Some(self.local_context[j].1.address)
                } else {
                    Some(self.global_context[j].1.address)
                }
            },
            None => {
                proof {
                    if is_local {
                        lemma_pairs_map_absent(self.local_context@, name@);
                    } else {
                        lemma_pairs_map_absent(self.global_context@, name@);
                    }
                }
                None
            },
        }
    }

    /// The entry function the program declared, if any.
    pub(crate) fn entry_name(&self) -> (r: Option<String>)
        ensures
            match r {
                Some(e) => self@.entry == Some(e@),
                None => self@.entry is None,
            },
    {
        match &self.entry {
            Some(e) => Some(e.clone()),
            None => None,
        }
    }

    /// Makes a new memory cell holding `v`; its address is returned.
    pub(crate) fn new_cell(&mut self, v: RtValue) -> (a: usize)
        ensures
            a == old(self)@.memory.len(),
            final(self)@ == alloc_spec(old(self)@, v.sv()),
    {
        proof {
            use_type_invariant(&*self);
        }
        let a = self.memory.len();
        let ghost c = v.sv();
        let mut cells: Vec<MemCell> = Vec::new();
        std::mem::swap(&mut cells, &mut self.memory);
        cells.push(MemCell::Value(v));
        std::mem::swap(&mut cells, &mut self.memory);
        assert(self@ =~= alloc_spec(old(self)@, c));
        a
    }

    /// Sets the memory cell at `address`, when there is one.
    pub(crate) fn write_cell(&mut self, address: usize, c: MemCell)
        ensures
            final(self)@ == write_spec(old(self)@, address, c.sv()),
    {
        proof {
            use_type_invariant(&*self);
        }
        let ghost cv = c.sv();
        if address < self.memory.len() {
            let mut cells: Vec<MemCell> = Vec::new();
            std::mem::swap(&mut cells, &mut self.memory);
            cells.set(address, c);
            std::mem::swap(&mut cells, &mut self.memory);
        }
        assert(self@ =~= write_spec(old(self)@, address, cv));
    }

    /// Gives the interpreter the results of floating-point work, in the order evaluation asks
    /// for them; none is taken yet.
    pub fn set_float_answers(&mut self, answers: Vec<FloatAnswer>)
        ensures
            final(self)@ == (DecoderView { answers: answers_view(answers@), used: 0, ..old(self)@ }),
    {
        proof {
            use_type_invariant(&*self);
        }
        self.answers = answers;
        self.used = 0;
        assert(self@ =~= (DecoderView { answers: answers_view(self.answers@), used: 0, ..old(self)@ }));
    }

    /// Takes the next result of floating-point work, if the caller gave one.
    pub(crate) fn take_answer(&mut self) -> (r: Option<FloatAnswer>)
        ensures
            old(self)@.used < old(self)@.answers.len() ==> (r matches Some(a) && a.sv() == old(self)@.answers[old(self)@.used as int]
                && final(self)@ == (DecoderView { used: old(self)@.used + 1, ..old(self)@ })),
            old(self)@.used >= old(self)@.answers.len() ==> r is None && final(self)@ == old(self)@,
    {
        proof {
            use_type_invariant(&*self);
        }
        if self.used < self.answers.len() {
            let a = match &self.answers[self.used] {
                FloatAnswer::Value(v) => FloatAnswer::Value(v.copy()),
                FloatAnswer::DivisionByZero => FloatAnswer::DivisionByZero,
            };
            self.used = self.used + 1;
            assert(self@ =~= (DecoderView { used: old(self)@.used + 1, ..old(self)@ }));
            Some(a)
        } else {
            None
        }
    }

}

} // verus!
