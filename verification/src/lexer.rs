//! The lexer: source text to tokens with the line and column where each one starts.
use vstd::prelude::*;
use crate::types::{TokenType, TokenKind, strings_view, clone_strings, kind_debug};
use crate::text::{str_debug, debug_str};
use crate::error::{decimal, usize_to_decimal};
use crate::text::{
    chars_of, is_whitespace, is_alphanumeric, is_digit10, string_from, unicode_whitespace,
    unicode_alphanumeric, is_decimal_digit,
};
use crate::error::{error_report, renders, message_pieces, MessageView};

verus! {

/// A token: its text, its kind, and the line and column where it starts.
#[derive(Debug)]
pub struct Token {
    token_value: String,
    token_type: TokenType,
    line: usize,
    column: usize,
}

/// The mathematical value of a token.
pub struct TokenView {
    pub value: Seq<char>,
    pub kind: TokenKind,
    pub line: usize,
    pub column: usize,
}

impl View for Token {
    type V = TokenView;

    closed spec fn view(&self) -> TokenView {
        TokenView {
            value: self.token_value@,
            kind: self.token_type@,
            line: self.line,
            column: self.column,
        }
    }
}

/// The views of a list of tokens.
pub open spec fn tokens_view(ts: Seq<Token>) -> Seq<TokenView> {
    ts.map_values(|t: Token| t@)
}

impl Clone for Token {
    fn clone(&self) -> (r: Self)
        ensures
            r@ == self@,
    {
        Token {
            token_value: self.token_value.clone(),
            token_type: self.token_type.clone(),
            line: self.line,
            column: self.column,
        }
    }
}

impl Token {
    pub(crate) fn new(token_value: String, token_type: TokenType, line: usize, column: usize) -> (t: Self)
        ensures
            t@ == (TokenView { value: token_value@, kind: token_type@, line, column }),
    {
        Token { token_value, token_type, line, column }
    }

    /// The token's text.
    pub fn token_value(&self) -> (r: String)
        ensures
            r@ == self@.value,
    {
        self.token_value.clone()
    }

    /// The token's kind.
    pub fn token_type(&self) -> (r: TokenType)
        ensures
            r@ == self@.kind,
    {
        self.token_type.clone()
    }

    /// The line where the token starts.
    pub fn line(&self) -> (r: usize)
        ensures
            r == self@.line,
    {
        self.line
    }

    /// The column where the token starts.
    pub fn column(&self) -> (r: usize)
        ensures
            r == self@.column,
    {
        self.column
    }

    /// The token's text, borrowed.
    pub fn value_str(&self) -> (r: &str)
        ensures
            r@ == self@.value,
    {
        self.token_value.as_str()
    }

    /// The token's kind, borrowed.
    pub fn kind(&self) -> (r: &TokenType)
        ensures
            r@ == self@.kind,
    {
        &self.token_type
    }
}

/// A token as `Debug` writes it.
pub open spec fn token_debug(t: TokenView) -> Seq<char> {
    "Token { token_value: "@ + str_debug(t.value) + ", token_type: "@ + kind_debug(t.kind) + ", line: "@
        + decimal(t.line as nat) + ", column: "@ + decimal(t.column as nat) + " }"@
}


impl Token {
    /// The token as `Debug` writes it.
    pub fn debug_text(&self) -> (r: String)
        ensures
            r@ == token_debug(self@),
    {
        let mut r = String::from_str("Token { token_value: ");
        r.append(debug_str(self.token_value.as_str()).as_str());
        r.append(", token_type: ");
        r.append(self.token_type.debug_text().as_str());
        r.append(", line: ");
        r.append(usize_to_decimal(self.line).as_str());
        r.append(", column: ");
        r.append(usize_to_decimal(self.column).as_str());
        r.append(" }");
        r
    }
}

/// Why the lexer stopped.
#[derive(Clone, Copy, PartialEq, Eq, Structural, Debug)]
pub enum LexFault {
    SingleQuoteNotClosed,
    DoubleQuoteNotClosed,
    CommentNotClosed,
    Unprocessable,
}

/// The message that reports a fault.
pub open spec fn fault_message(f: LexFault) -> Seq<char> {
    match f {
        LexFault::SingleQuoteNotClosed => "Single quote not closed"@,
        LexFault::DoubleQuoteNotClosed => "Double quote not closed"@,
        LexFault::CommentNotClosed => "Multi-line comment not closed"@,
        LexFault::Unprocessable => "Unable to process input_content"@,
    }
}

/// The characters that stand alone as one-character tokens.
pub open spec fn lexer_symbol(c: char) -> bool {
    c == '(' || c == ')' || c == ',' || c == '=' || c == ';' || c == '@' || c == '{' || c == '}'
        || c == '<' || c == '>' || c == ':' || c == '[' || c == ']'
}

/// The kind of a one-character symbol token.
pub open spec fn symbol_kind(c: char) -> TokenType {
    if c == '(' { TokenType::LeftParen }
    else if c == ')' { TokenType::RightParen }
    else if c == '{' { TokenType::LeftCurlyBrace }
    else if c == '}' { TokenType::RightCurlyBrace }
    else if c == '[' { TokenType::LeftSquareBrace }
    else if c == ']' { TokenType::RightSquareBrace }
    else if c == ',' { TokenType::Conma }
    else if c == '=' { TokenType::Equals }
    else if c == '@' { TokenType::AtSign }
    else if c == ';' { TokenType::Semi }
    else { TokenType::Colon }
}

/// The end of a number starting at `j`: digits, with at most one decimal point.
pub open spec fn number_end(s: Seq<char>, j: int, dot: bool) -> int
    decreases s.len() - j,
{
    if j < 0 || j >= s.len() {
        j
    } else if is_decimal_digit(s[j]) {
        number_end(s, j + 1, dot)
    } else if s[j] == '.' && !dot {
        number_end(s, j + 1, true)
    } else {
        j
    }
}

/// The end of an identifier starting at `j`: alphanumeric characters and underscores.
pub open spec fn ident_end(s: Seq<char>, j: int) -> int
    decreases s.len() - j,
{
    if 0 <= j < s.len() && (unicode_alphanumeric(s[j]) || s[j] == '_') {
        ident_end(s, j + 1)
    } else {
        j
    }
}

/// The first position at or after `j` that holds `c`, or the end of `s`.
pub open spec fn find_from(s: Seq<char>, j: int, c: char) -> int
    decreases s.len() - j,
{
    if j < 0 || j >= s.len() {
        s.len() as int
    } else if s[j] == c {
        j
    } else {
        find_from(s, j + 1, c)
    }
}

/// How a block comment ends.
pub enum BlockEnd {
    /// Closed before `next`, with these lines, leaving the lexer at this line and column.
    Closed(int, Seq<Seq<char>>, int, int),
    /// The input ended first; the lexer stands at this line and column.
    Open(int, int),
}

/// Scans the body of a block comment from `j`: `cur` is the line being read and
/// `lines` the lines already complete.
pub open spec fn block_scan(s: Seq<char>, j: int, cur: Seq<char>, lines: Seq<Seq<char>>, line: int, col: int) -> BlockEnd
    decreases s.len() - j,
{
    if j < 0 || j >= s.len() {
        BlockEnd::Open(line, col)
    } else if s[j] == '*' && j + 1 < s.len() && s[j + 1] == '/' {
        BlockEnd::Closed(j + 2, if cur.len() > 0 { lines.push(cur) } else { lines }, line, col + 1)
    } else if s[j] == '\n' {
        block_scan(s, j + 1, Seq::empty(), lines.push(cur), line + 1, 1)
    } else {
        block_scan(s, j + 1, cur.push(s[j]), lines, line, col + 1)
    }
}

/// Lines joined with `\n` between them.
pub open spec fn join_lines(ls: Seq<Seq<char>>) -> Seq<char>
    decreases ls.len(),
{
    if ls.len() == 0 {
        Seq::empty()
    } else if ls.len() == 1 {
        ls[0]
    } else {
        join_lines(ls.drop_last()) + seq!['\n'] + ls.last()
    }
}

/// What one step of the lexer does at position `i`.
pub enum Step {
    /// A token, then the next position, line and column.
    Emit(TokenView, int, int, int),
    /// No token; the next position, line and column.
    Skip(int, int, int),
    /// A fault; the line and column the lexer has reached.
    Fail(LexFault, int, int),
}

/// A token at the given position.
pub open spec fn tok(value: Seq<char>, kind: TokenKind, line: int, col: int) -> TokenView {
    TokenView { value, kind, line: line as usize, column: col as usize }
}

/// A token of a kind without payload.
pub open spec fn plain(value: Seq<char>, kind: TokenType, line: int, col: int) -> TokenView {
    tok(value, TokenKind::Plain(kind), line, col)
}

/// A token of two characters.
pub open spec fn emit2(a: char, b: char, kind: TokenType, i: int, line: int, col: int) -> Step {
    Step::Emit(plain(seq![a, b], kind, line, col), i + 2, line, col + 2)
}

/// A token of one character.
pub open spec fn emit1(a: char, kind: TokenType, i: int, line: int, col: int) -> Step {
    Step::Emit(plain(seq![a], kind, line, col), i + 1, line, col + 1)
}

/// One step of the lexer at position `i` of `s`, on a character that is not a quote,
/// a slash, a digit or part of an identifier.
pub open spec fn operator_step(s: Seq<char>, i: int, line: int, col: int) -> Step {
    let c = s[i];
    let has_next = i + 1 < s.len();
    let d = if has_next { s[i + 1] } else { ' ' };
    let skip = Step::Skip(i + 1, line, col + 1);
    if c == '=' {
        if !has_next { skip } else if d == '=' { emit2('=', '=', TokenType::Eq, i, line, col) }
        else { emit1('=', TokenType::Equals, i, line, col) }
    } else if c == '!' {
        if has_next && d == '=' { emit2('!', '=', TokenType::Ne, i, line, col) } else { skip }
    } else if c == '<' {
        if !has_next { skip } else if d == '=' { emit2('<', '=', TokenType::Le, i, line, col) }
        else { emit1('<', TokenType::Lt, i, line, col) }
    } else if c == '>' {
        if !has_next { skip } else if d == '=' { emit2('>', '=', TokenType::Ge, i, line, col) }
        else { emit1('>', TokenType::Gt, i, line, col) }
    } else if c == '&' {
        if has_next && d == '&' { emit2('&', '&', TokenType::And, i, line, col) }
        else { emit1('&', TokenType::Reference, i, line, col) }
    } else if c == '|' {
        if has_next && d == '|' { emit2('|', '|', TokenType::Or, i, line, col) } else { skip }
    } else if c == '+' {
        if !has_next { skip }
        else if d == '+' { emit2('+', '+', TokenType::Increment, i, line, col) }
        else if d == '=' { emit2('+', '=', TokenType::AddAssign, i, line, col) }
        else { emit1('+', TokenType::Add, i, line, col) }
    } else if c == '-' {
        if !has_next { skip }
        else if d == '-' { emit2('-', '-', TokenType::Decrement, i, line, col) }
        else if d == '=' { emit2('-', '=', TokenType::SubAssign, i, line, col) }
        else if d == '>' { emit2('-', '>', TokenType::RightArrow, i, line, col) }
        else { emit1('-', TokenType::Sub, i, line, col) }
    } else if c == '*' {
        if !has_next { skip }
        else if d == '=' { emit2('*', '=', TokenType::MulAssign, i, line, col) }
        else { emit1('*', TokenType::Mul, i, line, col) }
    } else if lexer_symbol(c) {
        emit1(c, symbol_kind(c), i, line, col)
    } else {
        Step::Fail(LexFault::Unprocessable, line, col)
    }
}

/// One step of the lexer at a slash.
pub open spec fn slash_step(s: Seq<char>, i: int, line: int, col: int) -> Step {
    if i + 1 < s.len() && s[i + 1] == '=' {
        emit2('/', '=', TokenType::DivAssign, i, line, col)
    } else if i + 1 < s.len() && s[i + 1] == '/' {
        let e = find_from(s, i + 2, '\n');
        let text = s.subrange(i + 2, e);
        Step::Emit(tok(text, TokenKind::SingleComment(text, (line as usize, col as usize)), line, col), e, line, col + (e - i))
    } else if i + 1 < s.len() && s[i + 1] == '*' {
        match block_scan(s, i + 2, Seq::empty(), Seq::empty(), line, col + 2) {
            BlockEnd::Closed(n, ls, l2, c2) => Step::Emit(
                tok(join_lines(ls), TokenKind::MultiComment(ls, (line as usize, col as usize)), line, col),
                n,
                l2,
                c2,
            ),
            BlockEnd::Open(l2, c2) => Step::Fail(LexFault::CommentNotClosed, l2, c2),
        }
    } else {
        emit1('/', TokenType::Div, i, line, col)
    }
}

/// One step of the lexer at a quote `q`: the text up to the closing quote.
pub open spec fn quote_step(s: Seq<char>, i: int, line: int, col: int, q: char, kind: TokenType, fault: LexFault) -> Step {
    let k = find_from(s, i + 1, q);
    if k < s.len() {
        Step::Emit(plain(s.subrange(i + 1, k), kind, line, col), k + 1, line, col + (k + 1 - i))
    } else {
        Step::Fail(fault, line, col + (s.len() - i))
    }
}

/// One step of the lexer at position `i` of `s`, at the given line and column.
pub open spec fn lex_step(s: Seq<char>, i: int, line: int, col: int) -> Step {
    let c = s[i];
    if unicode_whitespace(c) {
        if c == '\n' { Step::Skip(i + 1, line + 1, 1) } else { Step::Skip(i + 1, line, col + 1) }
    } else if is_decimal_digit(c) {
        let e = number_end(s, i, false);
        Step::Emit(plain(s.subrange(i, e), TokenType::Ident, line, col), e, line, col + (e - i))
    } else if unicode_alphanumeric(c) || c == '_' {
        let e = ident_end(s, i);
        Step::Emit(plain(s.subrange(i, e), TokenType::Ident, line, col), e, line, col + (e - i))
    } else if c == '\'' {
        quote_step(s, i, line, col, '\'', TokenType::SingleQuote, LexFault::SingleQuoteNotClosed)
    } else if c == '"' {
        quote_step(s, i, line, col, '"', TokenType::DoubleQuote, LexFault::DoubleQuoteNotClosed)
    } else if c == '/' {
        slash_step(s, i, line, col)
    } else {
        operator_step(s, i, line, col)
    }
}

/// The outcome of lexing.
pub enum LexOutcome {
    /// The tokens, and the line and column after the input.
    Done(Seq<TokenView>, int, int),
    /// A fault at a token starting at the first line and column; the lexer stands at the second.
    Failed(LexFault, int, int, int, int),
}

/// The next position after a step.
pub open spec fn step_next(st: Step, i: int) -> int {
    match st {
        Step::Emit(_, n, _, _) => n,
        Step::Skip(n, _, _) => n,
        Step::Fail(_, _, _) => i + 1,
    }
}


/// A number ends at or after where it is scanned from, within the text.
pub proof fn lemma_number_end(s: Seq<char>, j: int, dot: bool)
    requires
        0 <= j <= s.len(),
    ensures
        j <= number_end(s, j, dot) <= s.len(),
    decreases s.len() - j,
{
    if j < s.len() {
        if is_decimal_digit(s[j]) {
            lemma_number_end(s, j + 1, dot);
        } else if s[j] == '.' && !dot {
            lemma_number_end(s, j + 1, true);
        }
    }
}

/// A name ends at or after where it is scanned from, within the text.
pub proof fn lemma_ident_end(s: Seq<char>, j: int)
    requires
        0 <= j <= s.len(),
    ensures
        j <= ident_end(s, j) <= s.len(),
    decreases s.len() - j,
{
    if j < s.len() && (unicode_alphanumeric(s[j]) || s[j] == '_') {
        lemma_ident_end(s, j + 1);
    }
}

/// The search for a character ends within the text, at that character or at the end.
pub proof fn lemma_find_from(s: Seq<char>, j: int, c: char)
    requires
        0 <= j <= s.len(),
    ensures
        j <= find_from(s, j, c) <= s.len(),
        find_from(s, j, c) < s.len() ==> s[find_from(s, j, c)] == c,
        forall|k: int| j <= k < find_from(s, j, c) ==> s[k] != c,
    decreases s.len() - j,
{
    if j < s.len() && s[j] != c {
        lemma_find_from(s, j + 1, c);
    }
}

/// The span a block comment leaves behind: where it ends and how far line and column move.
pub open spec fn block_bounded(s: Seq<char>, j: int, line: int, col: int, r: BlockEnd) -> bool {
    match r {
        BlockEnd::Closed(n, _, l2, c2) => j + 2 <= n <= s.len() && l2 + (s.len() - n) <= line + (s.len() - j)
            && (col >= 1 ==> c2 + (s.len() - n) <= col + (s.len() - j) && c2 >= 1) && l2 >= line,
        BlockEnd::Open(l2, c2) => l2 <= line + (s.len() - j) && (col >= 1 ==> c2 <= col + (s.len() - j) && c2 >= 1)
            && l2 >= line,
    }
}

/// Where scanning a comment leaves the lexer, and how far it can get.
pub proof fn lemma_block_scan(s: Seq<char>, j: int, cur: Seq<char>, lines: Seq<Seq<char>>, line: int, col: int)
    requires
        0 <= j <= s.len(),
    ensures
        block_bounded(s, j, line, col, block_scan(s, j, cur, lines, line, col)),
    decreases s.len() - j,
{
    if j < s.len() {
        if s[j] == '*' && j + 1 < s.len() && s[j + 1] == '/' {
        } else if s[j] == '\n' {
            lemma_block_scan(s, j + 1, Seq::empty(), lines.push(cur), line + 1, 1);
        } else {
            lemma_block_scan(s, j + 1, cur.push(s[j]), lines, line, col + 1);
        }
    }
}

/// A step moves forward, and its line and column move no further than the characters it reads.
pub open spec fn step_bounded(s: Seq<char>, i: int, line: int, col: int, st: Step) -> bool {
    match st {
        Step::Emit(t, n, l2, c2) => i < n <= s.len() && l2 + (s.len() - n) <= line + (s.len() - i)
            && c2 + (s.len() - n) <= col + (s.len() - i) && l2 >= line && c2 >= 1
            && t.line == line && t.column == col,
        Step::Skip(n, l2, c2) => i < n <= s.len() && l2 + (s.len() - n) <= line + (s.len() - i)
            && c2 + (s.len() - n) <= col + (s.len() - i) && l2 >= line && c2 >= 1,
        Step::Fail(_, l2, c2) => l2 <= line + (s.len() - i) && c2 <= col + (s.len() - i) && l2 >= line && c2 >= 1,
    }
}

/// One step of the lexer keeps the line and column within what the rest of the text allows.
pub proof fn lemma_step_bounded(s: Seq<char>, i: int, line: int, col: int)
    requires
        0 <= i < s.len(),
        1 <= col <= usize::MAX,
        0 <= line <= usize::MAX,
    ensures
        step_bounded(s, i, line, col, lex_step(s, i, line, col)),
{
    let c = s[i];
    if unicode_whitespace(c) {
    } else if is_decimal_digit(c) {
        lemma_number_end(s, i, false);
        lemma_number_end(s, i + 1, false);
    } else if unicode_alphanumeric(c) || c == '_' {
        lemma_ident_end(s, i + 1);
    } else if c == '\'' || c == '"' {
        lemma_find_from(s, i + 1, c);
    } else if c == '/' {
        if i + 1 < s.len() && s[i + 1] == '/' {
            lemma_find_from(s, i + 2, '\n');
        } else if i + 1 < s.len() && s[i + 1] == '*' {
            lemma_block_scan(s, i + 2, Seq::empty(), Seq::empty(), line, col + 2);
        }
    }
}

/// One step of the lexer takes at least one character.
pub proof fn lemma_step_advances(s: Seq<char>, i: int, line: int, col: int)
    requires
        0 <= i < s.len(),
    ensures
        i < step_next(lex_step(s, i, line, col), i) <= s.len(),
{
    let c = s[i];
    if unicode_whitespace(c) {
    } else if is_decimal_digit(c) {
        lemma_number_end(s, i, false);
        lemma_number_end(s, i + 1, false);
    } else if unicode_alphanumeric(c) || c == '_' {
        lemma_ident_end(s, i + 1);
    } else if c == '\'' || c == '"' {
        lemma_find_from(s, i + 1, c);
    } else if c == '/' {
        if i + 1 < s.len() && s[i + 1] == '/' {
            lemma_find_from(s, i + 2, '\n');
        } else if i + 1 < s.len() && s[i + 1] == '*' {
            lemma_block_scan(s, i + 2, Seq::empty(), Seq::empty(), line, col + 2);
        }
    }
}

/// Lexes `s` from `i`, after the tokens `acc`.
pub open spec fn lex_from(s: Seq<char>, i: int, line: int, col: int, acc: Seq<TokenView>) -> LexOutcome
    decreases s.len() - i,
{
    if i < 0 || i >= s.len() {
        LexOutcome::Done(acc, line, col)
    } else {
        let st = lex_step(s, i, line, col);
        proof {
            lemma_step_advances(s, i, line, col);
            assert(step_next(st, i) > i);
        }
        match st {
            Step::Emit(t, n, l, c) => {
                proof {
                    assert(n > i);
                }
                lex_from(s, n, l, c, acc.push(t))
            },
            Step::Skip(n, l, c) => lex_from(s, n, l, c, acc),
            Step::Fail(f, l, c) => LexOutcome::Failed(f, line, col, l, c),
        }
    }
}

/// Lexes the inputs `ins[k..]` one after the other, the line and column running on
/// from one input to the next.
pub open spec fn lex_inputs(ins: Seq<Seq<char>>, k: int, line: int, col: int, acc: Seq<TokenView>) -> LexOutcome
    decreases ins.len() - k,
{
    if k < 0 || k >= ins.len() {
        LexOutcome::Done(acc, line, col)
    } else {
        match lex_from(ins[k], 0, line, col, acc) {
            LexOutcome::Done(ts, l, c) => lex_inputs(ins, k + 1, l, c, ts),
            f => f,
        }
    }
}

/// The number of characters in all inputs.
pub open spec fn total_len(ins: Seq<Seq<char>>) -> int
    decreases ins.len(),
{
    if ins.len() == 0 { 0 } else { total_len(ins.drop_last()) + ins.last().len() }
}

/// The end-of-input token, placed where the last token starts, or at the lexer's
/// position when there is no token.
pub open spec fn eof_token(ts: Seq<TokenView>, line: int, col: int) -> TokenView {
    if ts.len() > 0 {
        plain(Seq::empty(), TokenType::Eof, ts.last().line as int, ts.last().column as int)
    } else {
        plain(Seq::empty(), TokenType::Eof, line, col)
    }
}

/// The lexer and the text it reads.
#[derive(Debug)]
pub struct Lexer {
    input_content: String,
    input_path: String,
    input_content_vec: Vec<String>,
    line: usize,
    column: usize,
}

/// The mathematical value of a lexer.
pub struct LexerView {
    pub input_content: Seq<char>,
    pub input_path: Seq<char>,
    pub input_content_vec: Seq<Seq<char>>,
    pub line: usize,
    pub column: usize,
}

impl View for Lexer {
    type V = LexerView;

    closed spec fn view(&self) -> LexerView {
        LexerView {
            input_content: self.input_content@,
            input_path: self.input_path@,
            input_content_vec: strings_view(self.input_content_vec@),
            line: self.line,
            column: self.column,
        }
    }
}

impl LexerView {
    /// The texts that `tokenize` reads: the list when it is not empty, else the content.
    pub open spec fn inputs(self) -> Seq<Seq<char>> {
        if self.input_content_vec.len() == 0 { seq![self.input_content] } else { self.input_content_vec }
    }

    /// What `tokenize` yields: the tokens and the end-of-input token, or the error that
    /// reports the fault at the position of the token where it arose; and the line and
    /// column the lexer stands at afterwards.
    pub open spec fn tokenize_outcome(self) -> LexOutcome {
        lex_inputs(self.inputs(), 0, self.line as int, self.column as int, Seq::empty())
    }

    /// The lexer's positions fit in `usize` however far the input takes them.
    pub open spec fn fits(self) -> bool {
        &&& self.line as int + total_len(self.inputs()) <= usize::MAX
        &&& self.column as int + total_len(self.inputs()) <= usize::MAX
    }

    /// The message of a fault at a position, as the error text reports it.
    pub open spec fn fault_report(self, f: LexFault, line: int, col: int) -> MessageView {
        MessageView {
            level: "error"@,
            lines: seq![(line as usize, col as usize)],
            message: fault_message(f),
            children: Seq::empty(),
        }
    }
}

impl Lexer {
    #[verifier::type_invariant]
    spec fn positions_from_one(self) -> bool {
        self.line >= 1 && self.column >= 1
    }

    /// A lexer with no input, at line 1, column 1.
    pub fn new() -> (l: Self)
        ensures
            l@.input_content == Seq::<char>::empty(),
            l@.input_path == Seq::<char>::empty(),
            l@.input_content_vec == Seq::<Seq<char>>::empty(),
            l@.line == 1,
            l@.column == 1,
    {
        let l = Lexer {
            input_path: String::new(),
            input_content: String::new(),
            input_content_vec: Vec::new(),
            line: 1,
            column: 1,
        };
        assert(l@.input_content_vec =~= Seq::<Seq<char>>::empty());
        l
    }

    /// A lexer over a list of texts, read one after the other.
    pub fn new_with_value_vec(input_content_vec: Vec<String>) -> (l: Self)
        ensures
            l@.input_content == Seq::<char>::empty(),
            l@.input_path == Seq::<char>::empty(),
            l@.input_content_vec == strings_view(input_content_vec@),
            l@.line == 1,
            l@.column == 1,
    {
        Lexer {
            input_path: String::new(),
            input_content: String::new(),
            input_content_vec,
            line: 1,
            column: 1,
        }
    }

    /// A lexer over one text, read from the given path.
    pub fn new_with_value(input_path: String, input_content: String) -> (l: Self)
        ensures
            l@.input_content == input_content@,
            l@.input_path == input_path@,
            l@.input_content_vec == Seq::<Seq<char>>::empty(),
            l@.line == 1,
            l@.column == 1,
    {
        let l = Lexer {
            input_path,
            input_content,
            input_content_vec: Vec::new(),
            line: 1,
            column: 1,
        };
        assert(l@.input_content_vec =~= Seq::<Seq<char>>::empty());
        l
    }

    /// Whether `c` stands alone as a one-character token.
    fn is_symbol(&self, c: char) -> (r: bool)
        ensures
            r == lexer_symbol(c),
    {
        c == '(' || c == ')' || c == ',' || c == '=' || c == ';' || c == '@' || c == '{' || c == '}'
            || c == '<' || c == '>' || c == ':' || c == '[' || c == ']'
    }
}


/// What one step of the lexer produced.
pub(crate) enum StepOut {
    Emit(Token, usize, usize, usize),
    Skip(usize, usize, usize),
    Fail(LexFault, usize, usize),
}

pub(crate) open spec fn step_view(o: StepOut) -> Step {
    match o {
        StepOut::Emit(t, n, l, c) => Step::Emit(t@, n as int, l as int, c as int),
        StepOut::Skip(n, l, c) => Step::Skip(n as int, l as int, c as int),
        StepOut::Fail(f, l, c) => Step::Fail(f, l as int, c as int),
    }
}

/// A kind without payload.
pub(crate) open spec fn payload_free(k: TokenType) -> bool {
    !(k is SingleComment) && !(k is MultiComment)
}

/// A token of the two characters at `i`.
pub(crate) fn emit_two(s: &Vec<char>, i: usize, kind: TokenType, line: usize, col: usize) -> (o: StepOut)
    requires
        i + 2 <= s.len(),
        col + 2 <= usize::MAX,
        payload_free(kind),
    ensures
        step_view(o) == Step::Emit(plain(seq![s@[i as int], s@[i + 1]], kind, line as int, col as int), i + 2, line as int, col + 2),
{
    let v = string_from(s, i, i + 2);
    assert(v@ =~= seq![s@[i as int], s@[i + 1]]);
    StepOut::Emit(Token::new(v, kind, line, col), i + 2, line, col + 2)
}

/// A token of the character at `i`.
pub(crate) fn emit_one(s: &Vec<char>, i: usize, kind: TokenType, line: usize, col: usize) -> (o: StepOut)
    requires
        i + 1 <= s.len(),
        col + 1 <= usize::MAX,
        payload_free(kind),
    ensures
        step_view(o) == Step::Emit(plain(seq![s@[i as int]], kind, line as int, col as int), i + 1, line as int, col + 1),
{
    let v = string_from(s, i, i + 1);
    assert(v@ =~= seq![s@[i as int]]);
    StepOut::Emit(Token::new(v, kind, line, col), i + 1, line, col + 1)
}

/// The end of a number that starts at `i`.
pub(crate) fn scan_number(s: &Vec<char>, i: usize, dot0: bool) -> (e: usize)
    requires
        i < s.len(),
    ensures
        e as int == number_end(s@, i as int, dot0),
{
    let mut j = i;
    let mut dot = dot0;
    while j < s.len() && (is_digit10(s[j]) || (s[j] == '.' && !dot))
        invariant
            i <= j <= s.len(),
            number_end(s@, j as int, dot) == number_end(s@, i as int, dot0),
        decreases s.len() - j,
    {
        if s[j] == '.' && !is_digit10(s[j]) {
            dot = true;
        }
        j += 1;
    }
    j
}

/// The end of an identifier that starts at `i`.
pub(crate) fn scan_ident(s: &Vec<char>, i: usize) -> (e: usize)
    requires
        i <= s.len(),
    ensures
        e as int == ident_end(s@, i as int),
{
    let mut j = i;
    while j < s.len() && (is_alphanumeric(s[j]) || s[j] == '_')
        invariant
            i <= j <= s.len(),
            ident_end(s@, j as int) == ident_end(s@, i as int),
        decreases s.len() - j,
    {
        j += 1;
    }
    j
}

/// The first position at or after `j` that holds `c`, or the end.
pub(crate) fn scan_find(s: &Vec<char>, j: usize, c: char) -> (k: usize)
    requires
        j <= s.len(),
    ensures
        k as int == find_from(s@, j as int, c),
{
    let mut k = j;
    while k < s.len() && s[k] != c
        invariant
            j <= k <= s.len(),
            find_from(s@, k as int, c) == find_from(s@, j as int, c),
        decreases s.len() - k,
    {
        k += 1;
    }
    k
}

/// Lines joined with `\n` between them.
pub(crate) fn join_with_newlines(ls: &Vec<String>) -> (r: String)
    ensures
        r@ == join_lines(strings_view(ls@)),
{
    let mut r = String::new();
    let mut k: usize = 0;
    while k < ls.len()
        invariant
            k <= ls.len(),
            r@ == join_lines(strings_view(ls@).take(k as int)),
        decreases ls.len() - k,
    {
        proof {
            reveal_strlit("\n");
            assert(strings_view(ls@).take(k + 1).drop_last() =~= strings_view(ls@).take(k as int));
        }
        if k > 0 {
            r.append("\n");
        }
        r.append(ls[k].as_str());
        k += 1;
        proof {
            let t = strings_view(ls@).take(k as int);
            if k == 1 {
                assert(strings_view(ls@).take(0) =~= Seq::<Seq<char>>::empty());
                assert(r@ =~= join_lines(t));
            } else {
                assert("\n"@ =~= seq!['\n']);
                assert(r@ =~= join_lines(t));
            }
        }
    }
    assert(strings_view(ls@).take(ls.len() as int) =~= strings_view(ls@));
    r
}

/// Scans the body of a block comment from `j`.
pub(crate) fn scan_block(s: &Vec<char>, j: usize, line: usize, col: usize) -> (r: (bool, usize, Vec<String>, usize, usize))
    requires
        j <= s.len(),
        line + (s.len() - j) <= usize::MAX,
        1 <= col,
        col + (s.len() - j) <= usize::MAX,
    ensures
        block_scan(s@, j as int, Seq::empty(), Seq::empty(), line as int, col as int) == (if r.0 {
            BlockEnd::Closed(r.1 as int, strings_view(r.2@), r.3 as int, r.4 as int)
        } else {
            BlockEnd::Open(r.3 as int, r.4 as int)
        }),
{
    let mut k = j;
    let mut l = line;
    let mut c = col;
    let mut cur = String::new();
    let mut lines: Vec<String> = Vec::new();
    proof {
        assert(cur@ =~= Seq::<char>::empty());
        assert(strings_view(lines@) =~= Seq::<Seq<char>>::empty());
    }
    while k < s.len()
        invariant
            j <= k <= s.len(),
            l + (s.len() - k) <= line + (s.len() - j),
            1 <= c,
            c + (s.len() - k) <= col + (s.len() - j),
            line + (s.len() - j) <= usize::MAX,
            col + (s.len() - j) <= usize::MAX,
            block_scan(s@, k as int, cur@, strings_view(lines@), l as int, c as int)
                == block_scan(s@, j as int, Seq::empty(), Seq::empty(), line as int, col as int),
        decreases s.len() - k,
    {
        if s[k] == '*' && k + 1 < s.len() && s[k + 1] == '/' {
            let ghost before = strings_view(lines@);
            if !cur.as_str().is_empty() {
                lines.push(cur);
                proof {
                    assert(strings_view(lines@) =~= before.push(cur@));
                }
            }
            return (true, k + 2, lines, l, c + 1);
        } else if s[k] == '\n' {
            let ghost before = strings_view(lines@);
            let ghost cv = cur@;
            lines.push(cur);
            cur = String::new();
            l += 1;
            c = 1;
            k += 1;
            proof {
                assert(strings_view(lines@) =~= before.push(cv));
                assert(cur@ =~= Seq::<char>::empty());
            }
        } else {
            cur.push(s[k]);
            c += 1;
            k += 1;
        }
    }
    (false, k, lines, l, c)
}

/// One step at a quote.
fn quote_exec(s: &Vec<char>, i: usize, line: usize, col: usize, q: char, kind: TokenType, fault: LexFault) -> (o: StepOut)
    requires
        i < s.len(),
        col + (s.len() - i) <= usize::MAX,
        payload_free(kind),
    ensures
        step_view(o) == quote_step(s@, i as int, line as int, col as int, q, kind, fault),
{
    let k = scan_find(s, i + 1, q);
    proof {
        lemma_find_from(s@, i + 1, q);
    }
    if k < s.len() {
        let v = string_from(s, i + 1, k);
        StepOut::Emit(Token::new(v, kind, line, col), k + 1, line, col + (k + 1 - i))
    } else {
        StepOut::Fail(fault, line, col + (s.len() - i))
    }
}

/// One step at a slash.
fn slash_exec(s: &Vec<char>, i: usize, line: usize, col: usize) -> (o: StepOut)
    requires
        i < s.len(),
        s@[i as int] == '/',
        line + (s.len() - i) <= usize::MAX,
        1 <= col,
        col + (s.len() - i) <= usize::MAX,
    ensures
        step_view(o) == slash_step(s@, i as int, line as int, col as int),
{
    if i + 1 < s.len() && s[i + 1] == '=' {
        emit_two(s, i, TokenType::DivAssign, line, col)
    } else if i + 1 < s.len() && s[i + 1] == '/' {
        let e = scan_find(s, i + 2, '\n');
        proof {
            lemma_find_from(s@, i + 2, '\n');
        }
        let text = string_from(s, i + 2, e);
        let kind = TokenType::SingleComment(string_from(s, i + 2, e), (line, col));
        StepOut::Emit(Token::new(text, kind, line, col), e, line, col + (e - i))
    } else if i + 1 < s.len() && s[i + 1] == '*' {
        let (closed, n, lines, l2, c2) = scan_block(s, i + 2, line, col + 2);
        if closed {
            let text = join_with_newlines(&lines);
            StepOut::Emit(Token::new(text, TokenType::MultiComment(lines, (line, col)), line, col), n, l2, c2)
        } else {
            StepOut::Fail(LexFault::CommentNotClosed, l2, c2)
        }
    } else {
        emit_one(s, i, TokenType::Div, line, col)
    }
}

/// The kind of a one-character symbol token.
fn symbol_kind_of(c: char) -> (k: TokenType)
    ensures
        k == symbol_kind(c),
{
    if c == '(' { TokenType::LeftParen }
    else if c == ')' { TokenType::RightParen }
    else if c == '{' { TokenType::LeftCurlyBrace }
    else if c == '}' { TokenType::RightCurlyBrace }
    else if c == '[' { TokenType::LeftSquareBrace }
    else if c == ']' { TokenType::RightSquareBrace }
    else if c == ',' { TokenType::Conma }
    else if c == '=' { TokenType::Equals }
    else if c == '@' { TokenType::AtSign }
    else if c == ';' { TokenType::Semi }
    else { TokenType::Colon }
}

impl Lexer {
    /// One step at an operator or symbol character.
    fn operator_exec(&self, s: &Vec<char>, i: usize, line: usize, col: usize) -> (o: StepOut)
        requires
            i < s.len(),
            col + (s.len() - i) <= usize::MAX,
        ensures
            step_view(o) == operator_step(s@, i as int, line as int, col as int),
    {
        let c = s[i];
        let has_next = i + 1 < s.len();
        let d = if has_next { s[i + 1] } else { ' ' };
        let skip = StepOut::Skip(i + 1, line, col + 1);
        if c == '=' {
            if !has_next { skip } else if d == '=' { emit_two(s, i, TokenType::Eq, line, col) }
            else { emit_one(s, i, TokenType::Equals, line, col) }
        } else if c == '!' {
            if has_next && d == '=' { emit_two(s, i, TokenType::Ne, line, col) } else { skip }
        } else if c == '<' {
            if !has_next { skip } else if d == '=' { emit_two(s, i, TokenType::Le, line, col) }
            else { emit_one(s, i, TokenType::Lt, line, col) }
        } else if c == '>' {
            if !has_next { skip } else if d == '=' { emit_two(s, i, TokenType::Ge, line, col) }
            else { emit_one(s, i, TokenType::Gt, line, col) }
        } else if c == '&' {
            if has_next && d == '&' { emit_two(s, i, TokenType::And, line, col) }
            else { emit_one(s, i, TokenType::Reference, line, col) }
        } else if c == '|' {
            if has_next && d == '|' { emit_two(s, i, TokenType::Or, line, col) } else { skip }
        } else if c == '+' {
            if !has_next { skip }
            else if d == '+' { emit_two(s, i, TokenType::Increment, line, col) }
            else if d == '=' { emit_two(s, i, TokenType::AddAssign, line, col) }
            else { emit_one(s, i, TokenType::Add, line, col) }
        } else if c == '-' {
            if !has_next { skip }
            else if d == '-' { emit_two(s, i, TokenType::Decrement, line, col) }
            else if d == '=' { emit_two(s, i, TokenType::SubAssign, line, col) }
            else if d == '>' { emit_two(s, i, TokenType::RightArrow, line, col) }
            else { emit_one(s, i, TokenType::Sub, line, col) }
        } else if c == '*' {
            if !has_next { skip }
            else if d == '=' { emit_two(s, i, TokenType::MulAssign, line, col) }
            else { emit_one(s, i, TokenType::Mul, line, col) }
        } else if self.is_symbol(c) {
            emit_one(s, i, symbol_kind_of(c), line, col)
        } else {
            StepOut::Fail(LexFault::Unprocessable, line, col)
        }
    }

    /// One step of the lexer at position `i`.
    fn step(&self, s: &Vec<char>, i: usize, line: usize, col: usize) -> (o: StepOut)
        requires
            i < s.len(),
            line + (s.len() - i) <= usize::MAX,
            1 <= col,
            col + (s.len() - i) <= usize::MAX,
        ensures
            step_view(o) == lex_step(s@, i as int, line as int, col as int),
    {
        let c = s[i];
        if is_whitespace(c) {
            if c == '\n' { StepOut::Skip(i + 1, line + 1, 1) } else { StepOut::Skip(i + 1, line, col + 1) }
        } else if is_digit10(c) {
            let e = scan_number(s, i, false);
            proof {
                lemma_number_end(s@, i as int, false);
            }
            let v = string_from(s, i, e);
            StepOut::Emit(Token::new(v, TokenType::Ident, line, col), e, line, col + (e - i))
        } else if is_alphanumeric(c) || c == '_' {
            let e = scan_ident(s, i);
            proof {
                lemma_ident_end(s@, i as int);
            }
            let v = string_from(s, i, e);
            StepOut::Emit(Token::new(v, TokenType::Ident, line, col), e, line, col + (e - i))
        } else if c == '\'' {
            quote_exec(s, i, line, col, '\'', TokenType::SingleQuote, LexFault::SingleQuoteNotClosed)
        } else if c == '"' {
            quote_exec(s, i, line, col, '"', TokenType::DoubleQuote, LexFault::DoubleQuoteNotClosed)
        } else if c == '/' {
            slash_exec(s, i, line, col)
        } else {
            self.operator_exec(s, i, line, col)
        }
    }

    /// Lexes all of `s`, appending to `tokens`; the line and column reached, or the fault
    /// with the position of its token and the position reached.
    fn lex_chars(&self, s: &Vec<char>, line0: usize, col0: usize, tokens: &mut Vec<Token>)
        -> (r: Result<(usize, usize), (LexFault, usize, usize, usize, usize)>)
        requires
            line0 + s.len() <= usize::MAX,
            1 <= col0,
            col0 + s.len() <= usize::MAX,
        ensures
            match r {
                Ok((l, c)) => {
                    &&& lex_from(s@, 0, line0 as int, col0 as int, tokens_view(old(tokens)@))
                        == LexOutcome::Done(tokens_view(final(tokens)@), l as int, c as int)
                    &&& line0 <= l <= line0 + s.len()
                    &&& 1 <= c <= col0 + s.len()
                },
                Err((f, sl, sc, l, c)) => {
                    &&& lex_from(s@, 0, line0 as int, col0 as int, tokens_view(old(tokens)@))
                        == LexOutcome::Failed(f, sl as int, sc as int, l as int, c as int)
                    &&& line0 <= sl && 1 <= sc
                    &&& line0 <= l <= line0 + s.len()
                    &&& 1 <= c <= col0 + s.len()
                },
            },
    {
        let mut i: usize = 0;
        let mut line = line0;
        let mut col = col0;
        while i < s.len()
            invariant
                i <= s.len(),
                line0 <= line,
                line + (s.len() - i) <= line0 + s.len(),
                1 <= col,
                col + (s.len() - i) <= col0 + s.len(),
                line0 + s.len() <= usize::MAX,
                col0 + s.len() <= usize::MAX,
                lex_from(s@, 0, line0 as int, col0 as int, tokens_view(old(tokens)@))
                    == lex_from(s@, i as int, line as int, col as int, tokens_view(tokens@)),
            decreases s.len() - i,
        {
            proof {
                lemma_step_bounded(s@, i as int, line as int, col as int);
                lemma_step_advances(s@, i as int, line as int, col as int);
            }
            match self.step(s, i, line, col) {
                StepOut::Emit(t, n, l, c) => {
                    let ghost before = tokens_view(tokens@);
                    let ghost tv = t@;
                    tokens.push(t);
                    proof {
                        assert(tokens_view(tokens@) =~= before.push(tv));
                    }
                    i = n;
                    line = l;
                    col = c;
                },
                StepOut::Skip(n, l, c) => {
                    i = n;
                    line = l;
                    col = c;
                },
                StepOut::Fail(f, l, c) => {
                    return Err((f, line, col, l, c));
                },
            }
        }
        Ok((line, col))
    }
}


/// An outcome after the tokens `acc`.
pub open spec fn after_tokens(o: LexOutcome, acc: Seq<TokenView>) -> LexOutcome {
    match o {
        LexOutcome::Done(ts, l, c) => LexOutcome::Done(acc + ts, l, c),
        f => f,
    }
}

/// Lexing after some tokens yields those tokens, then what lexing alone yields.
pub proof fn lemma_lex_from_acc(s: Seq<char>, i: int, line: int, col: int, acc: Seq<TokenView>)
    ensures
        lex_from(s, i, line, col, acc) == after_tokens(lex_from(s, i, line, col, Seq::empty()), acc),
    decreases s.len() - i,
{
    if i < 0 || i >= s.len() {
        assert(acc + Seq::<TokenView>::empty() =~= acc);
    } else {
        lemma_step_advances(s, i, line, col);
        match lex_step(s, i, line, col) {
            Step::Emit(t, n, l, c) => {
                lemma_lex_from_acc(s, n, l, c, acc.push(t));
                lemma_lex_from_acc(s, n, l, c, Seq::empty().push(t));
                match lex_from(s, n, l, c, Seq::empty()) {
                    LexOutcome::Done(ts, _, _) => {
                        assert(acc.push(t) + ts =~= acc + (Seq::empty().push(t) + ts));
                    },
                    _ => {},
                }
            },
            Step::Skip(n, l, c) => {
                lemma_lex_from_acc(s, n, l, c, acc);
            },
            Step::Fail(_, _, _) => {},
        }
    }
}

/// The characters of all inputs number no fewer than those of the first `m`.
pub proof fn lemma_total_len_prefix(ins: Seq<Seq<char>>, m: int)
    requires
        0 <= m <= ins.len(),
    ensures
        total_len(ins.take(m)) <= total_len(ins),
        total_len(ins) >= 0,
    decreases ins.len(),
{
    if ins.len() > 0 {
        lemma_total_len_prefix(ins.drop_last(), if m == ins.len() { m - 1 } else { m });
        if m == ins.len() {
            assert(ins.take(m) =~= ins);
        } else {
            assert(ins.take(m) =~= ins.drop_last().take(m));
        }
    } else {
        assert(ins.take(m) =~= ins);
    }
}

impl Lexer {
    /// Lexes one text from the lexer's current line and column, and leaves the lexer at the
    /// line and column reached.
    fn tokenize_string(&mut self, input_content: &String) -> (r: Result<Vec<Token>, String>)
        requires
            old(self)@.line + input_content@.len() <= usize::MAX,
            old(self)@.column + input_content@.len() <= usize::MAX,
        ensures
            final(self)@.line <= old(self)@.line + input_content@.len(),
            final(self)@.column <= old(self)@.column + input_content@.len(),
            match lex_from(input_content@, 0, old(self)@.line as int, old(self)@.column as int, Seq::empty()) {
                LexOutcome::Done(ts, l, c) => {
                    &&& r is Ok
                    &&& tokens_view(r->Ok_0@) == ts
                    &&& final(self)@ == LexerView { line: l as usize, column: c as usize, ..old(self)@ }
                    &&& final(self)@.line == l && final(self)@.column == c
                },
                LexOutcome::Failed(f, sl, sc, l, c) => {
                    &&& r is Err
                    &&& renders(r->Err_0@, message_pieces(old(self)@.fault_report(f, sl, sc), old(self)@.input_path, old(self)@.input_content))
                    &&& final(self)@ == LexerView { line: l as usize, column: c as usize, ..old(self)@ }
                    &&& final(self)@.line == l && final(self)@.column == c
                },
            },
    {
        proof {
            use_type_invariant(&*self);
        }
        let s = chars_of(input_content.as_str());
        let mut tokens: Vec<Token> = Vec::new();
        proof {
            assert(tokens_view(tokens@) =~= Seq::<TokenView>::empty());
        }
        match self.lex_chars(&s, self.line, self.column, &mut tokens) {
            Ok((l, c)) => {
                self.line = l;
                self.column = c;
                Ok(tokens)
            },
            Err((f, sl, sc, l, c)) => {
                self.line = l;
                self.column = c;
                let msg = fault_text(f);
                Err(error_report("error", sl, sc, self.input_path.as_str(), self.input_content.as_str(), msg))
            },
        }
    }

    /// Lexes the input: the list of texts one after the other when there is one, else the
    /// content; then adds the end-of-input token.  On a fault, the error text reports it at the
    /// position of the token where it arose, against the content and the path.
    pub fn tokenize(&mut self) -> (r: Result<Vec<Token>, String>)
        requires
            old(self)@.fits(),
        ensures
            match old(self)@.tokenize_outcome() {
                LexOutcome::Done(ts, l, c) => {
                    &&& r is Ok
                    &&& tokens_view(r->Ok_0@) == ts.push(eof_token(ts, l, c))
                    &&& final(self)@ == LexerView { line: l as usize, column: c as usize, ..old(self)@ }
                },
                LexOutcome::Failed(f, sl, sc, l, c) => {
                    &&& r is Err
                    &&& renders(r->Err_0@, message_pieces(old(self)@.fault_report(f, sl, sc), old(self)@.input_path, old(self)@.input_content))
                    &&& final(self)@ == LexerView { line: l as usize, column: c as usize, ..old(self)@ }
                },
            },
    {
        let ghost v0 = self@;
        let ins: Vec<String> = if self.input_content_vec.len() == 0 {
            let mut one: Vec<String> = Vec::new();
            one.push(self.input_content.clone());
            one
        } else {
            clone_strings(&self.input_content_vec)
        };
        let ghost inputs = v0.inputs();
        assert(strings_view(ins@) =~= inputs);
        let mut all: Vec<Token> = Vec::new();
        proof {
            assert(tokens_view(all@) =~= Seq::<TokenView>::empty());
            assert(inputs.take(0) =~= Seq::<Seq<char>>::empty());
        }
        let mut k: usize = 0;
        let mut failure: Option<String> = None;
        while k < ins.len() && failure.is_none()
            invariant
                k <= ins.len(),
                strings_view(ins@) == inputs,
                failure is None ==> {
                    &&& self@ == (LexerView { line: self@.line, column: self@.column, ..v0 })
                    &&& self@.line + (total_len(inputs) - total_len(inputs.take(k as int))) <= usize::MAX
                    &&& self@.column + (total_len(inputs) - total_len(inputs.take(k as int))) <= usize::MAX
                    &&& v0.tokenize_outcome() == lex_inputs(inputs, k as int, self@.line as int, self@.column as int, tokens_view(all@))
                },
                failure matches Some(e) ==> match v0.tokenize_outcome() {
                    LexOutcome::Failed(f, sl, sc, l, c) => {
                        &&& renders(e@, message_pieces(v0.fault_report(f, sl, sc), v0.input_path, v0.input_content))
                        &&& self@ == LexerView { line: l as usize, column: c as usize, ..v0 }
                    },
                    _ => false,
                },
            decreases ins.len() - k,
        {
            let ghost lb = self@.line as int;
            let ghost cb = self@.column as int;
            let ghost accb = tokens_view(all@);
            proof {
                lemma_total_len_prefix(inputs, k + 1);
                assert(inputs.take(k + 1).drop_last() =~= inputs.take(k as int));
                assert(inputs[k as int] == ins@[k as int]@);
                lemma_lex_from_acc(inputs[k as int], 0, lb, cb, accb);
            }
            match self.tokenize_string(&ins[k]) {
                Ok(mut ts) => {
                    let ghost added = tokens_view(ts@);
                    all.append(&mut ts);
                    proof {
                        assert(tokens_view(all@) =~= accb + added);
                        assert(lex_from(inputs[k as int], 0, lb, cb, accb)
                            == LexOutcome::Done(accb + added, self@.line as int, self@.column as int));
                    }
                },
                Err(e) => {
                    proof {
                        let o = lex_from(inputs[k as int], 0, lb, cb, Seq::empty());
                        assert(lex_inputs(inputs, k as int, lb, cb, accb) == o);
                    }
                    failure = Some(e);
                },
            }
            k += 1;
        }
        if let Some(e) = failure {
            return Err(e);
        }
        let ghost ts = tokens_view(all@);
        let (l, c) = if all.len() > 0 {
            (all[all.len() - 1].line, all[all.len() - 1].column)
        } else {
            (self.line, self.column)
        };
        let eof = Token::new(String::new(), TokenType::Eof, l, c);
        all.push(eof);
        proof {
            assert(tokens_view(all@) =~= ts.push(eof_token(ts, self@.line as int, self@.column as int)));
        }
        Ok(all)
    }
}

/// The message that reports a fault.
fn fault_text(f: LexFault) -> (r: &'static str)
    ensures
        r@ == fault_message(f),
{
    match f {
        LexFault::SingleQuoteNotClosed => "Single quote not closed",
        LexFault::DoubleQuoteNotClosed => "Double quote not closed",
        LexFault::CommentNotClosed => "Multi-line comment not closed",
        LexFault::Unprocessable => "Unable to process input_content",
    }
}


/// The lexer that `Lexer::new_with_value` makes from a path and a text.
pub open spec fn fresh_lexer(input_path: Seq<char>, input_content: Seq<char>) -> LexerView {
    LexerView { input_content, input_path, input_content_vec: Seq::empty(), line: 1, column: 1 }
}

/// `r` is what lexing `v` gives: the tokens with the end of input after them, or the report
/// of the fault against the content and the path.
pub open spec fn lexed(v: LexerView, r: Result<Vec<Token>, String>) -> bool {
    match v.tokenize_outcome() {
        LexOutcome::Done(ts, l, c) => r matches Ok(t) && tokens_view(t@) == ts.push(eof_token(ts, l, c)),
        LexOutcome::Failed(f, sl, sc, _, _) => r matches Err(e)
            && renders(e@, message_pieces(v.fault_report(f, sl, sc), v.input_path, v.input_content)),
    }
}

impl Lexer {
    /// Lexes `input_content` read from `input_path`, from line 1, column 1.
    pub fn from_tokenize(input_path: &str, input_content: String) -> (r: Result<Vec<Token>, String>)
        requires
            fresh_lexer(input_path@, input_content@).fits(),
        ensures
            lexed(fresh_lexer(input_path@, input_content@), r),
    {
        let mut lexer = Lexer::new_with_value(String::from_str(input_path), input_content);
        assert(lexer@ == fresh_lexer(input_path@, input_content@));
        lexer.tokenize()
    }
}

impl Lexer {
    /// The text it reads.
    pub fn input_content(&self) -> (r: String)
        ensures
            r@ == self@.input_content,
    {
        self.input_content.clone()
    }

    /// Replaces the text it reads.
    pub fn set_input_content(&mut self, input_content: String)
        ensures
            final(self)@ == (LexerView { input_content: input_content@, ..old(self)@ }),
    {
        proof {
            use_type_invariant(&*self);
        }
        self.input_content = input_content;
    }

    /// The path of the text it reads.
    pub fn input_path(&self) -> (r: String)
        ensures
            r@ == self@.input_path,
    {
        self.input_path.clone()
    }

    /// Replaces the path of the text it reads.
    pub fn set_input_path(&mut self, input_path: String)
        ensures
            final(self)@ == (LexerView { input_path: input_path@, ..old(self)@ }),
    {
        proof {
            use_type_invariant(&*self);
        }
        self.input_path = input_path;
    }

    /// The texts it reads one after the other, when there are any.
    pub fn input_content_vec(&self) -> (r: Vec<String>)
        ensures
            strings_view(r@) == self@.input_content_vec,
    {
        clone_strings(&self.input_content_vec)
    }

    /// Replaces the texts it reads one after the other.
    pub fn set_input_content_vec(&mut self, input_content_vec: Vec<String>)
        ensures
            final(self)@ == (LexerView { input_content_vec: strings_view(input_content_vec@), ..old(self)@ }),
    {
        proof {
            use_type_invariant(&*self);
        }
        self.input_content_vec = input_content_vec;
    }

    /// The line it has reached.
    pub fn line(&self) -> (r: usize)
        ensures
            r == self@.line,
    {
        self.line
    }

    /// The column it has reached.
    pub fn column(&self) -> (r: usize)
        ensures
            r == self@.column,
    {
        self.column
    }
}

/// Position `(l2, c2)` comes strictly after `(l, c)`: on a later line, or further on the line.
pub open spec fn later(l: int, c: int, l2: int, c2: int) -> bool {
    l2 > l || (l2 == l && c2 > c)
}

/// The token `t` starts at or before line `l`, column `c`.
pub open spec fn not_after(t: TokenView, l: int, c: int) -> bool {
    (t.line as int) < l || (t.line as int == l && t.column as int <= c)
}

/// Each token starts at or before every token after it.
pub open spec fn in_order(ts: Seq<TokenView>) -> bool {
    forall|a: int, b: int| 0 <= a < b < ts.len() ==> not_after(ts[a], ts[b].line as int, ts[b].column as int)
}

/// Scanning a comment that gets closed ends strictly after where it starts.
pub proof fn lemma_block_later(s: Seq<char>, j: int, cur: Seq<char>, lines: Seq<Seq<char>>, line: int, col: int)
    requires
        0 <= j <= s.len(),
    ensures
        block_scan(s, j, cur, lines, line, col) matches BlockEnd::Closed(_, _, l2, c2) ==> later(line, col, l2, c2),
    decreases s.len() - j,
{
    if j < s.len() {
        if s[j] == '*' && j + 1 < s.len() && s[j + 1] == '/' {
        } else if s[j] == '\n' {
            lemma_block_scan(s, j + 1, Seq::empty(), lines.push(cur), line + 1, 1);
        } else {
            lemma_block_later(s, j + 1, cur.push(s[j]), lines, line, col + 1);
        }
    }
}

proof fn lemma_step_later(s: Seq<char>, i: int, line: int, col: int)
    requires
        0 <= i < s.len(),
        1 <= col <= usize::MAX,
        0 <= line <= usize::MAX,
    ensures
        match lex_step(s, i, line, col) {
            Step::Emit(_, _, l2, c2) => later(line, col, l2, c2),
            Step::Skip(_, l2, c2) => later(line, col, l2, c2),
            Step::Fail(_, _, _) => true,
        },
{
    lemma_step_bounded(s, i, line, col);
    let c = s[i];
    if unicode_whitespace(c) {
    } else if is_decimal_digit(c) {
        lemma_number_end(s, i, false);
    } else if unicode_alphanumeric(c) || c == '_' {
        lemma_ident_end(s, i + 1);
    } else if c == '\'' || c == '"' {
        lemma_find_from(s, i + 1, c);
    } else if c == '/' {
        if i + 1 < s.len() && s[i + 1] == '/' {
            lemma_find_from(s, i + 2, '\n');
        } else if i + 1 < s.len() && s[i + 1] == '*' {
            lemma_block_later(s, i + 2, Seq::empty(), Seq::empty(), line, col + 2);
        }
    }
}

proof fn lemma_lex_from_order(s: Seq<char>, i: int, line: int, col: int, acc: Seq<TokenView>)
    requires
        0 <= i <= s.len(),
        1 <= col,
        0 <= line,
        line + (s.len() - i) <= usize::MAX,
        col + (s.len() - i) <= usize::MAX,
        in_order(acc),
        forall|k: int| 0 <= k < acc.len() ==> not_after(#[trigger] acc[k], line, col),
    ensures
        lex_from(s, i, line, col, acc) matches LexOutcome::Done(ts, l, c) ==> {
            &&& in_order(ts)
            &&& forall|k: int| 0 <= k < ts.len() ==> not_after(#[trigger] ts[k], l, c)
            &&& 1 <= c && 0 <= l
            &&& l <= line + (s.len() - i) && c <= col + (s.len() - i)
        },
    decreases s.len() - i,
{
    if i < s.len() {
        lemma_step_bounded(s, i, line, col);
        lemma_step_later(s, i, line, col);
        lemma_step_advances(s, i, line, col);
        match lex_step(s, i, line, col) {
            Step::Emit(t, n, l2, c2) => {
                let acc2 = acc.push(t);
                assert forall|a: int, b: int| 0 <= a < b < acc2.len() implies
                    not_after(acc2[a], acc2[b].line as int, acc2[b].column as int) by {
                    if b == acc.len() {
                        assert(acc2[a] == acc[a]);
                    }
                }
                assert forall|k: int| 0 <= k < acc2.len() implies not_after(#[trigger] acc2[k], l2, c2) by {
                    if k < acc.len() {
                        assert(acc2[k] == acc[k]);
                    }
                }
                lemma_lex_from_order(s, n, l2, c2, acc2);
            },
            Step::Skip(n, l2, c2) => {
                lemma_lex_from_order(s, n, l2, c2, acc);
            },
            Step::Fail(_, _, _) => {},
        }
    }
}

proof fn lemma_lex_inputs_order(ins: Seq<Seq<char>>, k: int, line: int, col: int, acc: Seq<TokenView>)
    requires
        0 <= k <= ins.len(),
        1 <= col,
        0 <= line,
        line + (total_len(ins) - total_len(ins.take(k))) <= usize::MAX,
        col + (total_len(ins) - total_len(ins.take(k))) <= usize::MAX,
        in_order(acc),
        forall|j: int| 0 <= j < acc.len() ==> not_after(#[trigger] acc[j], line, col),
    ensures
        lex_inputs(ins, k, line, col, acc) matches LexOutcome::Done(ts, l, c) ==> {
            &&& in_order(ts)
            &&& forall|j: int| 0 <= j < ts.len() ==> not_after(#[trigger] ts[j], l, c)
        },
    decreases ins.len() - k,
{
    if k < ins.len() {
        assert(ins.take(k + 1).drop_last() =~= ins.take(k));
        lemma_total_len_prefix(ins, k + 1);
        lemma_lex_from_order(ins[k], 0, line, col, acc);
        match lex_from(ins[k], 0, line, col, acc) {
            LexOutcome::Done(ts, l, c) => {
                lemma_lex_inputs_order(ins, k + 1, l, c, ts);
            },
            _ => {},
        }
    }
}

/// Once the lexer holds a list of texts, the single text it also holds plays no part in what
/// it yields: two lexers that differ only in that text give the same tokens, or fail at the
/// same fault and position, and fit alike.
pub proof fn law_single_text_ignored_with_list(a: LexerView, b: LexerView)
    requires
        a.input_content_vec.len() > 0,
        b == (LexerView { input_content: b.input_content, ..a }),
    ensures
        a.tokenize_outcome() == b.tokenize_outcome(),
        a.fits() == b.fits(),
{
    assert(a.inputs() == b.inputs());
}

/// The lexer's tokens come in the order of the text: each starts at or before the next, and
/// the end of input stands where the last token starts.
pub proof fn law_tokens_in_order(v: LexerView)
    requires
        v.line >= 1,
        v.column >= 1,
        v.fits(),
    ensures
        v.tokenize_outcome() matches LexOutcome::Done(ts, l, c) ==> in_order(ts.push(eof_token(ts, l, c))),
{
    let ins = v.inputs();
    assert(ins.take(0) =~= Seq::<Seq<char>>::empty());
    lemma_lex_inputs_order(ins, 0, v.line as int, v.column as int, Seq::empty());
    match v.tokenize_outcome() {
        LexOutcome::Done(ts, l, c) => {
            let all = ts.push(eof_token(ts, l, c));
            assert forall|a: int, b: int| 0 <= a < b < all.len() implies
                not_after(all[a], all[b].line as int, all[b].column as int) by {
                if b == ts.len() {
                    assert(all[a] == ts[a]);
                    if a < ts.len() - 1 {
                        assert(not_after(ts[a], ts.last().line as int, ts.last().column as int));
                    }
                }
            }
        },
        _ => {},
    }
}

/// The text every token of a fixed spelling is written with: each operator and symbol kind
/// has exactly one.  Names, numbers, quoted texts, comments and the end of input have none.
pub open spec fn kind_text(k: TokenType) -> Option<Seq<char>> {
    match k {
        TokenType::Add => Some(seq!['+']),
        TokenType::Sub => Some(seq!['-']),
        TokenType::Mul => Some(seq!['*']),
        TokenType::Div => Some(seq!['/']),
        TokenType::Increment => Some(seq!['+', '+']),
        TokenType::Decrement => Some(seq!['-', '-']),
        TokenType::AddAssign => Some(seq!['+', '=']),
        TokenType::SubAssign => Some(seq!['-', '=']),
        TokenType::MulAssign => Some(seq!['*', '=']),
        TokenType::DivAssign => Some(seq!['/', '=']),
        TokenType::Eq => Some(seq!['=', '=']),
        TokenType::Ne => Some(seq!['!', '=']),
        TokenType::Lt => Some(seq!['<']),
        TokenType::Gt => Some(seq!['>']),
        TokenType::Le => Some(seq!['<', '=']),
        TokenType::Ge => Some(seq!['>', '=']),
        TokenType::And => Some(seq!['&', '&']),
        TokenType::Or => Some(seq!['|', '|']),
        TokenType::Reference => Some(seq!['&']),
        TokenType::LeftParen => Some(seq!['(']),
        TokenType::RightParen => Some(seq![')']),
        TokenType::LeftCurlyBrace => Some(seq!['{']),
        TokenType::RightCurlyBrace => Some(seq!['}']),
        TokenType::LeftSquareBrace => Some(seq!['[']),
        TokenType::RightSquareBrace => Some(seq![']']),
        TokenType::Conma => Some(seq![',']),
        TokenType::Equals => Some(seq!['=']),
        TokenType::AtSign => Some(seq!['@']),
        TokenType::Semi => Some(seq![';']),
        TokenType::Colon => Some(seq![':']),
        TokenType::RightArrow => Some(seq!['-', '>']),
        _ => None,
    }
}

/// A token's kind agrees with its text: a name or a quoted text may hold any text, and every
/// other plain token is of a kind with a fixed spelling and is written with exactly it.
pub open spec fn spelled(t: TokenView) -> bool {
    match t.kind {
        TokenKind::Plain(k) => k == TokenType::Ident || k == TokenType::SingleQuote || k == TokenType::DoubleQuote
            || kind_text(k) == Some(t.value),
        _ => true,
    }
}

/// Every token of `ts` agrees with its text.
pub open spec fn all_spelled(ts: Seq<TokenView>) -> bool {
    forall|k: int| 0 <= k < ts.len() ==> spelled(#[trigger] ts[k])
}

proof fn lemma_push_spelled(acc: Seq<TokenView>, t: TokenView)
    requires
        all_spelled(acc),
        spelled(t),
    ensures
        all_spelled(acc.push(t)),
{
    assert forall|k: int| 0 <= k < acc.push(t).len() implies spelled(#[trigger] acc.push(t)[k]) by {
        if k < acc.len() {
            assert(acc.push(t)[k] == acc[k]);
        }
    }
}

proof fn lemma_step_spelled(s: Seq<char>, i: int, line: int, col: int)
    requires
        0 <= i < s.len(),
    ensures
        lex_step(s, i, line, col) matches Step::Emit(t, _, _, _) ==> spelled(t),
{
    let c = s[i];
    if c == '/' {
        assert(slash_step(s, i, line, col) matches Step::Emit(t, _, _, _) ==> spelled(t));
    } else if !unicode_whitespace(c) && !is_decimal_digit(c) && !(unicode_alphanumeric(c) || c == '_')
        && c != '\'' && c != '"' {
        if lexer_symbol(c) && c != '=' && c != '<' && c != '>' {
            assert(spelled(plain(seq![c], symbol_kind(c), line, col)));
        }
        assert(operator_step(s, i, line, col) matches Step::Emit(t, _, _, _) ==> spelled(t));
    }
}

proof fn lemma_lex_from_spelled(s: Seq<char>, i: int, line: int, col: int, acc: Seq<TokenView>)
    requires
        all_spelled(acc),
    ensures
        lex_from(s, i, line, col, acc) matches LexOutcome::Done(ts, _, _) ==> all_spelled(ts),
    decreases s.len() - i,
{
    if 0 <= i < s.len() {
        lemma_step_advances(s, i, line, col);
        lemma_step_spelled(s, i, line, col);
        match lex_step(s, i, line, col) {
            Step::Emit(t, n, l, c) => {
                lemma_push_spelled(acc, t);
                lemma_lex_from_spelled(s, n, l, c, acc.push(t));
            },
            Step::Skip(n, l, c) => lemma_lex_from_spelled(s, n, l, c, acc),
            Step::Fail(_, _, _) => {},
        }
    }
}

proof fn lemma_lex_inputs_spelled(ins: Seq<Seq<char>>, k: int, line: int, col: int, acc: Seq<TokenView>)
    requires
        all_spelled(acc),
    ensures
        lex_inputs(ins, k, line, col, acc) matches LexOutcome::Done(ts, _, _) ==> all_spelled(ts),
    decreases ins.len() - k,
{
    if 0 <= k < ins.len() {
        lemma_lex_from_spelled(ins[k], 0, line, col, acc);
        match lex_from(ins[k], 0, line, col, acc) {
            LexOutcome::Done(ts, l, c) => lemma_lex_inputs_spelled(ins, k + 1, l, c, ts),
            _ => {},
        }
    }
}

/// Every token the lexer yields agrees with its text: `/` is a division, `>=` is
/// greater-or-equal, `(` opens a parenthesis, and so on for every operator and symbol, while
/// names, numbers and quoted texts carry the text they were read from.
pub proof fn law_tokens_spelled(v: LexerView)
    ensures
        v.tokenize_outcome() matches LexOutcome::Done(ts, _, _) ==> all_spelled(ts),
{
    lemma_lex_inputs_spelled(v.inputs(), 0, v.line as int, v.column as int, Seq::empty());
}

/// No token in `ts` marks the end of input.
pub open spec fn no_eof(ts: Seq<TokenView>) -> bool {
    forall|k: int| 0 <= k < ts.len() ==> (#[trigger] ts[k]).kind != TokenKind::Plain(TokenType::Eof)
}

proof fn lemma_step_not_eof(s: Seq<char>, i: int, line: int, col: int)
    requires
        0 <= i < s.len(),
    ensures
        lex_step(s, i, line, col) matches Step::Emit(t, _, _, _) ==> t.kind != TokenKind::Plain(TokenType::Eof),
{
}

proof fn lemma_lex_from_no_eof(s: Seq<char>, i: int, line: int, col: int, acc: Seq<TokenView>)
    requires
        no_eof(acc),
    ensures
        lex_from(s, i, line, col, acc) matches LexOutcome::Done(ts, _, _) ==> no_eof(ts),
    decreases s.len() - i,
{
    if 0 <= i < s.len() {
        lemma_step_advances(s, i, line, col);
        lemma_step_not_eof(s, i, line, col);
        match lex_step(s, i, line, col) {
            Step::Emit(t, n, l, c) => {
                assert(no_eof(acc.push(t))) by {
                    assert forall|k: int| 0 <= k < acc.push(t).len() implies (#[trigger] acc.push(t)[k]).kind
                        != TokenKind::Plain(TokenType::Eof) by {
                        if k < acc.len() {
                            assert(acc.push(t)[k] == acc[k]);
                        }
                    }
                }
                lemma_lex_from_no_eof(s, n, l, c, acc.push(t));
            },
            Step::Skip(n, l, c) => lemma_lex_from_no_eof(s, n, l, c, acc),
            Step::Fail(_, _, _) => {},
        }
    }
}

proof fn lemma_lex_inputs_no_eof(ins: Seq<Seq<char>>, k: int, line: int, col: int, acc: Seq<TokenView>)
    requires
        no_eof(acc),
    ensures
        lex_inputs(ins, k, line, col, acc) matches LexOutcome::Done(ts, _, _) ==> no_eof(ts),
    decreases ins.len() - k,
{
    if 0 <= k < ins.len() {
        lemma_lex_from_no_eof(ins[k], 0, line, col, acc);
        match lex_from(ins[k], 0, line, col, acc) {
            LexOutcome::Done(ts, l, c) => lemma_lex_inputs_no_eof(ins, k + 1, l, c, ts),
            _ => {},
        }
    }
}

/// The end-of-input token comes once, as the last token: no token that the text itself
/// yields is one.
pub proof fn law_end_of_input_once(v: LexerView)
    ensures
        v.tokenize_outcome() matches LexOutcome::Done(ts, l, c) ==> {
            &&& no_eof(ts)
            &&& ts.push(eof_token(ts, l, c)).last().kind == TokenKind::Plain(TokenType::Eof)
        },
{
    lemma_lex_inputs_no_eof(v.inputs(), 0, v.line as int, v.column as int, Seq::empty());
}

} // verus!
