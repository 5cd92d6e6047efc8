//! The first, simpler tokenizer: fewer operators, no decimal numbers, and no error for an
//! unclosed quote.  Its lines and columns count from 0.
use vstd::prelude::*;
use crate::types::{TokenType, TokenKind, strings_view, clone_strings};
use crate::text::{
    chars_of, is_whitespace, is_alphanumeric, is_digit10, string_from, unicode_whitespace,
    unicode_alphanumeric, is_decimal_digit,
};
pub use crate::lexer::Token;
use crate::lexer::{
    TokenView, tokens_view, LexFault, Step, LexOutcome, BlockEnd, number_end, ident_end, find_from,
    block_scan, join_lines, plain, tok, emit1, emit2, step_next, total_len, after_tokens, StepOut,
    step_view, payload_free, emit_two, emit_one, scan_number, scan_ident, scan_find,
    join_with_newlines, scan_block, lemma_number_end, lemma_ident_end, lemma_find_from,
    lemma_block_scan, lemma_total_len_prefix, lemma_block_later, later, not_after, in_order,
    spelled, all_spelled,
};

verus! {

/// The characters that the tokenizer takes as one-character tokens.
pub open spec fn tokenizer_symbol(c: char) -> bool {
    c == '+' || c == '-' || c == '*' || c == '/' || c == '(' || c == ')' || c == ',' || c == '='
        || c == ';' || c == '@' || c == '{' || c == '}' || c == '<' || c == '>'
}

/// The kind of a one-character token of the tokenizer.
pub open spec fn tokenizer_symbol_kind(c: char) -> TokenType {
    if c == '+' { TokenType::Add }
    else if c == '-' { TokenType::Sub }
    else if c == '*' { TokenType::Mul }
    else if c == '/' { TokenType::Div }
    else if c == '(' { TokenType::LeftParen }
    else if c == ')' { TokenType::RightParen }
    else if c == '{' { TokenType::LeftCurlyBrace }
    else if c == '}' { TokenType::RightCurlyBrace }
    else if c == ',' { TokenType::Conma }
    else if c == '=' { TokenType::Equals }
    else if c == '@' { TokenType::AtSign }
    else { TokenType::Semi }
}

/// One step of the tokenizer at a quote `q`: the text up to the closing quote, or to the end.
pub open spec fn tok_quote_step(s: Seq<char>, i: int, line: int, col: int, q: char, kind: TokenType) -> Step {
    let k = find_from(s, i + 1, q);
    if k < s.len() {
        Step::Emit(plain(s.subrange(i + 1, k), kind, line, col), k + 1, line, col + (k + 1 - i))
    } else {
        Step::Emit(plain(s.subrange(i + 1, s.len() as int), kind, line, col), s.len() as int, line, col + (s.len() - i))
    }
}

/// One step of the tokenizer at a slash: a comment, or nothing.
pub open spec fn tok_slash_step(s: Seq<char>, i: int, line: int, col: int) -> Step {
    if i + 1 < s.len() && s[i + 1] == '/' {
        let e = find_from(s, i + 2, '\n');
        let text = s.subrange(i + 2, e);
        Step::Emit(tok(text, TokenKind::SingleComment(text, (line as usize, col as usize)), line, col), e, line, col + (e - i))
    } else if i + 1 < s.len() && s[i + 1] == '*' {
        match block_scan(s, i + 2, Seq::empty(), Seq::empty(), line, col + 2) {
            BlockEnd::Closed(n, ls, l2, c2) => Step::Emit(
                tok(join_lines(ls), TokenKind::MultiComment(ls, (line as usize, col as usize)), line, col),
                n,
                l2,
                c2,
            ),
            BlockEnd::Open(l2, c2) => Step::Fail(LexFault::CommentNotClosed, l2, c2),
        }
    } else {
        Step::Skip(i + 1, line, col + 1)
    }
}

/// One step of the tokenizer at an operator or symbol character.
pub open spec fn tok_operator_step(s: Seq<char>, i: int, line: int, col: int) -> Step {
    let c = s[i];
    let has_next = i + 1 < s.len();
    let d = if has_next { s[i + 1] } else { ' ' };
    let skip = Step::Skip(i + 1, line, col + 1);
    if c == '=' {
        if !has_next { skip } else if d == '=' { emit2('=', '=', TokenType::Eq, i, line, col) }
        else { emit1('=', TokenType::Equals, i, line, col) }
    } else if c == '!' {
        if has_next && d == '=' { emit2('!', '=', TokenType::Ne, i, line, col) } else { skip }
    } else if c == '<' {
        if !has_next { skip } else if d == '=' { emit2('<', '=', TokenType::Le, i, line, col) }
        else { emit1('<', TokenType::Lt, i, line, col) }
    } else if c == '>' {
        if !has_next { skip } else if d == '=' { emit2('>', '=', TokenType::Ge, i, line, col) }
        else { emit1('>', TokenType::Gt, i, line, col) }
    } else if c == '&' {
        if has_next && d == '&' { emit2('&', '&', TokenType::And, i, line, col) } else { skip }
    } else if c == '|' {
        if has_next && d == '|' { emit2('|', '|', TokenType::Or, i, line, col) } else { skip }
    } else if tokenizer_symbol(c) {
        emit1(c, tokenizer_symbol_kind(c), i, line, col)
    } else {
        Step::Fail(LexFault::Unprocessable, line, col)
    }
}

/// One step of the tokenizer at position `i`.  A fault is where the tokenizer panics.
pub open spec fn tok_step(s: Seq<char>, i: int, line: int, col: int) -> Step {
    let c = s[i];
    if unicode_whitespace(c) {
        if c == '\n' { Step::Skip(i + 1, line + 1, 1) } else { Step::Skip(i + 1, line, col + 1) }
    } else if is_decimal_digit(c) {
        let e = number_end(s, i, true);
        Step::Emit(plain(s.subrange(i, e), TokenType::Ident, line, col), e, line, col + (e - i))
    } else if unicode_alphanumeric(c) || c == '_' {
        let e = ident_end(s, i);
        Step::Emit(plain(s.subrange(i, e), TokenType::Ident, line, col), e, line, col + (e - i))
    } else if c == '\'' {
        tok_quote_step(s, i, line, col, '\'', TokenType::SingleQuote)
    } else if c == '"' {
        tok_quote_step(s, i, line, col, '"', TokenType::DoubleQuote)
    } else if c == '/' {
        tok_slash_step(s, i, line, col)
    } else {
        tok_operator_step(s, i, line, col)
    }
}

/// A step of the tokenizer moves forward and moves line and column no further than the
/// characters it reads.
pub open spec fn tok_step_bounded(s: Seq<char>, i: int, line: int, col: int, st: Step) -> bool {
    match st {
        Step::Emit(t, n, l2, c2) => i < n <= s.len() && l2 + (s.len() - n) <= line + (s.len() - i)
            && 0 <= c2 && c2 + (s.len() - n) <= col + (s.len() - i) && l2 >= line,
        Step::Skip(n, l2, c2) => i < n <= s.len() && l2 + (s.len() - n) <= line + (s.len() - i)
            && 0 <= c2 && c2 + (s.len() - n) <= col + (s.len() - i) && l2 >= line,
        Step::Fail(_, _, _) => true,
    }
}

/// One step of the tokenizer keeps the line and column within what the rest of the text allows.
pub proof fn lemma_tok_step_bounded(s: Seq<char>, i: int, line: int, col: int)
    requires
        0 <= i < s.len(),
        0 <= col,
    ensures
        tok_step_bounded(s, i, line, col, tok_step(s, i, line, col)),
{
    let c = s[i];
    if unicode_whitespace(c) {
    } else if is_decimal_digit(c) {
        lemma_number_end(s, i, true);
        lemma_number_end(s, i + 1, true);
    } else if unicode_alphanumeric(c) || c == '_' {
        lemma_ident_end(s, i + 1);
    } else if c == '\'' || c == '"' {
        lemma_find_from(s, i + 1, c);
    } else if c == '/' {
        if i + 1 < s.len() && s[i + 1] == '/' {
            lemma_find_from(s, i + 2, '\n');
        } else if i + 1 < s.len() && s[i + 1] == '*' {
            lemma_block_scan(s, i + 2, Seq::empty(), Seq::empty(), line, col + 2);
        }
    }
}

/// One step of the tokenizer takes at least one character.
pub proof fn lemma_tok_step_advances(s: Seq<char>, i: int, line: int, col: int)
    requires
        0 <= i < s.len(),
    ensures
        i < step_next(tok_step(s, i, line, col), i) <= s.len(),
{
    let c = s[i];
    if unicode_whitespace(c) {
    } else if is_decimal_digit(c) {
        lemma_number_end(s, i, true);
        lemma_number_end(s, i + 1, true);
    } else if unicode_alphanumeric(c) || c == '_' {
        lemma_ident_end(s, i + 1);
    } else if c == '\'' || c == '"' {
        lemma_find_from(s, i + 1, c);
    } else if c == '/' {
        if i + 1 < s.len() && s[i + 1] == '/' {
            lemma_find_from(s, i + 2, '\n');
        } else if i + 1 < s.len() && s[i + 1] == '*' {
            lemma_block_scan(s, i + 2, Seq::empty(), Seq::empty(), line, col + 2);
        }
    }
}

/// Tokenizes `s` from `i`, after the tokens `acc`.
pub open spec fn tok_from(s: Seq<char>, i: int, line: int, col: int, acc: Seq<TokenView>) -> LexOutcome
    decreases s.len() - i,
{
    if i < 0 || i >= s.len() {
        LexOutcome::Done(acc, line, col)
    } else {
        let st = tok_step(s, i, line, col);
        proof {
            lemma_tok_step_advances(s, i, line, col);
        }
        match st {
            Step::Emit(t, n, l, c) => tok_from(s, n, l, c, acc.push(t)),
            Step::Skip(n, l, c) => tok_from(s, n, l, c, acc),
            Step::Fail(f, l, c) => LexOutcome::Failed(f, line, col, l, c),
        }
    }
}

/// Tokenizes the texts `ins[k..]` one after the other.
pub open spec fn tok_inputs(ins: Seq<Seq<char>>, k: int, line: int, col: int, acc: Seq<TokenView>) -> LexOutcome
    decreases ins.len() - k,
{
    if k < 0 || k >= ins.len() {
        LexOutcome::Done(acc, line, col)
    } else {
        match tok_from(ins[k], 0, line, col, acc) {
            LexOutcome::Done(ts, l, c) => tok_inputs(ins, k + 1, l, c, ts),
            f => f,
        }
    }
}

/// Tokenizing after some tokens yields those tokens, then what tokenizing alone yields.
pub proof fn lemma_tok_from_acc(s: Seq<char>, i: int, line: int, col: int, acc: Seq<TokenView>)
    ensures
        tok_from(s, i, line, col, acc) == after_tokens(tok_from(s, i, line, col, Seq::empty()), acc),
    decreases s.len() - i,
{
    if i < 0 || i >= s.len() {
        assert(acc + Seq::<TokenView>::empty() =~= acc);
    } else {
        lemma_tok_step_advances(s, i, line, col);
        match tok_step(s, i, line, col) {
            Step::Emit(t, n, l, c) => {
                lemma_tok_from_acc(s, n, l, c, acc.push(t));
                lemma_tok_from_acc(s, n, l, c, Seq::empty().push(t));
                match tok_from(s, n, l, c, Seq::empty()) {
                    LexOutcome::Done(ts, _, _) => {
                        assert(acc.push(t) + ts =~= acc + (Seq::empty().push(t) + ts));
                    },
                    _ => {},
                }
            },
            Step::Skip(n, l, c) => {
                lemma_tok_from_acc(s, n, l, c, acc);
            },
            Step::Fail(_, _, _) => {},
        }
    }
}

/// The first tokenizer and the text it reads.
#[derive(Debug)]
pub struct Tokenizer {
    input: String,
    input_vec: Vec<String>,
    line: usize,
    column: usize,
}

/// The mathematical value of a tokenizer.
pub struct TokenizerView {
    pub input: Seq<char>,
    pub input_vec: Seq<Seq<char>>,
    pub line: usize,
    pub column: usize,
}

impl View for Tokenizer {
    type V = TokenizerView;

    closed spec fn view(&self) -> TokenizerView {
        TokenizerView {
            input: self.input@,
            input_vec: strings_view(self.input_vec@),
            line: self.line,
            column: self.column,
        }
    }
}

impl TokenizerView {
    /// The texts that `tokenize` reads: the list when it is not empty, else the input.
    pub open spec fn inputs(self) -> Seq<Seq<char>> {
        if self.input_vec.len() == 0 { seq![self.input] } else { self.input_vec }
    }

    /// What `tokenize` yields; a fault is an input on which the tokenizer panics.
    pub open spec fn tokenize_outcome(self) -> LexOutcome {
        tok_inputs(self.inputs(), 0, self.line as int, self.column as int, Seq::empty())
    }

    /// The positions fit in `usize` however far the input takes them.
    pub open spec fn fits(self) -> bool {
        &&& self.line as int + total_len(self.inputs()) <= usize::MAX
        &&& self.column as int + total_len(self.inputs()) <= usize::MAX
    }
}

/// The kind of a one-character token of the tokenizer.
fn tokenizer_symbol_kind_of(c: char) -> (k: TokenType)
    ensures
        k == tokenizer_symbol_kind(c),
{
    if c == '+' { TokenType::Add }
    else if c == '-' { TokenType::Sub }
    else if c == '*' { TokenType::Mul }
    else if c == '/' { TokenType::Div }
    else if c == '(' { TokenType::LeftParen }
    else if c == ')' { TokenType::RightParen }
    else if c == '{' { TokenType::LeftCurlyBrace }
    else if c == '}' { TokenType::RightCurlyBrace }
    else if c == ',' { TokenType::Conma }
    else if c == '=' { TokenType::Equals }
    else if c == '@' { TokenType::AtSign }
    else { TokenType::Semi }
}

/// One step at a quote.
fn tok_quote_exec(s: &Vec<char>, i: usize, line: usize, col: usize, q: char, kind: TokenType) -> (o: StepOut)
    requires
        i < s.len(),
        col + (s.len() - i) <= usize::MAX,
        payload_free(kind),
    ensures
        step_view(o) == tok_quote_step(s@, i as int, line as int, col as int, q, kind),
{
    let k = scan_find(s, i + 1, q);
    proof {
        lemma_find_from(s@, i + 1, q);
    }
    if k < s.len() {
        let v = string_from(s, i + 1, k);
        StepOut::Emit(Token::new(v, kind, line, col), k + 1, line, col + (k + 1 - i))
    } else {
        let v = string_from(s, i + 1, s.len());
        StepOut::Emit(Token::new(v, kind, line, col), s.len(), line, col + (s.len() - i))
    }
}

/// One step at a slash.
fn tok_slash_exec(s: &Vec<char>, i: usize, line: usize, col: usize) -> (o: StepOut)
    requires
        i < s.len(),
        line + (s.len() - i) <= usize::MAX,
        col + (s.len() - i) <= usize::MAX,
    ensures
        step_view(o) == tok_slash_step(s@, i as int, line as int, col as int),
{
    if i + 1 < s.len() && s[i + 1] == '/' {
        let e = scan_find(s, i + 2, '\n');
        proof {
            lemma_find_from(s@, i + 2, '\n');
        }
        let text = string_from(s, i + 2, e);
        let kind = TokenType::SingleComment(string_from(s, i + 2, e), (line, col));
        StepOut::Emit(Token::new(text, kind, line, col), e, line, col + (e - i))
    } else if i + 1 < s.len() && s[i + 1] == '*' {
        let (closed, n, lines, l2, c2) = scan_block(s, i + 2, line, col + 2);
        if closed {
            let text = join_with_newlines(&lines);
            StepOut::Emit(Token::new(text, TokenType::MultiComment(lines, (line, col)), line, col), n, l2, c2)
        } else {
            StepOut::Fail(LexFault::CommentNotClosed, l2, c2)
        }
    } else {
        StepOut::Skip(i + 1, line, col + 1)
    }
}

impl Tokenizer {
    /// A tokenizer with no input, at line 0, column 0.
    pub fn new() -> (t: Self)
        ensures
            t@.input == Seq::<char>::empty(),
            t@.input_vec == Seq::<Seq<char>>::empty(),
            t@.line == 0,
            t@.column == 0,
    {
        let t = Tokenizer { input: String::new(), input_vec: Vec::new(), line: 0, column: 0 };
        assert(t@.input_vec =~= Seq::<Seq<char>>::empty());
        t
    }

    /// A tokenizer over a list of texts, read one after the other.
    pub fn new_with_value_vec(input_vec: Vec<String>) -> (t: Self)
        ensures
            t@.input == Seq::<char>::empty(),
            t@.input_vec == strings_view(input_vec@),
            t@.line == 0,
            t@.column == 0,
    {
        Tokenizer { input: String::new(), input_vec, line: 0, column: 0 }
    }

    /// A tokenizer over one text.
    pub fn new_with_value(input: String) -> (t: Self)
        ensures
            t@.input == input@,
            t@.input_vec == Seq::<Seq<char>>::empty(),
            t@.line == 0,
            t@.column == 0,
    {
        let t = Tokenizer { input, input_vec: Vec::new(), line: 0, column: 0 };
        assert(t@.input_vec =~= Seq::<Seq<char>>::empty());
        t
    }

    /// Whether the tokenizer takes `c` as a one-character token.
    fn is_symbol(&self, c: char) -> (r: bool)
        ensures
            r == tokenizer_symbol(c),
    {
        c == '+' || c == '-' || c == '*' || c == '/' || c == '(' || c == ')' || c == ',' || c == '='
            || c == ';' || c == '@' || c == '{' || c == '}' || c == '<' || c == '>'
    }

    /// One step at an operator or symbol character.
    fn operator_exec(&self, s: &Vec<char>, i: usize, line: usize, col: usize) -> (o: StepOut)
        requires
            i < s.len(),
            col + (s.len() - i) <= usize::MAX,
        ensures
            step_view(o) == tok_operator_step(s@, i as int, line as int, col as int),
    {
        let c = s[i];
        let has_next = i + 1 < s.len();
        let d = if has_next { s[i + 1] } else { ' ' };
        let skip = StepOut::Skip(i + 1, line, col + 1);
        if c == '=' {
            if !has_next { skip } else if d == '=' { emit_two(s, i, TokenType::Eq, line, col) }
            else { emit_one(s, i, TokenType::Equals, line, col) }
        } else if c == '!' {
            if has_next && d == '=' { emit_two(s, i, TokenType::Ne, line, col) } else { skip }
        } else if c == '<' {
            if !has_next { skip } else if d == '=' { emit_two(s, i, TokenType::Le, line, col) }
            else { emit_one(s, i, TokenType::Lt, line, col) }
        } else if c == '>' {
            if !has_next { skip } else if d == '=' { emit_two(s, i, TokenType::Ge, line, col) }
            else { emit_one(s, i, TokenType::Gt, line, col) }
        } else if c == '&' {
            if has_next && d == '&' { emit_two(s, i, TokenType::And, line, col) } else { skip }
        } else if c == '|' {
            if has_next && d == '|' { emit_two(s, i, TokenType::Or, line, col) } else { skip }
        } else if self.is_symbol(c) {
            emit_one(s, i, tokenizer_symbol_kind_of(c), line, col)
        } else {
            StepOut::Fail(LexFault::Unprocessable, line, col)
        }
    }

    /// One step of the tokenizer at position `i`.
    fn step(&self, s: &Vec<char>, i: usize, line: usize, col: usize) -> (o: StepOut)
        requires
            i < s.len(),
            line + (s.len() - i) <= usize::MAX,
            col + (s.len() - i) <= usize::MAX,
        ensures
            step_view(o) == tok_step(s@, i as int, line as int, col as int),
    {
        let c = s[i];
        if is_whitespace(c) {
            if c == '\n' { StepOut::Skip(i + 1, line + 1, 1) } else { StepOut::Skip(i + 1, line, col + 1) }
        } else if is_digit10(c) {
            let e = scan_number(s, i, true);
            proof {
                lemma_number_end(s@, i as int, true);
            }
            let v = string_from(s, i, e);
            StepOut::Emit(Token::new(v, TokenType::Ident, line, col), e, line, col + (e - i))
        } else if is_alphanumeric(c) || c == '_' {
            let e = scan_ident(s, i);
            proof {
                lemma_ident_end(s@, i as int);
            }
            let v = string_from(s, i, e);
            StepOut::Emit(Token::new(v, TokenType::Ident, line, col), e, line, col + (e - i))
        } else if c == '\'' {
            tok_quote_exec(s, i, line, col, '\'', TokenType::SingleQuote)
        } else if c == '"' {
            tok_quote_exec(s, i, line, col, '"', TokenType::DoubleQuote)
        } else if c == '/' {
            tok_slash_exec(s, i, line, col)
        } else {
            self.operator_exec(s, i, line, col)
        }
    }

    /// Tokenizes one text from the current line and column, and leaves the tokenizer at the
    /// line and column reached; `None` where the tokenizer cannot go on.
    fn tokenize_string(&mut self, input: &String) -> (r: Option<Vec<Token>>)
        requires
            old(self)@.line + input@.len() <= usize::MAX,
            old(self)@.column + input@.len() <= usize::MAX,
        ensures
            final(self)@.line <= old(self)@.line + input@.len(),
            final(self)@.column <= old(self)@.column + input@.len(),
            final(self)@ == (TokenizerView { line: final(self)@.line, column: final(self)@.column, ..old(self)@ }),
            match tok_from(input@, 0, old(self)@.line as int, old(self)@.column as int, Seq::empty()) {
                LexOutcome::Done(ts, l, c) => {
                    &&& r matches Some(v) && tokens_view(v@) == ts
                    &&& final(self)@.line == l && final(self)@.column == c
                },
                _ => r is None,
            },
    {
        let s = chars_of(input.as_str());
        let mut tokens: Vec<Token> = Vec::new();
        let mut i: usize = 0;
        let line0 = self.line;
        let col0 = self.column;
        proof {
            assert(tokens_view(tokens@) =~= Seq::<TokenView>::empty());
        }
        while i < s.len()
            invariant
                i <= s.len(),
                s@ == input@,
                line0 == old(self)@.line,
                col0 == old(self)@.column,
                self@ == (TokenizerView { line: self@.line, column: self@.column, ..old(self)@ }),
                line0 <= self.line,
                self.line + (s.len() - i) <= line0 + s.len(),
                self.column + (s.len() - i) <= col0 + s.len(),
                line0 + s.len() <= usize::MAX,
                col0 + s.len() <= usize::MAX,
                tok_from(s@, 0, line0 as int, col0 as int, Seq::empty())
                    == tok_from(s@, i as int, self.line as int, self.column as int, tokens_view(tokens@)),
            decreases s.len() - i,
        {
            proof {
                lemma_tok_step_bounded(s@, i as int, self.line as int, self.column as int);
                lemma_tok_step_advances(s@, i as int, self.line as int, self.column as int);
            }
            match self.step(&s, i, self.line, self.column) {
                StepOut::Emit(t, n, l, c) => {
                    let ghost before = tokens_view(tokens@);
                    let ghost tv = t@;
                    tokens.push(t);
                    proof {
                        assert(tokens_view(tokens@) =~= before.push(tv));
                    }
                    i = n;
                    self.line = l;
                    self.column = c;
                },
                StepOut::Skip(n, l, c) => {
                    i = n;
                    self.line = l;
                    self.column = c;
                },
                StepOut::Fail(_, _, _) => {
                    return None;
                },
            }
        }
        Some(tokens)
    }

    /// Tokenizes the input: the list of texts one after the other when there is one, else the
    /// input; then adds the end-of-input token at the position reached.  `None` where the
    /// tokenizer meets a character it cannot read.
    pub fn try_tokenize(&mut self) -> (r: Option<Vec<Token>>)
        requires
            old(self)@.fits(),
        ensures
            final(self)@ == (TokenizerView { line: final(self)@.line, column: final(self)@.column, ..old(self)@ }),
            match old(self)@.tokenize_outcome() {
                LexOutcome::Done(ts, l, c) => {
                    &&& r matches Some(v) && tokens_view(v@) == ts.push(plain(Seq::empty(), TokenType::Eof, l, c))
                    &&& final(self)@.line == l && final(self)@.column == c
                },
                _ => r is None,
            },
    {
        let ghost v0 = self@;
        let ins: Vec<String> = if self.input_vec.len() == 0 {
            let mut one: Vec<String> = Vec::new();
            one.push(self.input.clone());
            one
        } else {
            clone_strings(&self.input_vec)
        };
        let ghost inputs = v0.inputs();
        assert(strings_view(ins@) =~= inputs);
        let mut all: Vec<Token> = Vec::new();
        proof {
            assert(tokens_view(all@) =~= Seq::<TokenView>::empty());
            assert(inputs.take(0) =~= Seq::<Seq<char>>::empty());
        }
        let mut k: usize = 0;
        let mut failed = false;
        while k < ins.len() && !failed
            invariant
                k <= ins.len(),
                strings_view(ins@) == inputs,
                self@ == (TokenizerView { line: self@.line, column: self@.column, ..v0 }),
                !failed ==> self@.line + (total_len(inputs) - total_len(inputs.take(k as int))) <= usize::MAX,
                !failed ==> self@.column + (total_len(inputs) - total_len(inputs.take(k as int))) <= usize::MAX,
                !failed ==> v0.tokenize_outcome() == tok_inputs(inputs, k as int, self@.line as int, self@.column as int, tokens_view(all@)),
                failed ==> !(v0.tokenize_outcome() is Done),
            decreases ins.len() - k + if failed { 0int } else { 1int },
        {
            let ghost lb = self@.line as int;
            let ghost cb = self@.column as int;
            let ghost accb = tokens_view(all@);
            proof {
                lemma_total_len_prefix(inputs, k + 1);
                assert(inputs.take(k + 1).drop_last() =~= inputs.take(k as int));
                assert(inputs[k as int] == ins@[k as int]@);
                lemma_tok_from_acc(inputs[k as int], 0, lb, cb, accb);
            }
            match self.tokenize_string(&ins[k]) {
                Some(mut ts) => {
                    let ghost added = tokens_view(ts@);
                    all.append(&mut ts);
                    proof {
                        assert(tokens_view(all@) =~= accb + added);
                    }
                    k += 1;
                },
                None => {
                    failed = true;
                },
            }
        }
        if failed {
            return None;
        }
        let ghost ts = tokens_view(all@);
        let eof = Token::new(String::new(), TokenType::Eof, self.line, self.column);
        all.push(eof);
        proof {
            assert(tokens_view(all@) =~= ts.push(plain(Seq::empty(), TokenType::Eof, self@.line as int, self@.column as int)));
        }
        Some(all)
    }

    /// Tokenizes the input: the list of texts one after the other when there is one, else the
    /// input; then adds the end-of-input token at the position reached.
    pub fn tokenize(&mut self) -> (r: Result<Vec<Token>, String>)
        requires
            old(self)@.fits(),
            old(self)@.tokenize_outcome() is Done,
        ensures
            match old(self)@.tokenize_outcome() {
                LexOutcome::Done(ts, l, c) => {
                    &&& r is Ok
                    &&& tokens_view(r->Ok_0@) == ts.push(plain(Seq::empty(), TokenType::Eof, l, c))
                    &&& final(self)@ == TokenizerView { line: l as usize, column: c as usize, ..old(self)@ }
                },
                _ => false,
            },
    {
        match self.try_tokenize() {
            Some(all) => Ok(all),
            None => Err(String::new()),
        }
    }
}

impl Tokenizer {
    /// The text it reads.
    pub fn input(&self) -> (r: String)
        ensures
            r@ == self@.input,
    {
        self.input.clone()
    }

    /// Replaces the text it reads.
    pub fn set_input(&mut self, input: String)
        ensures
            final(self)@ == (TokenizerView { input: input@, ..old(self)@ }),
    {
        self.input = input;
    }

    /// The texts it reads one after the other, when there are any.
    pub fn input_vec(&self) -> (r: Vec<String>)
        ensures
            strings_view(r@) == self@.input_vec,
    {
        clone_strings(&self.input_vec)
    }

    /// Replaces the texts it reads one after the other.
    pub fn set_input_vec(&mut self, input_vec: Vec<String>)
        ensures
            final(self)@ == (TokenizerView { input_vec: strings_view(input_vec@), ..old(self)@ }),
    {
        self.input_vec = input_vec;
    }

    /// The line it has reached.
    pub fn line(&self) -> (r: usize)
        ensures
            r == self@.line,
    {
        self.line
    }

    /// The column it has reached.
    pub fn column(&self) -> (r: usize)
        ensures
            r == self@.column,
    {
        self.column
    }
}

proof fn lemma_tok_step_later(s: Seq<char>, i: int, line: int, col: int)
    requires
        0 <= i < s.len(),
        0 <= col <= usize::MAX,
        0 <= line <= usize::MAX,
    ensures
        match tok_step(s, i, line, col) {
            Step::Emit(t, _, l2, c2) => t.line == line && t.column == col && later(line, col, l2, c2),
            Step::Skip(_, l2, c2) => later(line, col, l2, c2),
            Step::Fail(_, _, _) => true,
        },
{
    lemma_tok_step_bounded(s, i, line, col);
    let c = s[i];
    if unicode_whitespace(c) {
    } else if is_decimal_digit(c) {
        lemma_number_end(s, i, true);
    } else if unicode_alphanumeric(c) || c == '_' {
        lemma_ident_end(s, i + 1);
    } else if c == '\'' || c == '"' {
        lemma_find_from(s, i + 1, c);
    } else if c == '/' {
        if i + 1 < s.len() && s[i + 1] == '/' {
            lemma_find_from(s, i + 2, '\n');
        } else if i + 1 < s.len() && s[i + 1] == '*' {
            lemma_block_later(s, i + 2, Seq::empty(), Seq::empty(), line, col + 2);
        }
    }
}

proof fn lemma_tok_from_order(s: Seq<char>, i: int, line: int, col: int, acc: Seq<TokenView>)
    requires
        0 <= i <= s.len(),
        0 <= col,
        0 <= line,
        line + (s.len() - i) <= usize::MAX,
        col + (s.len() - i) <= usize::MAX,
        in_order(acc),
        forall|k: int| 0 <= k < acc.len() ==> not_after(#[trigger] acc[k], line, col),
    ensures
        tok_from(s, i, line, col, acc) matches LexOutcome::Done(ts, l, c) ==> {
            &&& in_order(ts)
            &&& forall|k: int| 0 <= k < ts.len() ==> not_after(#[trigger] ts[k], l, c)
            &&& 0 <= c && 0 <= l
            &&& l <= line + (s.len() - i) && c <= col + (s.len() - i)
        },
    decreases s.len() - i,
{
    if i < s.len() {
        lemma_tok_step_bounded(s, i, line, col);
        lemma_tok_step_later(s, i, line, col);
        lemma_tok_step_advances(s, i, line, col);
        match tok_step(s, i, line, col) {
            Step::Emit(t, n, l2, c2) => {
                let acc2 = acc.push(t);
                assert forall|a: int, b: int| 0 <= a < b < acc2.len() implies
                    not_after(acc2[a], acc2[b].line as int, acc2[b].column as int) by {
                    if b == acc.len() {
                        assert(acc2[a] == acc[a]);
                    }
                }
                assert forall|k: int| 0 <= k < acc2.len() implies not_after(#[trigger] acc2[k], l2, c2) by {
                    if k < acc.len() {
                        assert(acc2[k] == acc[k]);
                    }
                }
                lemma_tok_from_order(s, n, l2, c2, acc2);
            },
            Step::Skip(n, l2, c2) => {
                lemma_tok_from_order(s, n, l2, c2, acc);
            },
            Step::Fail(_, _, _) => {},
        }
    }
}

proof fn lemma_tok_inputs_order(ins: Seq<Seq<char>>, k: int, line: int, col: int, acc: Seq<TokenView>)
    requires
        0 <= k <= ins.len(),
        0 <= col,
        0 <= line,
        line + (total_len(ins) - total_len(ins.take(k))) <= usize::MAX,
        col + (total_len(ins) - total_len(ins.take(k))) <= usize::MAX,
        in_order(acc),
        forall|j: int| 0 <= j < acc.len() ==> not_after(#[trigger] acc[j], line, col),
    ensures
        tok_inputs(ins, k, line, col, acc) matches LexOutcome::Done(ts, l, c) ==> {
            &&& in_order(ts)
            &&& forall|j: int| 0 <= j < ts.len() ==> not_after(#[trigger] ts[j], l, c)
            &&& 0 <= l <= usize::MAX && 0 <= c <= usize::MAX
        },
    decreases ins.len() - k,
{
    if k < ins.len() {
        assert(ins.take(k + 1).drop_last() =~= ins.take(k));
        lemma_total_len_prefix(ins, k + 1);
        lemma_tok_from_order(ins[k], 0, line, col, acc);
        match tok_from(ins[k], 0, line, col, acc) {
            LexOutcome::Done(ts, l, c) => {
                lemma_tok_inputs_order(ins, k + 1, l, c, ts);
            },
            _ => {},
        }
    } else {
        lemma_total_len_prefix(ins, k);
    }
}

proof fn lemma_tok_push_spelled(acc: Seq<TokenView>, t: TokenView)
    requires
        all_spelled(acc),
        spelled(t),
    ensures
        all_spelled(acc.push(t)),
{
    assert forall|k: int| 0 <= k < acc.push(t).len() implies spelled(#[trigger] acc.push(t)[k]) by {
        if k < acc.len() {
            assert(acc.push(t)[k] == acc[k]);
        }
    }
}

proof fn lemma_tok_step_spelled(s: Seq<char>, i: int, line: int, col: int)
    requires
        0 <= i < s.len(),
    ensures
        tok_step(s, i, line, col) matches Step::Emit(t, _, _, _) ==> spelled(t),
{
    let c = s[i];
    if !unicode_whitespace(c) && !is_decimal_digit(c) && !(unicode_alphanumeric(c) || c == '_')
        && c != '\'' && c != '"' && c != '/' {
        if tokenizer_symbol(c) && c != '=' && c != '<' && c != '>' {
            assert(spelled(plain(seq![c], tokenizer_symbol_kind(c), line, col)));
        }
        assert(tok_operator_step(s, i, line, col) matches Step::Emit(t, _, _, _) ==> spelled(t));
    }
}

proof fn lemma_tok_from_spelled(s: Seq<char>, i: int, line: int, col: int, acc: Seq<TokenView>)
    requires
        all_spelled(acc),
    ensures
        tok_from(s, i, line, col, acc) matches LexOutcome::Done(ts, _, _) ==> all_spelled(ts),
    decreases s.len() - i,
{
    if 0 <= i < s.len() {
        lemma_tok_step_advances(s, i, line, col);
        lemma_tok_step_spelled(s, i, line, col);
        match tok_step(s, i, line, col) {
            Step::Emit(t, n, l, c) => {
                lemma_tok_push_spelled(acc, t);
                lemma_tok_from_spelled(s, n, l, c, acc.push(t));
            },
            Step::Skip(n, l, c) => lemma_tok_from_spelled(s, n, l, c, acc),
            Step::Fail(_, _, _) => {},
        }
    }
}

proof fn lemma_tok_inputs_spelled(ins: Seq<Seq<char>>, k: int, line: int, col: int, acc: Seq<TokenView>)
    requires
        all_spelled(acc),
    ensures
        tok_inputs(ins, k, line, col, acc) matches LexOutcome::Done(ts, _, _) ==> all_spelled(ts),
    decreases ins.len() - k,
{
    if 0 <= k < ins.len() {
        lemma_tok_from_spelled(ins[k], 0, line, col, acc);
        match tok_from(ins[k], 0, line, col, acc) {
            LexOutcome::Done(ts, l, c) => lemma_tok_inputs_spelled(ins, k + 1, l, c, ts),
            _ => {},
        }
    }
}

/// Every token the tokenizer yields agrees with its text: `>=` is greater-or-equal, `+` an
/// addition, `;` the end of a statement, and so on for every operator and symbol, while
/// names, numbers and quoted texts carry the text they were read from.
pub proof fn law_tokenizer_tokens_spelled(v: TokenizerView)
    ensures
        v.tokenize_outcome() matches LexOutcome::Done(ts, _, _) ==> all_spelled(ts),
{
    lemma_tok_inputs_spelled(v.inputs(), 0, v.line as int, v.column as int, Seq::empty());
}

/// The tokenizer's tokens come in the order of the text, and the end of input stands at or
/// after the last of them.
pub proof fn law_tokenizer_in_order(v: TokenizerView)
    requires
        v.fits(),
    ensures
        v.tokenize_outcome() matches LexOutcome::Done(ts, l, c)
            ==> in_order(ts.push(plain(Seq::empty(), TokenType::Eof, l, c))),
{
    let ins = v.inputs();
    assert(ins.take(0) =~= Seq::<Seq<char>>::empty());
    lemma_tok_inputs_order(ins, 0, v.line as int, v.column as int, Seq::empty());
    match v.tokenize_outcome() {
        LexOutcome::Done(ts, l, c) => {
            let all = ts.push(plain(Seq::empty(), TokenType::Eof, l, c));
            assert forall|a: int, b: int| 0 <= a < b < all.len() implies
                not_after(all[a], all[b].line as int, all[b].column as int) by {
                if b == ts.len() {
                    assert(all[a] == ts[a]);
                }
            }
        },
        _ => {},
    }
}

} // verus!
