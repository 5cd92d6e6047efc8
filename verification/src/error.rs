//! Compiler diagnostics: messages with positions, rendered against the source text.
use vstd::prelude::*;
use crate::text::{chars_of, str_eq, string_from};
use colored::Colorize;

verus! {

/// A terminal colour, always drawn bold.
#[derive(Clone, Copy, PartialEq, Eq, Structural, Debug)]
pub enum Paint {
    Red,
    Yellow,
    Blue,
}

/// A piece of rendered output: plain text, or text that the terminal may colour.
pub enum Piece {
    Text(Seq<char>),
    Painted(Seq<char>, Paint),
}

/// The escape sequence that starts bold text in the given colour.
pub open spec fn ansi_open(p: Paint) -> Seq<char> {
    let d = match p {
        Paint::Red => '1',
        Paint::Yellow => '3',
        Paint::Blue => '4',
    };
    seq!['\x1B', '[', '1', ';', '3', d, 'm']
}

/// The escape sequence that resets all attributes.
pub open spec fn ansi_reset() -> Seq<char> {
    seq!['\x1B', '[', '0', 'm']
}

/// The text of a piece, with or without colour codes.
pub open spec fn realize(p: Piece, coloured: bool) -> Seq<char> {
    match p {
        Piece::Text(t) => t,
        Piece::Painted(t, c) => if coloured {
            ansi_open(c) + t + ansi_reset()
        } else {
            t
        },
    }
}

/// The concatenated text of pieces, each coloured or not as `ch` says.
pub open spec fn realize_all(ps: Seq<Piece>, ch: Seq<bool>) -> Seq<char>
    decreases ps.len(),
{
    if ps.len() == 0 || ch.len() == 0 {
        Seq::empty()
    } else {
        realize_all(ps.drop_last(), ch.drop_last()) + realize(ps.last(), ch.last())
    }
}

/// `out` is the text of `ps`, where whether colour codes surround each painted piece
/// is up to the terminal settings the colouring library reads.
pub open spec fn renders(out: Seq<char>, ps: Seq<Piece>) -> bool {
    exists|ch: Seq<bool>| ch.len() == ps.len() && out == #[trigger] realize_all(ps, ch)
}

/// The decimal digit for `d < 10`.
pub open spec fn digit_char(d: nat) -> char {
    if d == 0 { '0' } else if d == 1 { '1' } else if d == 2 { '2' } else if d == 3 { '3' }
    else if d == 4 { '4' } else if d == 5 { '5' } else if d == 6 { '6' } else if d == 7 { '7' }
    else if d == 8 { '8' } else { '9' }
}

/// The decimal text of `n`, without leading zeros.
pub open spec fn decimal(n: nat) -> Seq<char>
    decreases n,
{
    if n < 10 {
        seq![digit_char(n)]
    } else {
        decimal(n / 10).push(digit_char(n % 10))
    }
}

/// A line without the one `\r` that may end it.
pub open spec fn strip_cr(t: Seq<char>) -> Seq<char> {
    if t.len() > 0 && t.last() == '\r' { t.drop_last() } else { t }
}

/// The lines of `s[start..]`, scanning from `i`, where `s[start..i]` holds no `\n`.
pub open spec fn split_lines(s: Seq<char>, i: int, start: int) -> Seq<Seq<char>>
    decreases s.len() - i,
{
    if i >= s.len() {
        if start < s.len() { seq![s.subrange(start, s.len() as int)] } else { Seq::empty() }
    } else if s[i] == '\n' {
        seq![strip_cr(s.subrange(start, i))] + split_lines(s, i + 1, i + 1)
    } else {
        split_lines(s, i + 1, start)
    }
}

/// The lines of `s` as `str::lines` splits them: at each `\n`, with one `\r` before the `\n`
/// removed, and no empty line after a final `\n`.
pub open spec fn str_lines(s: Seq<char>) -> Seq<Seq<char>> {
    split_lines(s, 0, 0)
}

/// The `n`-th line (from 0) of `s`, if it has one.
pub open spec fn nth_line(s: Seq<char>, n: int) -> Option<Seq<char>> {
    if 0 <= n < str_lines(s).len() { Some(str_lines(s)[n]) } else { None }
}

/// `n` spaces.
pub open spec fn spaces(n: nat) -> Seq<char> {
    Seq::new(n, |i: int| ' ')
}

/// One diagnostic: a level, the positions it points at, a text and notes under it.
pub struct MessageView {
    pub level: Seq<char>,
    pub lines: Seq<(usize, usize)>,
    pub message: Seq<char>,
    pub children: Seq<(Seq<char>, Seq<char>)>,
}

/// The label of a level: coloured for warnings, errors and notes, `info` otherwise.
pub open spec fn level_piece(level: Seq<char>) -> Piece {
    if level == seq!['w', 'a', 'r', 'n', 'i', 'n', 'g'] {
        Piece::Painted(level, Paint::Yellow)
    } else if level == seq!['e', 'r', 'r', 'o', 'r'] {
        Piece::Painted(level, Paint::Red)
    } else if level == seq!['n', 'o', 't', 'e'] {
        Piece::Painted(level, Paint::Blue)
    } else {
        Piece::Text(seq!['i', 'n', 'f', 'o'])
    }
}

/// The label of a note under a message: `note` in blue, `info` otherwise.
pub open spec fn child_piece(level: Seq<char>) -> Piece {
    if level == seq!['n', 'o', 't', 'e'] {
        Piece::Painted(level, Paint::Blue)
    } else {
        Piece::Text(seq!['i', 'n', 'f', 'o'])
    }
}

/// The head of a message: `level: message`, then `--> file:line:column` of its first position.
pub open spec fn head_pieces(m: MessageView, file: Seq<char>) -> Seq<Piece> {
    seq![
        level_piece(m.level),
        Piece::Text(seq![':', ' '] + m.message + seq!['\n', ' ', ' ']),
        Piece::Painted(seq!['-', '-', '>'], Paint::Blue),
        Piece::Text(seq![' '] + file + seq![':'] + decimal(m.lines[0].0 as nat) + seq![':']
            + decimal(m.lines[0].1 as nat) + seq!['\n']),
    ]
}

/// The source line at a position and a caret under its column; nothing when the
/// source has no such line.
pub open spec fn position_pieces(pos: (usize, usize), src: Seq<char>) -> Seq<Piece> {
    match nth_line(src, pos.0 - 1) {
        Some(line) => seq![
            Piece::Painted(decimal(pos.0 as nat), Paint::Blue),
            Piece::Text(seq![' ']),
            Piece::Painted(seq!['|'], Paint::Blue),
            Piece::Text(seq![' ', ' ', ' '] + line + seq![' ', ' ', '\n', ' ', ' ', ' ']),
            Piece::Painted(seq!['|'], Paint::Blue),
            Piece::Text(seq![' '] + spaces((pos.1 - 1) as nat) + seq![' ', ' ']),
            Piece::Painted(seq!['^'], Paint::Red),
            Piece::Text(seq![' ', ' ', '\n']),
        ],
        None => Seq::empty(),
    }
}

/// The pieces of the positions `lines[0..n]`.
pub open spec fn positions_pieces(lines: Seq<(usize, usize)>, n: int, src: Seq<char>) -> Seq<Piece>
    decreases n,
{
    if n <= 0 {
        Seq::empty()
    } else {
        positions_pieces(lines, n - 1, src) + position_pieces(lines[n - 1], src)
    }
}

/// One note: `  = label: text`.
pub open spec fn note_pieces(c: (Seq<char>, Seq<char>)) -> Seq<Piece> {
    seq![
        Piece::Text(seq![' ', ' ', '=', ' ']),
        child_piece(c.0),
        Piece::Text(seq![':', ' '] + c.1 + seq!['\n']),
    ]
}

/// The pieces of the notes `children[0..n]`.
pub open spec fn notes_pieces(children: Seq<(Seq<char>, Seq<char>)>, n: int) -> Seq<Piece>
    decreases n,
{
    if n <= 0 {
        Seq::empty()
    } else {
        notes_pieces(children, n - 1) + note_pieces(children[n - 1])
    }
}

/// The whole of one message.
pub open spec fn message_pieces(m: MessageView, file: Seq<char>, src: Seq<char>) -> Seq<Piece> {
    head_pieces(m, file) + positions_pieces(m.lines, m.lines.len() as int, src)
        + notes_pieces(m.children, m.children.len() as int)
}

/// The messages `ms[0..n]`, one after the other.
pub open spec fn messages_pieces(ms: Seq<MessageView>, n: int, file: Seq<char>, src: Seq<char>) -> Seq<Piece>
    decreases n,
{
    if n <= 0 {
        Seq::empty()
    } else {
        messages_pieces(ms, n - 1, file, src) + message_pieces(ms[n - 1], file, src)
    }
}

/// A message can be rendered: it points at something, and its lines and columns count from 1
/// where the source has the line.
pub open spec fn renderable(m: MessageView, src: Seq<char>) -> bool {
    &&& m.lines.len() > 0
    &&& forall|k: int| 0 <= k < m.lines.len() ==> #[trigger] m.lines[k].0 >= 1
    &&& forall|k: int| 0 <= k < m.lines.len() && nth_line(src, m.lines[k].0 - 1) is Some
        ==> #[trigger] m.lines[k].1 >= 1
}

struct ErrorMessage {
    level: String,
    lines: Vec<(usize, usize)>,
    message: String,
    children: Vec<ChildMessage>,
}

struct ChildMessage {
    level: String,
    message: String,
}

/// A list of diagnostics, printed together.
pub struct CompilerError {
    messages: Vec<ErrorMessage>,
}

impl ErrorMessage {
    spec fn view_of(self) -> MessageView {
        MessageView {
            level: self.level@,
            lines: self.lines@,
            message: self.message@,
            children: self.children@.map_values(|c: ChildMessage| (c.level@, c.message@)),
        }
    }
}

impl View for CompilerError {
    type V = Seq<MessageView>;

    closed spec fn view(&self) -> Seq<MessageView> {
        self.messages@.map_values(|m: ErrorMessage| m.view_of())
    }
}

/// Calls `colored`'s `red().bold()` and formats the result.  Whether the escape codes
/// are written depends on the environment and the terminal, so either outcome is allowed.
#[verifier::external_body]
fn paint_red(s: &str) -> (r: String)
    requires
        !s@.contains('\x1B'),
    ensures
        r@ == s@ || r@ == ansi_open(Paint::Red) + s@ + ansi_reset(),
{
    format!("{}", s.red().bold())
}

/// Calls `colored`'s `yellow().bold()` and formats the result; as for `paint_red`.
#[verifier::external_body]
fn paint_yellow(s: &str) -> (r: String)
    requires
        !s@.contains('\x1B'),
    ensures
        r@ == s@ || r@ == ansi_open(Paint::Yellow) + s@ + ansi_reset(),
{
    format!("{}", s.yellow().bold())
}

/// Calls `colored`'s `blue().bold()` and formats the result; as for `paint_red`.
#[verifier::external_body]
fn paint_blue(s: &str) -> (r: String)
    requires
        !s@.contains('\x1B'),
    ensures
        r@ == s@ || r@ == ansi_open(Paint::Blue) + s@ + ansi_reset(),
{
    format!("{}", s.blue().bold())
}

/// Calls `colored`'s `normal()` and formats the result: a plain string is written as it is.
#[verifier::external_body]
fn paint_normal(s: &str) -> (r: String)
    ensures
        r@ == s@,
{
    format!("{}", s.normal())
}

proof fn lemma_realize_push(ps: Seq<Piece>, ch: Seq<bool>, p: Piece, c: bool)
    requires
        ps.len() == ch.len(),
    ensures
        realize_all(ps.push(p), ch.push(c)) == realize_all(ps, ch) + realize(p, c),
{
    assert(ps.push(p).drop_last() =~= ps);
    assert(ch.push(c).drop_last() =~= ch);
}

/// Appends plain text.
fn emit_text(out: &mut String, t: &str, Ghost(ps): Ghost<Seq<Piece>>, Ghost(ch): Ghost<Seq<bool>>)
    requires
        ps.len() == ch.len(),
        old(out)@ == realize_all(ps, ch),
    ensures
        final(out)@ == realize_all(ps.push(Piece::Text(t@)), ch.push(false)),
{
    proof {
        lemma_realize_push(ps, ch, Piece::Text(t@), false);
    }
    out.append(t);
}

/// Appends a painted word.
fn emit_painted(
    out: &mut String,
    t: &str,
    p: Paint,
    Ghost(ps): Ghost<Seq<Piece>>,
    Ghost(ch): Ghost<Seq<bool>>,
) -> (c: Ghost<bool>)
    requires
        ps.len() == ch.len(),
        old(out)@ == realize_all(ps, ch),
        !t@.contains('\x1B'),
    ensures
        final(out)@ == realize_all(ps.push(Piece::Painted(t@, p)), ch.push(c@)),
{
    let s = match p {
        Paint::Red => paint_red(t),
        Paint::Yellow => paint_yellow(t),
        Paint::Blue => paint_blue(t),
    };
    let ghost c = s@ != t@;
    proof {
        lemma_realize_push(ps, ch, Piece::Painted(t@, p), c);
    }
    out.append(s.as_str());
    Ghost(c)
}

/// The decimal text of `n`.
pub fn usize_to_decimal(n: usize) -> (s: String)
    ensures
        s@ == decimal(n as nat),
    decreases n,
{
    let d = n % 10;
    let c = if d == 0 { '0' } else if d == 1 { '1' } else if d == 2 { '2' } else if d == 3 { '3' }
        else if d == 4 { '4' } else if d == 5 { '5' } else if d == 6 { '6' } else if d == 7 { '7' }
        else if d == 8 { '8' } else { '9' };
    if n < 10 {
        let mut s = String::new();
        s.push(c);
        assert(s@ =~= decimal(n as nat));
        s
    } else {
        let mut s = usize_to_decimal(n / 10);
        s.push(c);
        s
    }
}

proof fn lemma_decimal_digits(n: nat)
    ensures
        !decimal(n).contains('\x1B'),
        decimal(n).len() >= 1,
    decreases n,
{
    if n >= 10 {
        lemma_decimal_digits(n / 10);
        assert forall|i: int| 0 <= i < decimal(n).len() implies decimal(n)[i] != '\x1B' by {
            if i < decimal(n / 10).len() {
                assert(decimal(n)[i] == decimal(n / 10)[i]);
            }
        }
    }
}

/// The `n`-th line (from 0) of what `split_lines(s, i, start)` yields.
fn find_line(s: &Vec<char>, i: usize, start: usize, n: usize) -> (r: Option<String>)
    requires
        start <= i <= s.len(),
    ensures
        match r {
            Some(t) => {
                let ls = split_lines(s@, i as int, start as int);
                n < ls.len() && t@ == ls[n as int]
            },
            None => n >= split_lines(s@, i as int, start as int).len(),
        },
    decreases s.len() - i,
{
    let ghost i0 = i;
    let mut i = i;
    while i < s.len() && s[i] != '\n'
        invariant
            start <= i <= s.len(),
            i0 <= i,
            split_lines(s@, i as int, start as int) == split_lines(s@, i0 as int, start as int),
        decreases s.len() - i,
    {
        i += 1;
    }
    if i == s.len() {
        if start < s.len() {
            if n == 0 {
                let t = string_from(s, start, i);
                Some(t)
            } else {
                None
            }
        } else {
            None
        }
    } else {
        if n == 0 {
            let end = if i > start && s[i - 1] == '\r' { i - 1 } else { i };
            let t = string_from(s, start, end);
            assert(t@ =~= strip_cr(s@.subrange(start as int, i as int)));
            Some(t)
        } else {
            find_line(s, i + 1, i + 1, n - 1)
        }
    }
}

/// Whether `src` has an `n`-th line (from 0).
pub fn line_exists(src: &str, n: usize) -> (r: bool)
    ensures
        r == (nth_line(src@, n as int) is Some),
{
    let cs = chars_of(src);
    match find_line(&cs, 0, 0, n) {
        Some(_) => true,
        None => false,
    }
}

/// `n` spaces.
fn spaces_string(n: usize) -> (s: String)
    ensures
        s@ == spaces(n as nat),
{
    let mut s = String::new();
    let mut i: usize = 0;
    while i < n
        invariant
            i <= n,
            s@ == spaces(i as nat),
        decreases n - i,
    {
        s.push(' ');
        i += 1;
        assert(s@ =~= spaces(i as nat));
    }
    s
}

impl CompilerError {
    /// An empty list of diagnostics.
    pub fn new() -> (e: CompilerError)
        ensures
            e@ == Seq::<MessageView>::empty(),
    {
        let e = CompilerError { messages: Vec::new() };
        assert(e@ =~= Seq::<MessageView>::empty());
        e
    }

    /// Adds a message that points at several positions.
    pub fn add_group_message(&mut self, level: &str, lines: Vec<(usize, usize)>, message: &str)
        ensures
            final(self)@ == old(self)@.push(
                MessageView { level: level@, lines: lines@, message: message@, children: Seq::empty() },
            ),
    {
        let m = ErrorMessage {
            level: level.to_string(),
            lines,
            message: message.to_string(),
            children: Vec::new(),
        };
        assert(m.view_of().children =~= Seq::<(Seq<char>, Seq<char>)>::empty());
        self.messages.push(m);
        assert(self@ =~= old(self)@.push(m.view_of()));
    }

    /// Adds a message that points at one position.
    pub fn add_message(&mut self, level: &str, line: usize, column: usize, message: &str)
        ensures
            final(self)@ == old(self)@.push(
                MessageView {
                    level: level@,
                    lines: seq![(line, column)],
                    message: message@,
                    children: Seq::empty(),
                },
            ),
    {
        let mut lines: Vec<(usize, usize)> = Vec::new();
        lines.push((line, column));
        assert(lines@ =~= seq![(line, column)]);
        self.add_group_message(level, lines, message);
    }

    /// Adds a note under the message at `index`; nothing happens when there is no such message.
    pub fn add_child_message(&mut self, index: usize, level: &str, message: &str)
        ensures
            index < old(self)@.len() ==> final(self)@ == old(self)@.update(
                index as int,
                MessageView {
                    children: old(self)@[index as int].children.push((level@, message@)),
                    ..old(self)@[index as int]
                },
            ),
            index >= old(self)@.len() ==> final(self)@ == old(self)@,
    {
        if index < self.messages.len() {
            let mut msgs: Vec<ErrorMessage> = Vec::new();
            std::mem::swap(&mut msgs, &mut self.messages);
            let mut m = msgs.remove(index);
            let ghost before = m.view_of();
            m.children.push(ChildMessage { level: level.to_string(), message: message.to_string() });
            assert(m.view_of().children =~= before.children.push((level@, message@)));
            msgs.insert(index, m);
            self.messages = msgs;
            assert(self@ =~= old(self)@.update(
                index as int,
                MessageView { children: before.children.push((level@, message@)), ..before },
            ));
        }
    }

    /// All messages, each with its source lines and carets, and its notes.
    pub fn format_error_string(&self, file: &str, source_code: &str) -> (r: String)
        requires
            forall|i: int| 0 <= i < self@.len() ==> renderable(#[trigger] self@[i], source_code@),
        ensures
            renders(r@, messages_pieces(self@, self@.len() as int, file@, source_code@)),
    {
        let src = chars_of(source_code);
        let mut out = String::new();
        let ghost mut ps: Seq<Piece> = Seq::empty();
        let ghost mut ch: Seq<bool> = Seq::empty();
        let mut i: usize = 0;
        while i < self.messages.len()
            invariant
                i <= self.messages.len(),
                src@ == source_code@,
                ps.len() == ch.len(),
                out@ == realize_all(ps, ch),
                ps == messages_pieces(self@, i as int, file@, source_code@),
                forall|k: int| 0 <= k < self@.len() ==> renderable(#[trigger] self@[k], source_code@),
            decreases self.messages.len() - i,
        {
            let m = &self.messages[i];
            assert(m.view_of() == self@[i as int]);
            let ghost before = ps;
            let (o2, Ghost(ps2), Ghost(ch2)) = format_message(m, file, &src, out, Ghost(ps), Ghost(ch));
            out = o2;
            proof {
                ps = ps2;
                ch = ch2;
            }
            i += 1;
        }
        proof {
            assert(ch.len() == ps.len() && out@ == realize_all(ps, ch));
        }
        out
    }
}

/// Appends the head of a message.
fn emit_head(
    out: &mut String,
    m: &ErrorMessage,
    file: &str,
    Ghost(ps): Ghost<Seq<Piece>>,
    Ghost(ch): Ghost<Seq<bool>>,
) -> (r: Ghost<Seq<bool>>)
    requires
        ps.len() == ch.len(),
        old(out)@ == realize_all(ps, ch),
        m.lines@.len() > 0,
    ensures
        r@.len() == ps.len() + 4,
        final(out)@ == realize_all(ps + head_pieces(m.view_of(), file@), r@),
{
    let ghost mv = m.view_of();
    let ghost mut ps = ps;
    let ghost mut ch = ch;
    let ghost start = ps;
    let ghost lp = level_piece(mv.level);
    let lv = m.level.as_str();
    proof {
        reveal_strlit("warning");
        reveal_strlit("error");
        reveal_strlit("note");
        reveal_strlit("info");
        reveal_strlit(": ");
        reveal_strlit("\n  ");
        reveal_strlit("-->");
        reveal_strlit(" ");
        reveal_strlit(":");
        reveal_strlit("\n");
        assert("warning"@ =~= seq!['w', 'a', 'r', 'n', 'i', 'n', 'g']);
        assert("error"@ =~= seq!['e', 'r', 'r', 'o', 'r']);
        assert("note"@ =~= seq!['n', 'o', 't', 'e']);
        assert("info"@ =~= seq!['i', 'n', 'f', 'o']);
    }
    if str_eq(lv, "warning") {
        let Ghost(c) = emit_painted(out, lv, Paint::Yellow, Ghost(ps), Ghost(ch));
        proof { ps = ps.push(lp); ch = ch.push(c); }
    } else if str_eq(lv, "error") {
        let Ghost(c) = emit_painted(out, lv, Paint::Red, Ghost(ps), Ghost(ch));
        proof { ps = ps.push(lp); ch = ch.push(c); }
    } else if str_eq(lv, "note") {
        let Ghost(c) = emit_painted(out, lv, Paint::Blue, Ghost(ps), Ghost(ch));
        proof { ps = ps.push(lp); ch = ch.push(c); }
    } else {
        let info = paint_normal("info");
        assert(info@ == seq!['i', 'n', 'f', 'o']);
        emit_text(out, info.as_str(), Ghost(ps), Ghost(ch));
        proof { ps = ps.push(lp); ch = ch.push(false); }
    }
    assert(ps.len() == ch.len());
    assert(out@ == realize_all(ps, ch));
    let mut t = String::new();
    t.append(": ");
    t.append(m.message.as_str());
    t.append("\n  ");
    emit_text(out, t.as_str(), Ghost(ps), Ghost(ch));
    proof { ps = ps.push(Piece::Text(t@)); ch = ch.push(false); }
    let Ghost(c) = emit_painted(out, "-->", Paint::Blue, Ghost(ps), Ghost(ch));
    proof { ps = ps.push(Piece::Painted("-->"@, Paint::Blue)); ch = ch.push(c); }
    let (l0, c0) = m.lines[0];
    let mut t = String::new();
    t.append(" ");
    t.append(file);
    t.append(":");
    t.append(usize_to_decimal(l0).as_str());
    t.append(":");
    t.append(usize_to_decimal(c0).as_str());
    t.append("\n");
    emit_text(out, t.as_str(), Ghost(ps), Ghost(ch));
    proof {
        ps = ps.push(Piece::Text(t@));
        ch = ch.push(false);
        assert(":"@ =~= seq![':']);
        assert(" "@ =~= seq![' ']);
        assert("\n"@ =~= seq!['\n']);
        assert(": "@ =~= seq![':', ' ']);
        assert("\n  "@ =~= seq!['\n', ' ', ' ']);
        assert("-->"@ =~= seq!['-', '-', '>']);
        assert(ps =~= start + head_pieces(mv, file@));
    }
    Ghost(ch)
}

/// Appends the source line at a position and its caret, if the source has the line.
fn emit_position(
    out: &mut String,
    line: usize,
    column: usize,
    src: &Vec<char>,
    Ghost(ps): Ghost<Seq<Piece>>,
    Ghost(ch): Ghost<Seq<bool>>,
) -> (r: Ghost<Seq<bool>>)
    requires
        ps.len() == ch.len(),
        old(out)@ == realize_all(ps, ch),
        line >= 1,
        nth_line(src@, line - 1) is Some ==> column >= 1,
    ensures
        r@.len() == ps.len() + position_pieces((line, column), src@).len(),
        final(out)@ == realize_all(ps + position_pieces((line, column), src@), r@),
{
    let ghost mut ps = ps;
    let ghost mut ch = ch;
    let ghost before = ps;
    match find_line(src, 0, 0, line - 1) {
        Some(text) => {
            assert(nth_line(src@, line - 1) == Some(text@));
            proof {
                reveal_strlit("|");
                reveal_strlit("^");
                reveal_strlit("   ");
                reveal_strlit("  \n");
                reveal_strlit("  ");
                reveal_strlit(" ");
                lemma_decimal_digits(line as nat);
            }
            let num = usize_to_decimal(line);
            let Ghost(c1) = emit_painted(out, num.as_str(), Paint::Blue, Ghost(ps), Ghost(ch));
            proof { ps = ps.push(Piece::Painted(num@, Paint::Blue)); ch = ch.push(c1); }
            emit_text(out, " ", Ghost(ps), Ghost(ch));
            proof { ps = ps.push(Piece::Text(" "@)); ch = ch.push(false); }
            let Ghost(c2) = emit_painted(out, "|", Paint::Blue, Ghost(ps), Ghost(ch));
            proof { ps = ps.push(Piece::Painted("|"@, Paint::Blue)); ch = ch.push(c2); }
            let mut t = String::new();
            t.append("   ");
            t.append(text.as_str());
            t.append("  \n");
            t.append("   ");
            assert(t@ =~= seq![' ', ' ', ' '] + text@ + seq![' ', ' ', '\n', ' ', ' ', ' ']);
            emit_text(out, t.as_str(), Ghost(ps), Ghost(ch));
            proof { ps = ps.push(Piece::Text(t@)); ch = ch.push(false); }
            let Ghost(c3) = emit_painted(out, "|", Paint::Blue, Ghost(ps), Ghost(ch));
            proof { ps = ps.push(Piece::Painted("|"@, Paint::Blue)); ch = ch.push(c3); }
            let mut t = String::new();
            t.append(" ");
            t.append(spaces_string(column - 1).as_str());
            t.append("  ");
            assert(t@ =~= seq![' '] + spaces((column - 1) as nat) + seq![' ', ' ']);
            emit_text(out, t.as_str(), Ghost(ps), Ghost(ch));
            proof { ps = ps.push(Piece::Text(t@)); ch = ch.push(false); }
            let Ghost(c4) = emit_painted(out, "^", Paint::Red, Ghost(ps), Ghost(ch));
            proof { ps = ps.push(Piece::Painted("^"@, Paint::Red)); ch = ch.push(c4); }
            emit_text(out, "  \n", Ghost(ps), Ghost(ch));
            proof {
                ps = ps.push(Piece::Text("  \n"@));
                ch = ch.push(false);
                assert(" "@ =~= seq![' ']);
                assert("|"@ =~= seq!['|']);
                assert("^"@ =~= seq!['^']);
                assert("   "@ =~= seq![' ', ' ', ' ']);
                assert("  "@ =~= seq![' ', ' ']);
                assert("  \n"@ =~= seq![' ', ' ', '\n']);
                assert(ps =~= before + position_pieces((line, column), src@));
            }
        }
        None => {
            assert(position_pieces((line, column), src@) =~= Seq::<Piece>::empty());
            assert(ps =~= before + position_pieces((line, column), src@));
        }
    }
    Ghost(ch)
}

/// Appends one note.
fn emit_note(
    out: &mut String,
    child: &ChildMessage,
    Ghost(ps): Ghost<Seq<Piece>>,
    Ghost(ch): Ghost<Seq<bool>>,
) -> (r: Ghost<Seq<bool>>)
    requires
        ps.len() == ch.len(),
        old(out)@ == realize_all(ps, ch),
    ensures
        r@.len() == ps.len() + 3,
        final(out)@ == realize_all(ps + note_pieces((child.level@, child.message@)), r@),
{
    let ghost mut ps = ps;
    let ghost mut ch = ch;
    let ghost before = ps;
    proof {
        reveal_strlit("  = ");
        reveal_strlit("note");
        reveal_strlit("info");
        reveal_strlit(": ");
        reveal_strlit("\n");
        assert("note"@ =~= seq!['n', 'o', 't', 'e']);
        assert("info"@ =~= seq!['i', 'n', 'f', 'o']);
    }
    emit_text(out, "  = ", Ghost(ps), Ghost(ch));
    proof { ps = ps.push(Piece::Text("  = "@)); ch = ch.push(false); }
    if str_eq(child.level.as_str(), "note") {
        let Ghost(c) = emit_painted(out, child.level.as_str(), Paint::Blue, Ghost(ps), Ghost(ch));
        proof { ps = ps.push(child_piece(child.level@)); ch = ch.push(c); }
    } else {
        let info = paint_normal("info");
        assert(info@ == seq!['i', 'n', 'f', 'o']);
        emit_text(out, info.as_str(), Ghost(ps), Ghost(ch));
        proof { ps = ps.push(child_piece(child.level@)); ch = ch.push(false); }
    }
    let mut t = String::new();
    t.append(": ");
    t.append(child.message.as_str());
    t.append("\n");
    emit_text(out, t.as_str(), Ghost(ps), Ghost(ch));
    proof {
        ps = ps.push(Piece::Text(t@));
        ch = ch.push(false);
        assert("  = "@ =~= seq![' ', ' ', '=', ' ']);
        assert(": "@ =~= seq![':', ' ']);
        assert("\n"@ =~= seq!['\n']);
        assert(ps =~= before + note_pieces((child.level@, child.message@)));
    }
    Ghost(ch)
}

/// Appends one message.
fn format_message(
    m: &ErrorMessage,
    file: &str,
    src: &Vec<char>,
    out: String,
    Ghost(ps): Ghost<Seq<Piece>>,
    Ghost(ch): Ghost<Seq<bool>>,
) -> (r: (String, Ghost<Seq<Piece>>, Ghost<Seq<bool>>))
    requires
        ps.len() == ch.len(),
        out@ == realize_all(ps, ch),
        renderable(m.view_of(), src@),
    ensures
        r.1@ == ps + message_pieces(m.view_of(), file@, src@),
        r.1@.len() == r.2@.len(),
        r.0@ == realize_all(r.1@, r.2@),
{
    let mut out = out;
    let ghost mv = m.view_of();
    let ghost start = ps;
    let Ghost(ch1) = emit_head(&mut out, m, file, Ghost(ps), Ghost(ch));
    let ghost mut ps = ps + head_pieces(mv, file@);
    let ghost mut ch = ch1;
    let mut k: usize = 0;
    while k < m.lines.len()
        invariant
            k <= m.lines.len(),
            mv == m.view_of(),
            renderable(mv, src@),
            ps.len() == ch.len(),
            out@ == realize_all(ps, ch),
            ps == start + head_pieces(mv, file@) + positions_pieces(mv.lines, k as int, src@),
        decreases m.lines.len() - k,
    {
        let (line, column) = m.lines[k];
        assert(mv.lines[k as int] == (line, column));
        let Ghost(ch2) = emit_position(&mut out, line, column, src, Ghost(ps), Ghost(ch));
        proof {
            ps = ps + position_pieces((line, column), src@);
            ch = ch2;
        }
        k += 1;
        proof {
            assert(ps =~= start + head_pieces(mv, file@) + positions_pieces(mv.lines, k as int, src@));
        }
    }
    let ghost mid = ps;
    let mut k: usize = 0;
    while k < m.children.len()
        invariant
            k <= m.children.len(),
            mv == m.view_of(),
            ps.len() == ch.len(),
            out@ == realize_all(ps, ch),
            ps == mid + notes_pieces(mv.children, k as int),
        decreases m.children.len() - k,
    {
        let child = &m.children[k];
        assert(mv.children[k as int] == (child.level@, child.message@));
        let Ghost(ch2) = emit_note(&mut out, child, Ghost(ps), Ghost(ch));
        proof {
            ps = ps + note_pieces((child.level@, child.message@));
            ch = ch2;
        }
        k += 1;
        proof {
            assert(ps =~= mid + notes_pieces(mv.children, k as int));
        }
    }
    proof {
        assert(ps =~= start + message_pieces(mv, file@, src@));
    }
    (out, Ghost(ps), Ghost(ch))
}

/// The text of a single diagnostic at one position, as the lexers and the parser report it.
pub fn error_report(level: &str, line: usize, column: usize, file: &str, src: &str, message: &str) -> (r: String)
    requires
        renderable(
            MessageView { level: level@, lines: seq![(line, column)], message: message@, children: Seq::empty() },
            src@,
        ),
    ensures
        renders(
            r@,
            message_pieces(
                MessageView { level: level@, lines: seq![(line, column)], message: message@, children: Seq::empty() },
                file@,
                src@,
            ),
        ),
{
    let mut e = CompilerError::new();
    e.add_message(level, line, column, message);
    let ghost m = MessageView { level: level@, lines: seq![(line, column)], message: message@, children: Seq::empty() };
    assert(e@ =~= seq![m]);
    let r = e.format_error_string(file, src);
    assert(messages_pieces(e@, 1, file@, src@) =~= message_pieces(m, file@, src@)) by {
        assert(messages_pieces(e@, 0, file@, src@) =~= Seq::<Piece>::empty());
    }
    r
}

} // verus!
