//! Run-time values of the interpreter and their mathematical meaning.
use vstd::prelude::*;
use crate::error::decimal;
use crate::text::{debug_str, str_debug};

verus! {

/// A value that a script computes.  A floating-point number is kept as its decimal text.
#[derive(Debug)]
pub enum RtValue {
    Null,
    Bool(bool),
    Int(i64),
    Float(String),
    Str(String),
    Array(Vec<RtValue>),
}

/// The mathematical value of a run-time value.
pub enum Val {
    Null,
    Bool(bool),
    Int(i64),
    Float(Seq<char>),
    Str(Seq<char>),
    Array(Seq<Val>),
}

impl RtValue {
    /// The mathematical value of a run-time value.
    pub open spec fn sv(self) -> Val
        decreases self, 0int,
    {
        match self {
            RtValue::Null => Val::Null,
            RtValue::Bool(b) => Val::Bool(b),
            RtValue::Int(i) => Val::Int(i),
            RtValue::Float(t) => Val::Float(t@),
            RtValue::Str(s) => Val::Str(s@),
            RtValue::Array(v) => Val::Array(vals_sv(v@, v@.len() as int)),
        }
    }
}

/// The mathematical values of `vs[0..n]`.
pub open spec fn vals_sv(vs: Seq<RtValue>, n: int) -> Seq<Val>
    decreases vs, n,
{
    if n <= 0 || n > vs.len() {
        Seq::empty()
    } else {
        vals_sv(vs, n - 1).push(vs[n - 1].sv())
    }
}

/// `vals_sv` reads only the first `n` values.
pub proof fn lemma_vals_sv_prefix(a: Seq<RtValue>, b: Seq<RtValue>, n: int)
    requires
        0 <= n <= a.len(),
        n <= b.len(),
        forall|k: int| 0 <= k < n ==> a[k] == b[k],
    ensures
        vals_sv(a, n) == vals_sv(b, n),
    decreases n,
{
    if n > 0 {
        lemma_vals_sv_prefix(a, b, n - 1);
    }
}

/// The mathematical values after a push.
pub proof fn lemma_vals_sv_push(a: Seq<RtValue>, x: RtValue)
    ensures
        vals_sv(a.push(x), a.len() + 1int) == vals_sv(a, a.len() as int).push(x.sv()),
{
    lemma_vals_sv_prefix(a, a.push(x), a.len() as int);
}

/// `vals_sv` has one value per element, each the value of that element.
pub proof fn lemma_vals_sv_index(a: Seq<RtValue>, n: int)
    requires
        0 <= n <= a.len(),
    ensures
        vals_sv(a, n).len() == n,
        forall|k: int| 0 <= k < n ==> #[trigger] vals_sv(a, n)[k] == a[k].sv(),
    decreases n,
{
    if n > 0 {
        lemma_vals_sv_index(a, n - 1);
    }
}

/// The decimal text of an integer, with a minus sign when it is negative.
pub open spec fn int_text(i: int) -> Seq<char> {
    if i < 0 {
        seq!['-'] + decimal((-i) as nat)
    } else {
        decimal(i as nat)
    }
}

/// The text `format!("{:?}", v)` gives for the JSON value that `v` stands for: `Null`,
/// `Bool(true)`, `Number(3)`, `String("a")`, `Array [..]`.
pub open spec fn value_debug(v: Val) -> Seq<char>
    decreases v, 0int,
{
    match v {
        Val::Null => seq!['N', 'u', 'l', 'l'],
        Val::Bool(b) => seq!['B', 'o', 'o', 'l', '('] + (if b { seq!['t', 'r', 'u', 'e'] } else {
            seq!['f', 'a', 'l', 's', 'e']
        }) + seq![')'],
        Val::Int(i) => seq!['N', 'u', 'm', 'b', 'e', 'r', '('] + int_text(i as int) + seq![')'],
        Val::Float(t) => seq!['N', 'u', 'm', 'b', 'e', 'r', '('] + t + seq![')'],
        Val::Str(s) => seq!['S', 't', 'r', 'i', 'n', 'g', '('] + str_debug(s) + seq![')'],
        Val::Array(xs) => seq!['A', 'r', 'r', 'a', 'y', ' ', '['] + items_debug(xs, xs.len() as int)
            + seq![']'],
    }
}

/// The items `xs[0..n]`, each as `value_debug` writes it, separated by `, `.
pub open spec fn items_debug(xs: Seq<Val>, n: int) -> Seq<char>
    decreases xs, n,
{
    if n <= 0 || n > xs.len() {
        Seq::empty()
    } else if n == 1 {
        value_debug(xs[0])
    } else {
        items_debug(xs, n - 1) + seq![',', ' '] + value_debug(xs[n - 1])
    }
}

/// The decimal text of `n`.
fn u64_to_decimal(n: u64) -> (s: String)
    ensures
        s@ == decimal(n as nat),
    decreases n,
{
    let d = n % 10;
    let c = if d == 0 { '0' } else if d == 1 { '1' } else if d == 2 { '2' } else if d == 3 { '3' }
        else if d == 4 { '4' } else if d == 5 { '5' } else if d == 6 { '6' } else if d == 7 { '7' }
        else if d == 8 { '8' } else { '9' };
    if n < 10 {
        let mut s = String::new();
        s.push(c);
        assert(s@ =~= decimal(n as nat));
        s
    } else {
        let mut s = u64_to_decimal(n / 10);
        s.push(c);
        s
    }
}

/// The decimal text of an `i64`.
pub fn i64_to_text(i: i64) -> (s: String)
    ensures
        s@ == int_text(i as int),
{
    if i < 0 {
        let m: u64 = if i == i64::MIN { 9223372036854775808u64 } else { (-i) as u64 };
        let mut s = String::new();
        s.push('-');
        let t = u64_to_decimal(m);
        s.append(t.as_str());
        assert(s@ =~= int_text(i as int));
        s
    } else {
        u64_to_decimal(i as u64)
    }
}

impl RtValue {
    /// An equal value, element by element.
    pub fn copy(&self) -> (r: RtValue)
        ensures
            r.sv() == self.sv(),
        decreases self.sv(),
    {
        match self {
            RtValue::Null => RtValue::Null,
            RtValue::Bool(b) => RtValue::Bool(*b),
            RtValue::Int(i) => RtValue::Int(*i),
            RtValue::Float(t) => RtValue::Float(t.clone()),
            RtValue::Str(s) => RtValue::Str(s.clone()),
            RtValue::Array(v) => {
                let mut out: Vec<RtValue> = Vec::new();
                let mut i: usize = 0;
                while i < v.len()
                    invariant
                        i <= v.len(),
                        self.sv() == Val::Array(vals_sv(v@, v@.len() as int)),
                        out@.len() == i,
                        vals_sv(out@, i as int) == vals_sv(v@, i as int),
                    decreases v.len() - i,
                {
                    proof {
                        lemma_vals_sv_index(v@, v@.len() as int);
                        let xs = vals_sv(v@, v@.len() as int);
                        assert(self.sv() == Val::Array(xs));
                        assert(xs[i as int] == v@[i as int].sv());
                        assert(decreases_to!(self.sv() => self.sv()->Array_0));
                        assert(decreases_to!(xs => xs[i as int]));
                    }
                    let x = v[i].copy();
                    proof {
                        lemma_vals_sv_push(out@, x);
                    }
                    out.push(x);
                    i += 1;
                }
                RtValue::Array(out)
            },
        }
    }

    /// The text `format!("{:?}", v)` gives for the JSON value this value stands for.
    pub fn debug_text(&self) -> (r: String)
        ensures
            r@ == value_debug(self.sv()),
        decreases self.sv(),
    {
        match self {
            RtValue::Null => {
                proof {
                    reveal_strlit("Null");
                }
                "Null".to_string()
            },
            RtValue::Bool(b) => {
                proof {
                    reveal_strlit("Bool(true)");
                    reveal_strlit("Bool(false)");
                }
                if *b { "Bool(true)".to_string() } else { "Bool(false)".to_string() }
            },
            RtValue::Int(i) => {
                proof {
                    reveal_strlit("Number(");
                }
                let mut s = "Number(".to_string();
                s.append(i64_to_text(*i).as_str());
                s.push(')');
                s
            },
            RtValue::Float(t) => {
                proof {
                    reveal_strlit("Number(");
                }
                let mut s = "Number(".to_string();
                s.append(t.as_str());
                s.push(')');
                s
            },
            RtValue::Str(x) => {
                proof {
                    reveal_strlit("String(");
                }
                let mut s = "String(".to_string();
                s.append(debug_str(x.as_str()).as_str());
                s.push(')');
                s
            },
            RtValue::Array(v) => {
                proof {
                    reveal_strlit("Array [");
                    reveal_strlit(", ");
                }
                let mut s = "Array [".to_string();
                let ghost xs = vals_sv(v@, v@.len() as int);
                proof {
                    lemma_vals_sv_index(v@, v@.len() as int);
                }
                let mut i: usize = 0;
                while i < v.len()
                    invariant
                        i <= v.len(),
                        self.sv() == Val::Array(vals_sv(v@, v@.len() as int)),
                        xs == vals_sv(v@, v@.len() as int),
                        xs.len() == v@.len(),
                        forall|k: int| 0 <= k < v@.len() ==> #[trigger] xs[k] == v@[k].sv(),
                        s@ == seq!['A', 'r', 'r', 'a', 'y', ' ', '['] + items_debug(xs, i as int),
                    decreases v.len() - i,
                {
                    proof {
                        lemma_vals_sv_index(v@, v@.len() as int);
                        let xs = vals_sv(v@, v@.len() as int);
                        assert(self.sv() == Val::Array(xs));
                        assert(xs[i as int] == v@[i as int].sv());
                        assert(decreases_to!(self.sv() => self.sv()->Array_0));
                        assert(decreases_to!(xs => xs[i as int]));
                    }
                    let t = v[i].debug_text();
                    proof {
                        reveal_strlit(", ");
                    }
                    if i > 0 {
                        s.append(", ");
                    }
                    s.append(t.as_str());
                    assert(t@ == value_debug(xs[i as int]));
                    if i == 0 {
                        assert(items_debug(xs, 1) == value_debug(xs[0]));
                        assert(items_debug(xs, 0) =~= Seq::<char>::empty());
                    } else {
                        assert(items_debug(xs, i + 1) == items_debug(xs, i as int) + seq![',', ' ']
                            + value_debug(xs[i as int]));
                    }
                    assert(s@ =~= seq!['A', 'r', 'r', 'a', 'y', ' ', '['] + items_debug(xs, i + 1));
                    i += 1;
                }
                s.push(']');
                assert(s@ =~= value_debug(self.sv()));
                s
            },
        }
    }
}

} // verus!
