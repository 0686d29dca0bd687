//! Values and row sets exchanged with the storage engine.

use vstd::prelude::*;

verus! {

/// The decimal digits of `n`, most significant first.
pub open spec fn decimal(n: nat) -> Seq<char>
    decreases n,
{
    if n < 10 {
        seq![digit(n)]
    } else {
        decimal(n / 10).push(digit(n % 10))
    }
}

pub open spec fn digit(d: nat) -> char {
    if d == 0 { '0' }
    else if d == 1 { '1' }
    else if d == 2 { '2' }
    else if d == 3 { '3' }
    else if d == 4 { '4' }
    else if d == 5 { '5' }
    else if d == 6 { '6' }
    else if d == 7 { '7' }
    else if d == 8 { '8' }
    else { '9' }
}

fn digit_char(d: usize) -> (r: char)
    requires
        d < 10,
    ensures
        r == digit(d as nat),
{
    if d == 0 { '0' }
    else if d == 1 { '1' }
    else if d == 2 { '2' }
    else if d == 3 { '3' }
    else if d == 4 { '4' }
    else if d == 5 { '5' }
    else if d == 6 { '6' }
    else if d == 7 { '7' }
    else if d == 8 { '8' }
    else { '9' }
}

/// The decimal form of `n`.
pub fn usize_to_decimal(n: usize) -> (r: String)
    ensures
        r@ == decimal(n as nat),
{
    let mut digits: Vec<char> = Vec::new();
    let mut m: usize = n;
    // digits holds the low-order digits of n, least significant first
    while m >= 10
        invariant
            decimal(n as nat) == decimal(m as nat) + digits@.reverse(),
        decreases m,
    {
        let d = m % 10;
        proof {
            assert(decimal(m as nat) == decimal((m / 10) as nat).push(digit((m % 10) as nat)));
            assert(digits@.push(digit_char_spec(d)).reverse() =~= seq![digit(d as nat)]
                + digits@.reverse());
            assert(decimal((m / 10) as nat).push(digit(d as nat)) + digits@.reverse()
                =~= decimal((m / 10) as nat) + (seq![digit(d as nat)] + digits@.reverse()));
        }
        digits.push(digit_char(d));
        m = m / 10;
    }
    digits.push(digit_char(m));
    let mut out: Vec<char> = Vec::new();
    let mut k: usize = digits.len();
    while k > 0
        invariant
            k <= digits@.len(),
            out@ == digits@.subrange(k as int, digits@.len() as int).reverse(),
        decreases k,
    {
        k = k - 1;
        assert(digits@.subrange(k as int, digits@.len() as int).reverse() =~= digits@.subrange(
            k + 1,
            digits@.len() as int,
        ).reverse().push(digits@[k as int]));
        out.push(digits[k]);
    }
    proof {
        assert(digits@.subrange(0, digits@.len() as int) =~= digits@);
        assert(decimal(n as nat) =~= digits@.reverse());
    }
    crate::chars::string_of(&out)
}

spec fn digit_char_spec(d: usize) -> char {
    digit(d as nat)
}

/// A value exchanged with the storage engine.
#[derive(Debug, Clone, PartialEq, Eq)]
pub enum Value {
    Null,
    Bool(bool),
    Int(i64),
    Str(String),
}

pub open spec fn is_str(v: Value, s: Seq<char>) -> bool {
    match v {
        Value::Str(x) => x@ == s,
        _ => false,
    }
}

/// A named parameter of a script.
pub open spec fn str_param(p: (String, Value), name: Seq<char>, s: Seq<char>) -> bool {
    p.0@ == name && is_str(p.1, s)
}

pub open spec fn int_param(p: (String, Value), name: Seq<char>, n: int) -> bool {
    p.0@ == name && p.1 == Value::Int(n as i64)
}

/// A headered row set, as the storage engine returns it.
#[derive(Debug, Clone, PartialEq, Eq)]
pub struct Rows {
    pub headers: Vec<String>,
    pub rows: Vec<Vec<Value>>,
}

impl Rows {
    pub fn new(headers: Vec<String>, rows: Vec<Vec<Value>>) -> (r: Rows)
        ensures
            r.headers == headers,
            r.rows == rows,
    {
        Rows { headers, rows }
    }
}

/// A parameterized script for the storage engine.
#[derive(Debug, Clone, PartialEq, Eq)]
pub struct DbQuery {
    pub script: String,
    pub params: Vec<(String, Value)>,
}

/// A failure reported by the storage engine.
#[derive(Debug, Clone, PartialEq, Eq)]
pub enum DBError {
    Cozo(String),
    JoinError(String),
    Other(String),
}

} // verus!
