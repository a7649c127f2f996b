//! Coercion between value kinds: truthiness aside, everything the operators
//! need — numeric coercion, string rendering, and the exact arithmetic of
//! the general numeric kind.
//!
//! The general numeric kind is modelled over 64-bit integers.  Arithmetic
//! whose true result leaves the representable range yields 0, the model's
//! stand-in for a non-number; division uses truncation toward zero and
//! division by zero also yields 0.  Strings coerce to a number only when
//! they are a plain optionally-signed decimal of at most eighteen digits;
//! all other strings, and objects, coerce to 0.

use vstd::prelude::*;
use vstd::string::StrSliceExecFns;
use vstd::string::StringExecFns;
use crate::value::MVal;
use crate::value::Value;

verus! {

/// The digit character for `d`, which must be below ten.
pub open spec fn digit_char(d: int) -> char {
    if d == 0 { '0' } else if d == 1 { '1' } else if d == 2 { '2' }
    else if d == 3 { '3' } else if d == 4 { '4' } else if d == 5 { '5' }
    else if d == 6 { '6' } else if d == 7 { '7' } else if d == 8 { '8' }
    else { '9' }
}

/// The decimal digits of the non-negative `n`, most significant first.
pub open spec fn dec_digits(n: nat) -> Seq<char>
    decreases n,
{
    if n < 10 {
        seq![digit_char(n as int)]
    } else {
        dec_digits(n / 10).push(digit_char((n % 10) as int))
    }
}

/// The decimal rendering of an integer, with a leading minus sign when
/// negative.
pub open spec fn int_str(n: int) -> Seq<char> {
    if n < 0 {
        seq!['-'] + dec_digits((-n) as nat)
    } else {
        dec_digits(n as nat)
    }
}

/// The numeric value of a digit character.
pub open spec fn digit_val(c: char) -> int {
    (c as u32) - 48
}

/// Whether `s` is a nonempty run of decimal digits.
pub open spec fn all_digits(s: Seq<char>) -> bool {
    s.len() > 0 && forall|i: int| 0 <= i < s.len() ==> 48 <= #[trigger] (s[i] as u32) <= 57
}

/// The value of a digit string, most significant digit first.
pub open spec fn dec_val(s: Seq<char>) -> int
    decreases s.len(),
{
    if s.len() == 0 {
        0
    } else {
        dec_val(s.drop_last()) * 10 + digit_val(s.last())
    }
}

/// Ten to the power `i`.
pub open spec fn pow10(i: nat) -> int
    decreases i,
{
    if i == 0 {
        1
    } else {
        10 * pow10((i - 1) as nat)
    }
}

/// The number a string coerces to: the value of a plain optionally-signed
/// decimal of at most eighteen digits, and 0 for every other string.
pub open spec fn str_to_num(s: Seq<char>) -> int {
    if s.len() >= 1 && s[0] == '-' {
        let t = s.drop_first();
        if all_digits(t) && t.len() <= 18 {
            -dec_val(t)
        } else {
            0
        }
    } else if all_digits(s) && s.len() <= 18 {
        dec_val(s)
    } else {
        0
    }
}

/// The number a value coerces to.  `undefined`, `null`, objects, functions
/// and non-numeric strings all coerce to 0.
pub open spec fn to_num(v: MVal) -> int {
    match v {
        MVal::Undefined => 0,
        MVal::Null => 0,
        MVal::Bool(b) => if b { 1 } else { 0 },
        MVal::Num(n) => n,
        MVal::Int(i) => i,
        MVal::Str(s) => str_to_num(s),
        MVal::Obj(_) => 0,
        MVal::Fun(_) => 0,
    }
}

/// The string a value coerces to.  Objects and functions render as fixed
/// placeholders; recursive rendering of object contents is not modelled.
pub open spec fn to_str(v: MVal) -> Seq<char> {
    match v {
        MVal::Undefined => "undefined"@,
        MVal::Null => "null"@,
        MVal::Bool(b) => if b { "true"@ } else { "false"@ },
        MVal::Num(n) => int_str(n),
        MVal::Int(i) => int_str(i),
        MVal::Str(s) => s,
        MVal::Obj(_) => "[object Object]"@,
        MVal::Fun(_) => "[function]"@,
    }
}

/// `n` itself when it fits the 64-bit signed range, 0 otherwise.
pub open spec fn clamp64(n: int) -> int {
    if i64::MIN <= n <= i64::MAX {
        n
    } else {
        0
    }
}

/// Truncating division, defined for `d != 0`.
pub open spec fn trunc_div(x: int, d: int) -> int {
    if x == 0 {
        0
    } else if x > 0 && d > 0 {
        x / d
    } else if x < 0 && d < 0 {
        (x * -1) / (d * -1)
    } else if x < 0 {
        ((x * -1) / d) * -1
    } else {
        (x / (d * -1)) * -1
    }
}

/// Truncating remainder, with the sign of the dividend, defined for
/// `d != 0`.
pub open spec fn trunc_rem(x: int, d: int) -> int {
    if x == 0 {
        0
    } else if x > 0 && d > 0 {
        x % d
    } else if x < 0 && d < 0 {
        ((x * -1) % (d * -1)) * -1
    } else if x < 0 {
        ((x * -1) % d) * -1
    } else {
        x % (d * -1)
    }
}

/// Addition on the general numeric kind.
pub open spec fn num_add(a: int, b: int) -> int {
    clamp64(a + b)
}

/// Subtraction on the general numeric kind.
pub open spec fn num_sub(a: int, b: int) -> int {
    clamp64(a - b)
}

/// Multiplication on the general numeric kind.
pub open spec fn num_mul(a: int, b: int) -> int {
    clamp64(a * b)
}

/// Division on the general numeric kind: truncating, 0 for a zero divisor.
pub open spec fn num_div(a: int, b: int) -> int {
    if b == 0 {
        0
    } else {
        clamp64(trunc_div(a, b))
    }
}

/// Remainder on the general numeric kind: sign of the dividend, 0 for a
/// zero divisor.
pub open spec fn num_rem(a: int, b: int) -> int {
    if b == 0 || (a == i64::MIN && b == -1) {
        0
    } else {
        clamp64(trunc_rem(a, b))
    }
}

/// Negation on the general numeric kind.
pub open spec fn num_neg(a: int) -> int {
    clamp64(-a)
}

/// The 32-bit window for bitwise operands: the number itself when it fits
/// the 32-bit signed range, 0 otherwise.
pub open spec fn to_i32(n: int) -> int {
    if i32::MIN <= n <= i32::MAX {
        n
    } else {
        0
    }
}

proof fn lemma_pow10_mono(i: nat, j: nat)
    requires
        i <= j,
    ensures
        0 < pow10(i) <= pow10(j),
    decreases j,
{
    if j == 0 {
    } else if i == j {
        lemma_pow10_mono((i - 1) as nat, (j - 1) as nat);
    } else {
        lemma_pow10_mono(i, (j - 1) as nat);
    }
}

pub proof fn lemma_dec_val_bound(s: Seq<char>)
    requires
        forall|i: int| 0 <= i < s.len() ==> 48 <= #[trigger] (s[i] as u32) <= 57,
    ensures
        0 <= dec_val(s) < pow10(s.len()),
    decreases s.len(),
{
    if s.len() == 0 {
    } else {
        lemma_dec_val_bound(s.drop_last());
    }
}

/// What a value coerces to numerically always fits the 64-bit signed
/// range: a decimal string of at most eighteen digits stays well below it.
pub proof fn lemma_to_num_range(v: MVal)
    ensures
        !(v is Num) && !(v is Int) ==> -1000000000000000000 < to_num(v) < 1000000000000000000,
{
    match v {
        MVal::Str(s) => {
            lemma_str_to_num_range(s);
        },
        _ => {},
    }
}

/// The number a string coerces to stays within eighteen decimal digits.
pub proof fn lemma_str_to_num_range(s: Seq<char>)
    ensures
        -1000000000000000000 < str_to_num(s) < 1000000000000000000,
{
    assert(pow10(18) == 1000000000000000000) by {
        reveal_with_fuel(pow10, 20);
    }
    if s.len() >= 1 && s[0] == '-' {
        let t = s.drop_first();
        if all_digits(t) && t.len() <= 18 {
            lemma_dec_val_bound(t);
            lemma_pow10_mono(t.len(), 18);
        }
    } else if all_digits(s) && s.len() <= 18 {
        lemma_dec_val_bound(s);
        lemma_pow10_mono(s.len(), 18);
    }
}

/// The one-character string for the digit `d`.
fn digit_str(d: u64) -> (r: &'static str)
    requires
        d < 10,
    ensures
        r@ =~= seq![digit_char(d as int)],
{
    proof {
        reveal_strlit("0");
        reveal_strlit("1");
        reveal_strlit("2");
        reveal_strlit("3");
        reveal_strlit("4");
        reveal_strlit("5");
        reveal_strlit("6");
        reveal_strlit("7");
        reveal_strlit("8");
        reveal_strlit("9");
    }
    match d {
        0 => "0",
        1 => "1",
        2 => "2",
        3 => "3",
        4 => "4",
        5 => "5",
        6 => "6",
        7 => "7",
        8 => "8",
        _ => "9",
    }
}

/// The decimal rendering of a non-negative 64-bit number.
fn unsigned_to_string(n: u64) -> (s: String)
    ensures
        s@ == dec_digits(n as nat),
    decreases n,
{
    let d: u64 = n % 10;
    let ds = digit_str(d);
    if n < 10 {
        String::from_str(ds)
    } else {
        let mut s = unsigned_to_string(n / 10);
        s.append(ds);
        assert(s@ == dec_digits(n as nat));
        s
    }
}

/// The decimal rendering of a 64-bit signed number.
pub fn render_int(n: i64) -> (s: String)
    ensures
        s@ == int_str(n as int),
{
    if n >= 0 {
        unsigned_to_string(n as u64)
    } else {
        let mag: u64 = if n == i64::MIN {
            9223372036854775808u64
        } else {
            (-n) as u64
        };
        proof {
            reveal_strlit("-");
        }
        let mut s = String::from_str("-");
        let t = unsigned_to_string(mag);
        s.append(t.as_str());
        assert(seq!['-'] =~= "-"@);
        s
    }
}

/// The string a value coerces to.
pub fn value_to_string(v: &Value) -> (s: String)
    ensures
        s@ == to_str(v@),
{
    match v {
        Value::Undefined => String::from_str("undefined"),
        Value::Null => String::from_str("null"),
        Value::Boolean(b) => {
            if *b {
                String::from_str("true")
            } else {
                String::from_str("false")
            }
        },
        Value::Number(n) => render_int(*n),
        Value::Integer(i) => render_int(*i as i64),
        Value::String(s) => s.clone(),
        Value::Object(_) => String::from_str("[object Object]"),
        Value::Function(_) => String::from_str("[function]"),
    }
}

/// The number a string coerces to.
fn parse_num(s: &str) -> (r: i64)
    ensures
        r as int == str_to_num(s@),
{
    let n = s.unicode_len();
    if n == 0 {
        return 0;
    }
    let neg = s.get_char(0) == '-';
    let start: usize = if neg { 1 } else { 0 };
    let ghost t: Seq<char> = if neg { s@.drop_first() } else { s@ };
    assert(t =~= s@.subrange(start as int, n as int));
    if n - start == 0 || n - start > 18 {
        assert(!(all_digits(t) && t.len() <= 18));
        return 0;
    }
    let mut acc: i64 = 0;
    let mut i: usize = start;
    while i < n
        invariant
            start <= i <= n,
            n == s@.len(),
            start <= 1,
            n - start <= 18,
            neg == (s@[0] == '-'),
            start == if neg { 1int } else { 0int },
            t == (if neg { s@.drop_first() } else { s@ }),
            t =~= s@.subrange(start as int, n as int),
            forall|j: int| start <= j < i ==> 48 <= #[trigger] (s@[j] as u32) <= 57,
            acc as int == dec_val(s@.subrange(start as int, i as int)),
            0 <= acc,
            (acc as int) < pow10((i - start) as nat),
        decreases n - i,
    {
        let c = s.get_char(i);
        let cu = c as u32;
        if cu < 48 || cu > 57 {
            proof {
                assert((t[(i - start) as int] as u32) == (s@[i as int] as u32));
                assert(!all_digits(t));
            }
            return 0;
        }
        proof {
            lemma_pow10_mono((i - start) as nat, 17);
            assert(pow10(17) == 100000000000000000) by {
                reveal_with_fuel(pow10, 19);
            }
            let pre = s@.subrange(start as int, i as int);
            let ext = s@.subrange(start as int, i + 1int);
            assert(ext.drop_last() =~= pre);
            assert(ext.last() == s@[i as int]);
        }
        acc = acc * 10 + ((cu - 48) as i64);
        i = i + 1;
    }
    assert(s@.subrange(start as int, n as int) =~= t);
    assert(all_digits(t));
    if neg {
        -acc
    } else {
        acc
    }
}

/// The number a value coerces to.
pub fn value_to_number(v: &Value) -> (r: i64)
    ensures
        r as int == to_num(v@),
{
    match v {
        Value::Undefined => 0,
        Value::Null => 0,
        Value::Boolean(b) => if *b { 1 } else { 0 },
        Value::Number(n) => *n,
        Value::Integer(i) => *i as i64,
        Value::String(s) => parse_num(s.as_str()),
        Value::Object(_) => 0,
        Value::Function(_) => 0,
    }
}

/// Checked addition: the exact sum when it fits, 0 otherwise.
pub fn add64(a: i64, b: i64) -> (r: i64)
    ensures
        r as int == num_add(a as int, b as int),
{
    match a.checked_add(b) {
        Option::Some(x) => x,
        Option::None => 0,
    }
}

/// Checked subtraction: the exact difference when it fits, 0 otherwise.
pub fn sub64(a: i64, b: i64) -> (r: i64)
    ensures
        r as int == num_sub(a as int, b as int),
{
    match a.checked_sub(b) {
        Option::Some(x) => x,
        Option::None => 0,
    }
}

/// Checked multiplication: the exact product when it fits, 0 otherwise.
pub fn mul64(a: i64, b: i64) -> (r: i64)
    ensures
        r as int == num_mul(a as int, b as int),
{
    match a.checked_mul(b) {
        Option::Some(x) => x,
        Option::None => 0,
    }
}

/// Truncating division with 0 for a zero divisor or overflow.
pub fn div64(a: i64, b: i64) -> (r: i64)
    ensures
        r as int == num_div(a as int, b as int),
{
    match a.checked_div(b) {
        Option::Some(x) => x,
        Option::None => 0,
    }
}

/// Truncating remainder with 0 for a zero divisor.
pub fn rem64(a: i64, b: i64) -> (r: i64)
    ensures
        r as int == num_rem(a as int, b as int),
{
    match a.checked_rem(b) {
        Option::Some(x) => x,
        Option::None => 0,
    }
}

/// Checked negation: the exact negation when it fits, 0 otherwise.
pub fn neg64(a: i64) -> (r: i64)
    ensures
        r as int == num_neg(a as int),
{
    match (0i64).checked_sub(a) {
        Option::Some(x) => x,
        Option::None => 0,
    }
}

/// The 32-bit window for bitwise operands.
pub fn to_i32_exec(n: i64) -> (r: i32)
    ensures
        r as int == to_i32(n as int),
{
    if n >= -2147483648i64 && n <= 2147483647i64 {
        n as i32
    } else {
        0
    }
}

} // verus!
