//! Nullable scalar values: the cell type of every table.

use crate::error::DBResult;
use crate::error::ErrV;
use crate::error::other_err;
use vstd::prelude::*;

verus! {

/// A non-null scalar: a 32-bit integer or a string.
pub enum ValueNotNull {
    Int(i32),
    Varchar(String),
}

/// A nullable scalar; `None` is the SQL NULL.
pub struct Value(pub Option<ValueNotNull>);

/// Mathematical model of a `Value`.
#[verifier::ext_equal]
pub ghost enum ValueV {
    Null,
    Int(i32),
    Varchar(Seq<char>),
}

impl View for Value {
    type V = ValueV;

    open spec fn view(&self) -> ValueV {
        match self.0 {
            None => ValueV::Null,
            Some(ValueNotNull::Int(i)) => ValueV::Int(i),
            Some(ValueNotNull::Varchar(s)) => ValueV::Varchar(s@),
        }
    }
}

impl Value {
    /// Builds a Varchar value.
    pub fn from_varchar(s: String) -> (r: Self)
        ensures
            r@ == ValueV::Varchar(s@),
    {
        Value(Some(ValueNotNull::Varchar(s)))
    }

    /// Builds an Int value.
    pub fn from_int(i: i32) -> (r: Self)
        ensures
            r@ == ValueV::Int(i),
    {
        Value(Some(ValueNotNull::Int(i)))
    }

    /// Builds the NULL value.
    pub fn from_null() -> (r: Self)
        ensures
            r@ == ValueV::Null,
    {
        Value(None)
    }

    /// Whether the value is NULL.
    pub fn is_null(&self) -> (r: bool)
        ensures
            r == (self@ == ValueV::Null),
    {
        self.0.is_none()
    }

    /// Builds a boolean value, stored as Int 0/1.
    pub fn from_bool(b: bool) -> (r: Self)
        ensures
            r@ == ValueV::Int(if b { 1i32 } else { 0i32 }),
    {
        Value(Some(ValueNotNull::Int(if b { 1 } else { 0 })))
    }
}


/// Result of comparing two same-typed non-null scalars.
#[derive(Clone, Copy, PartialEq, Eq, Structural, Debug)]
pub enum ValueOrd {
    Less,
    Equal,
    Greater,
}

/// The code point of a character.
pub open spec fn spec_cp(c: char) -> u32 {
    c as u32
}

/// Lexicographic comparison of two character sequences by code point.
pub open spec fn spec_str_cmp(a: Seq<char>, b: Seq<char>) -> ValueOrd
    decreases a.len(),
{
    if a.len() == 0 && b.len() == 0 {
        ValueOrd::Equal
    } else if a.len() == 0 {
        ValueOrd::Less
    } else if b.len() == 0 {
        ValueOrd::Greater
    } else if spec_cp(a[0]) < spec_cp(b[0]) {
        ValueOrd::Less
    } else if spec_cp(a[0]) > spec_cp(b[0]) {
        ValueOrd::Greater
    } else {
        spec_str_cmp(a.drop_first(), b.drop_first())
    }
}

/// Two character sequences compare equal exactly when they are equal.
pub proof fn lemma_str_cmp_eq(a: Seq<char>, b: Seq<char>)
    ensures
        (spec_str_cmp(a, b) == ValueOrd::Equal) <==> (a == b),
    decreases a.len(),
{
    if a.len() != 0 && b.len() != 0 && spec_cp(a[0]) == spec_cp(b[0]) {
        lemma_str_cmp_eq(a.drop_first(), b.drop_first());
        vstd::utf8::char_u32_cast(a[0], a[0] as u32);
        vstd::utf8::char_u32_cast(b[0], b[0] as u32);
        assert(a[0] == b[0]);
        if a.drop_first() == b.drop_first() {
            assert forall|i: int| 0 <= i < a.len() implies a[i] == b[i] by {
                if i > 0 {
                    assert(a.drop_first()[i - 1] == a[i]);
                    assert(b.drop_first()[i - 1] == b[i]);
                }
            }
            assert(a =~= b);
        }
        if a == b {
            assert(a.drop_first() =~= b.drop_first());
        }
    } else {
        if a.len() == 0 && b.len() == 0 {
            assert(a =~= b);
        }
        if a == b {
            assert(a.len() == b.len());
            if a.len() != 0 {
                assert(a[0] == b[0]);
            }
        }
    }
}

/// Compares two strings lexicographically by code point.
pub fn str_cmp(a: &str, b: &str) -> (r: ValueOrd)
    ensures
        r == spec_str_cmp(a@, b@),
{
    let a_len = a.unicode_len();
    let b_len = b.unicode_len();
    let mut i: usize = 0;
    proof {
        assert(a@.skip(0) =~= a@);
        assert(b@.skip(0) =~= b@);
    }
    loop
        invariant
            i <= a_len,
            i <= b_len,
            a_len == a@.len(),
            b_len == b@.len(),
            spec_str_cmp(a@, b@) == spec_str_cmp(a@.skip(i as int), b@.skip(i as int)),
        decreases a_len - i,
    {
        let ghost ra = a@.skip(i as int);
        let ghost rb = b@.skip(i as int);
        if i == a_len && i == b_len {
            return ValueOrd::Equal;
        } else if i == a_len {
            return ValueOrd::Less;
        } else if i == b_len {
            return ValueOrd::Greater;
        }
        let ca = a.get_char(i);
        let cb = b.get_char(i);
        if (ca as u32) < (cb as u32) {
            return ValueOrd::Less;
        } else if (ca as u32) > (cb as u32) {
            return ValueOrd::Greater;
        }
        proof {
            assert(ra[0] == a@[i as int]);
            assert(rb[0] == b@[i as int]);
            assert(ra.drop_first() =~= a@.skip(i as int + 1));
            assert(rb.drop_first() =~= b@.skip(i as int + 1));
        }
        i = i + 1;
    }
}

/// Whether two strings are equal.
pub fn str_eq(a: &str, b: &str) -> (r: bool)
    ensures
        r == (a@ == b@),
{
    let c = str_cmp(a, b);
    proof {
        lemma_str_cmp_eq(a@, b@);
    }
    match c {
        ValueOrd::Equal => true,
        _ => false,
    }
}

/// Ordering of two values: defined only between same-typed non-null scalars.
pub open spec fn spec_value_cmp(a: ValueV, b: ValueV) -> Option<ValueOrd> {
    match (a, b) {
        (ValueV::Int(x), ValueV::Int(y)) => Some(
            if x < y {
                ValueOrd::Less
            } else if x > y {
                ValueOrd::Greater
            } else {
                ValueOrd::Equal
            },
        ),
        (ValueV::Varchar(x), ValueV::Varchar(y)) => Some(spec_str_cmp(x, y)),
        _ => None,
    }
}

impl Value {
    /// Compares two values; `None` for null or mixed-type operands.
    pub fn try_cmp(&self, other: &Value) -> (r: Option<ValueOrd>)
        ensures
            r == spec_value_cmp(self@, other@),
    {
        match (&self.0, &other.0) {
            (Some(ValueNotNull::Int(x)), Some(ValueNotNull::Int(y))) => Some(
                if *x < *y {
                    ValueOrd::Less
                } else if *x > *y {
                    ValueOrd::Greater
                } else {
                    ValueOrd::Equal
                },
            ),
            (Some(ValueNotNull::Varchar(x)), Some(ValueNotNull::Varchar(y))) => Some(
                str_cmp(x.as_str(), y.as_str()),
            ),
            _ => None,
        }
    }

    /// Whether two values are structurally equal.
    pub fn value_eq(&self, other: &Value) -> (r: bool)
        ensures
            r == (self@ == other@),
    {
        match (&self.0, &other.0) {
            (None, None) => true,
            (Some(ValueNotNull::Int(x)), Some(ValueNotNull::Int(y))) => *x == *y,
            (Some(ValueNotNull::Varchar(x)), Some(ValueNotNull::Varchar(y))) => str_eq(
                x.as_str(),
                y.as_str(),
            ),
            _ => false,
        }
    }

    /// Copies the value.
    pub fn duplicate(&self) -> (r: Value)
        ensures
            r@ == self@,
    {
        match &self.0 {
            None => Value(None),
            Some(ValueNotNull::Int(x)) => Value(Some(ValueNotNull::Int(*x))),
            Some(ValueNotNull::Varchar(s)) => Value(Some(ValueNotNull::Varchar(s.clone()))),
        }
    }
}

/// The decimal digit character for `d`.
pub open spec fn spec_digit(d: nat) -> char {
    if d == 0 {
        '0'
    } else if d == 1 {
        '1'
    } else if d == 2 {
        '2'
    } else if d == 3 {
        '3'
    } else if d == 4 {
        '4'
    } else if d == 5 {
        '5'
    } else if d == 6 {
        '6'
    } else if d == 7 {
        '7'
    } else if d == 8 {
        '8'
    } else {
        '9'
    }
}

/// Decimal rendering of a natural number.
pub open spec fn spec_nat_str(n: nat) -> Seq<char>
    decreases n,
{
    if n < 10 {
        seq![spec_digit(n)]
    } else {
        spec_nat_str(n / 10).push(spec_digit(n % 10))
    }
}

/// Decimal rendering of an integer, with a leading minus sign when negative.
pub open spec fn spec_int_str(i: int) -> Seq<char> {
    if i < 0 {
        seq!['-'] + spec_nat_str((-i) as nat)
    } else {
        spec_nat_str(i as nat)
    }
}

/// The display string of a value: digits for Int, the text for Varchar, empty for null.
pub open spec fn spec_value_str(v: ValueV) -> Seq<char> {
    match v {
        ValueV::Null => Seq::<char>::empty(),
        ValueV::Int(i) => spec_int_str(i as int),
        ValueV::Varchar(s) => s,
    }
}

/// The one-character string for a decimal digit.
fn digit_str(d: u64) -> (r: &'static str)
    requires
        d < 10,
    ensures
        r@ =~= seq![spec_digit(d as nat)],
{
    proof {
        reveal_strlit("0");
        reveal_strlit("1");
        reveal_strlit("2");
        reveal_strlit("3");
        reveal_strlit("4");
        reveal_strlit("5");
        reveal_strlit("6");
        reveal_strlit("7");
        reveal_strlit("8");
        reveal_strlit("9");
    }
    if d == 0 {
        "0"
    } else if d == 1 {
        "1"
    } else if d == 2 {
        "2"
    } else if d == 3 {
        "3"
    } else if d == 4 {
        "4"
    } else if d == 5 {
        "5"
    } else if d == 6 {
        "6"
    } else if d == 7 {
        "7"
    } else if d == 8 {
        "8"
    } else {
        "9"
    }
}

/// Renders a natural number in decimal.
pub fn nat_to_string(n: u64) -> (r: String)
    ensures
        r@ == spec_nat_str(n as nat),
    decreases n,
{
    if n < 10 {
        digit_str(n).to_owned()
    } else {
        let mut s = nat_to_string(n / 10);
        s.append(digit_str(n % 10));
        proof {
            assert(s@ =~= spec_nat_str((n / 10) as nat).push(spec_digit((n % 10) as nat)));
        }
        s
    }
}

/// Renders a 32-bit integer in decimal.
pub fn i32_to_string(i: i32) -> (r: String)
    ensures
        r@ == spec_int_str(i as int),
{
    if i >= 0 {
        nat_to_string(i as u64)
    } else {
        let m: i64 = -(i as i64);
        let mut s = String::from_str("-");
        proof {
            reveal_strlit("-");
        }
        s.append(nat_to_string(m as u64).as_str());
        proof {
            assert(s@ =~= seq!['-'] + spec_nat_str((-(i as int)) as nat));
        }
        s
    }
}

/// Truth value of a non-null scalar when coerced to a boolean, or an
/// error message when the string is not a recognized boolean word.
pub open spec fn spec_try_to_bool(v: ValueV) -> Result<Option<bool>, Seq<char>> {
    match v {
        ValueV::Null => Ok(None),
        ValueV::Int(x) => Ok(Some(x != 0)),
        ValueV::Varchar(s) => {
            if s == "true"@ || s == "t"@ || s == "yes"@ || s == "y"@ || s == "on"@ || s == "1"@ {
                Ok(Some(true))
            } else if s == "false"@ || s == "f"@ || s == "no"@ || s == "n"@ || s == "off"@ || s
                == "0"@ {
                Ok(Some(false))
            } else {
                Err("Cannot convert "@ + s + " to bool"@)
            }
        },
    }
}

impl Value {
    /// Renders the value for display: decimal digits, the raw string, or
    /// the empty string for null.
    pub fn to_string(&self) -> (r: String)
        ensures
            r@ == spec_value_str(self@),
    {
        match &self.0 {
            None => String::new(),
            Some(ValueNotNull::Int(x)) => i32_to_string(*x),
            Some(ValueNotNull::Varchar(s)) => s.clone(),
        }
    }

    /// Coerces the value to a boolean: `None` for null, an error for an
    /// unrecognized string.
    pub fn try_to_bool(&self) -> (r: DBResult<Option<bool>>)
        ensures
            match spec_try_to_bool(self@) {
                Ok(o) => r matches Ok(x) && x == o,
                Err(m) => r matches Err(e) && e@ =~= seq![ErrV::OtherError(m)],
            },
    {
        match &self.0 {
            None => Ok(None),
            Some(ValueNotNull::Int(x)) => Ok(Some(*x != 0)),
            Some(ValueNotNull::Varchar(s)) => {
                if str_eq(s.as_str(), "true") || str_eq(s.as_str(), "t") || str_eq(
                    s.as_str(),
                    "yes",
                ) || str_eq(s.as_str(), "y") || str_eq(s.as_str(), "on") || str_eq(
                    s.as_str(),
                    "1",
                ) {
                    Ok(Some(true))
                } else if str_eq(s.as_str(), "false") || str_eq(s.as_str(), "f") || str_eq(
                    s.as_str(),
                    "no",
                ) || str_eq(s.as_str(), "n") || str_eq(s.as_str(), "off") || str_eq(
                    s.as_str(),
                    "0",
                ) {
                    Ok(Some(false))
                } else {
                    let mut msg = String::from_str("Cannot convert ");
                    msg.append(s.as_str());
                    msg.append(" to bool");
                    Err(other_err(msg))
                }
            },
        }
    }
}

/// Whether `c` is a decimal digit.
pub open spec fn spec_is_digit(c: char) -> bool {
    48 <= spec_cp(c) <= 57
}

/// The numeric value of a digit character.
pub open spec fn spec_digit_val(c: char) -> nat {
    (spec_cp(c) - 48) as nat
}

/// Whether every character is a decimal digit.
pub open spec fn spec_all_digits(s: Seq<char>) -> bool {
    forall|i: int| 0 <= i < s.len() ==> spec_is_digit(#[trigger] s[i])
}

/// The natural number denoted by a digit sequence.
pub open spec fn spec_digits_val(s: Seq<char>) -> nat
    decreases s.len(),
{
    if s.len() == 0 {
        0
    } else {
        spec_digits_val(s.drop_last()) * 10 + spec_digit_val(s.last())
    }
}

/// The 32-bit integer denoted by a string: an optional sign followed by
/// at least one digit, with the value in range; `None` otherwise.
pub open spec fn spec_parse_i32(s: Seq<char>) -> Option<int> {
    let negative = s.len() > 0 && s[0] == '-';
    let digits = if s.len() > 0 && (s[0] == '-' || s[0] == '+') {
        s.drop_first()
    } else {
        s
    };
    if digits.len() == 0 || !spec_all_digits(digits) {
        None
    } else {
        let v = if negative {
            -(spec_digits_val(digits) as int)
        } else {
            spec_digits_val(digits) as int
        };
        if i32::MIN <= v <= i32::MAX {
            Some(v)
        } else {
            None
        }
    }
}

/// Parses a 32-bit integer from its decimal text.
pub fn parse_i32(s: &str) -> (r: Option<i32>)
    ensures
        match spec_parse_i32(s@) {
            Some(v) => r matches Some(x) && x as int == v,
            None => r matches None,
        },
{
    let n = s.unicode_len();
    let mut start: usize = 0;
    let mut negative = false;
    if n == 0 {
        return None;
    }
    let c0 = s.get_char(0);
    if c0 == '-' {
        negative = true;
        start = 1;
    } else if c0 == '+' {
        start = 1;
    }
    let ghost digits = if s@.len() > 0 && (s@[0] == '-' || s@[0] == '+') {
        s@.drop_first()
    } else {
        s@
    };
    proof {
        assert(digits =~= s@.skip(start as int));
    }
    if start == n {
        return None;
    }
    let mut i: usize = start;
    let mut acc: u64 = 0;
    let mut overflow = false;
    proof {
        assert(s@.subrange(start as int, start as int) =~= Seq::<char>::empty());
    }
    while i < n
        invariant
            start <= i <= n,
            n == s@.len(),
            start == 0 || start == 1,
            (start == 1) == (s@.len() > 0 && (s@[0] == '-' || s@[0] == '+')),
            negative == (s@.len() > 0 && s@[0] == '-'),
            digits == s@.skip(start as int),
            digits == (if s@.len() > 0 && (s@[0] == '-' || s@[0] == '+') {
                s@.drop_first()
            } else {
                s@
            }),
            forall|j: int| start <= j < i ==> spec_is_digit(s@[j]),
            !overflow ==> acc as nat == spec_digits_val(s@.subrange(start as int, i as int)),
            !overflow ==> acc <= 0x8000_0000,
            overflow ==> spec_digits_val(s@.subrange(start as int, i as int)) > 0x8000_0000,
        decreases n - i,
    {
        let c = s.get_char(i);
        let cp = c as u32;
        if cp < 48 || cp > 57 {
            proof {
                let idx = i as int - start as int;
                assert(digits[idx] == s@[i as int]);
                assert(!spec_is_digit(digits[idx]));
                assert(!spec_all_digits(digits));
            }
            return None;
        }
        let d = (cp - 48) as u64;
        let ghost pre = s@.subrange(start as int, i as int);
        let ghost post = s@.subrange(start as int, i as int + 1);
        proof {
            assert(post.drop_last() =~= pre);
            assert(post.last() == s@[i as int]);
        }
        if !overflow {
            acc = acc * 10 + d;
            if acc > 0x8000_0000 {
                overflow = true;
            }
        } else {
            proof {
                assert(spec_digits_val(post) == spec_digits_val(pre) * 10 + spec_digit_val(
                    s@[i as int],
                ));
                assert(spec_digits_val(pre) * 10 >= spec_digits_val(pre));
            }
        }
        i = i + 1;
    }
    proof {
        assert(s@.subrange(start as int, n as int) =~= digits);
        assert(spec_all_digits(digits)) by {
            assert forall|j: int| 0 <= j < digits.len() implies spec_is_digit(#[trigger] digits[j]) by {
                assert(digits[j] == s@[j + start as int]);
            }
        }
    }
    if overflow {
        return None;
    }
    if negative {
        let v: i64 = -(acc as i64);
        Some(v as i32)
    } else {
        if acc > 0x7fff_ffff {
            None
        } else {
            Some(acc as i32)
        }
    }
}

} // verus!
