//! Numbers travel through the wire format as decimal text.  This module
//! defines the canonical text form once — `dec_rep` for the digits of an
//! unsigned value, `dec_text` adding the sign — together with the grammar of
//! accepted texts (`parse_unsigned`, `parse_signed`), the executable
//! formatter and parser, and the codec implementations for the integer
//! types.

use vstd::prelude::*;
use vstd::string::StrSliceExecFns;
use vstd::string::StringExecFns;

use crate::attribute::{variant_name, Attribute};
use crate::value::{AttrModel, AttributeError, AttributeValue, ErrModel};

verus! {

broadcast use vstd::seq::group_seq_axioms;

/// The ten decimal digit characters.
pub open spec fn is_dec_digit(c: char) -> bool {
    c == '0' || c == '1' || c == '2' || c == '3' || c == '4' || c == '5' || c == '6' || c == '7'
        || c == '8' || c == '9'
}

/// The numeric value of a digit character.
pub open spec fn digit_val(c: char) -> nat {
    if c == '0' {
        0
    } else if c == '1' {
        1
    } else if c == '2' {
        2
    } else if c == '3' {
        3
    } else if c == '4' {
        4
    } else if c == '5' {
        5
    } else if c == '6' {
        6
    } else if c == '7' {
        7
    } else if c == '8' {
        8
    } else {
        9
    }
}

/// The digit character of a value below ten.
pub open spec fn digit_char(d: nat) -> char {
    if d == 0 {
        '0'
    } else if d == 1 {
        '1'
    } else if d == 2 {
        '2'
    } else if d == 3 {
        '3'
    } else if d == 4 {
        '4'
    } else if d == 5 {
        '5'
    } else if d == 6 {
        '6'
    } else if d == 7 {
        '7'
    } else if d == 8 {
        '8'
    } else {
        '9'
    }
}

/// Every character of `s` is a decimal digit.
pub open spec fn is_dec_digit_seq(s: Seq<char>) -> bool {
    forall|i: int| 0 <= i < s.len() ==> is_dec_digit(#[trigger] s[i])
}

/// The value of a digit string, most significant digit first.
pub open spec fn dec_val(s: Seq<char>) -> nat
    decreases s.len(),
{
    if s.len() == 0 {
        0
    } else {
        dec_val(s.drop_last()) * 10 + digit_val(s.last())
    }
}

/// The canonical decimal digits of an unsigned value: no sign, no leading
/// zeros, a single `0` for zero.
pub open spec fn dec_rep(n: nat) -> Seq<char>
    decreases n,
{
    if n < 10 {
        seq![digit_char(n)]
    } else {
        dec_rep(n / 10).push(digit_char(n % 10))
    }
}

/// The canonical decimal text of an integer: a `-` sign for negative values,
/// then the digits of the magnitude.
pub open spec fn dec_text(n: int) -> Seq<char> {
    if n < 0 {
        seq!['-'] + dec_rep((-n) as nat)
    } else {
        dec_rep(n as nat)
    }
}

/// The texts accepted as an unsigned number: an optional `+` sign, then one
/// or more digits.  The value is unbounded here; each target type applies its
/// own range check.
pub open spec fn parse_unsigned(s: Seq<char>) -> Option<nat> {
    let t = if s.len() > 0 && s[0] == '+' {
        s.drop_first()
    } else {
        s
    };
    if t.len() > 0 && is_dec_digit_seq(t) {
        Some(dec_val(t))
    } else {
        None
    }
}

/// The texts accepted as a signed number: an optional `+` or `-` sign, then
/// one or more digits.
pub open spec fn parse_signed(s: Seq<char>) -> Option<int> {
    if s.len() > 0 && s[0] == '-' {
        let t = s.drop_first();
        if t.len() > 0 && is_dec_digit_seq(t) {
            Some(-(dec_val(t) as int))
        } else {
            None
        }
    } else {
        match parse_unsigned(s) {
            Some(n) => Some(n as int),
            None => None,
        }
    }
}

/// Reading a digit character back gives the digit.
pub proof fn lemma_digit_char_val(d: nat)
    requires
        d < 10,
    ensures
        digit_val(digit_char(d)) == d,
        is_dec_digit(digit_char(d)),
{
}

/// The canonical digits of `n` are non-empty digits that evaluate back to
/// `n`.
pub proof fn lemma_dec_rep_digits(n: nat)
    ensures
        dec_rep(n).len() >= 1,
        is_dec_digit_seq(dec_rep(n)),
        dec_val(dec_rep(n)) == n,
    decreases n,
{
    if n < 10 {
        lemma_digit_char_val(n);
        assert(dec_val(Seq::<char>::empty()) == 0);
        assert(dec_rep(n).drop_last() =~= Seq::<char>::empty());
        assert(dec_rep(n).last() == digit_char(n));
        assert(dec_val(dec_rep(n)) == digit_val(digit_char(n)));
    } else {
        lemma_dec_rep_digits(n / 10);
        lemma_digit_char_val(n % 10);
        vstd::arithmetic::div_mod::lemma_fundamental_div_mod(n as int, 10);
        let s = dec_rep(n);
        assert(s.drop_last() =~= dec_rep(n / 10));
        assert(s.last() == digit_char(n % 10));
        assert(dec_val(s) == dec_val(dec_rep(n / 10)) * 10 + digit_val(digit_char(n % 10)));
        assert(dec_val(s) == (n / 10) * 10 + (n % 10));
        assert((n / 10) * 10 + (n % 10) == n);
        assert forall|i: int| 0 <= i < s.len() implies is_dec_digit(#[trigger] s[i]) by {
            if i < s.len() - 1 {
                assert(s[i] == dec_rep(n / 10)[i]);
            }
        }
    }
}

/// A prefix of a digit string never evaluates above the whole string.
pub proof fn lemma_dec_val_prefix_le(s: Seq<char>, i: int)
    requires
        0 <= i <= s.len(),
    ensures
        dec_val(s.take(i)) <= dec_val(s),
    decreases s.len() - i,
{
    if i == s.len() {
        assert(s.take(i) =~= s);
    } else {
        assert(s.take(i + 1).drop_last() =~= s.take(i));
        lemma_dec_val_prefix_le(s, i + 1);
    }
}

/// Parses the digit run `s[start..]` (character positions): the result is the
/// value when that run is non-empty, all digits, and within `u64`, and
/// nothing otherwise.
fn parse_dec_digits(s: &str, start: usize) -> (r: Option<u64>)
    requires
        start as int <= s@.len(),
    ensures
        ({
            let t = s@.skip(start as int);
            match r {
                Some(v) => t.len() > 0 && is_dec_digit_seq(t) && dec_val(t) == v as nat,
                None => !(t.len() > 0 && is_dec_digit_seq(t) && dec_val(t) <= u64::MAX),
            }
        }),
{
    let ghost t = s@.skip(start as int);
    let n = s.unicode_len();
    if start >= n {
        return None;
    }
    let mut val: u64 = 0;
    let mut i: usize = start;
    while i < n
        invariant
            start <= i <= n,
            n == s@.len(),
            t == s@.skip(start as int),
            is_dec_digit_seq(t.take(i - start)),
            val as nat == dec_val(t.take(i - start)),
        decreases n - i,
    {
        let c = s.get_char(i);
        proof {
            assert(t[i - start] == s@[i as int]);
        }
        let d: u64 = match c {
            '0' => 0,
            '1' => 1,
            '2' => 2,
            '3' => 3,
            '4' => 4,
            '5' => 5,
            '6' => 6,
            '7' => 7,
            '8' => 8,
            '9' => 9,
            _ => {
                return None;
            },
        };
        let stepped = match val.checked_mul(10) {
            Some(x) => x.checked_add(d),
            None => None,
        };
        proof {
            assert(t.take(i - start + 1).drop_last() =~= t.take(i - start));
            assert(t.take(i - start + 1).last() == t[i - start]);
            assert(digit_val(c) == d as nat);
        }
        match stepped {
            Some(x) => {
                val = x;
            },
            None => {
                proof {
                    assert(dec_val(t.take(i - start + 1)) > u64::MAX);
                    lemma_dec_val_prefix_le(t, i - start + 1);
                }
                return None;
            },
        }
        i = i + 1;
    }
    proof {
        assert(t.take(i - start) =~= t);
    }
    Some(val)
}

/// Parses a whole unsigned numeric text: an optional `+` sign, then digits,
/// as `parse_unsigned` says; the result is reported only up to `u64`.
fn parse_unsigned_text(s: &String) -> (r: Option<u64>)
    ensures
        ({
            let p = parse_unsigned(s@);
            match r {
                Some(v) => p == Some(v as nat),
                None => match p {
                    Some(n) => n > u64::MAX,
                    None => true,
                },
            }
        }),
{
    let n = s.as_str().unicode_len();
    if n == 0 {
        return None;
    }
    let first = s.as_str().get_char(0);
    let start: usize = if first == '+' {
        1
    } else {
        0
    };
    proof {
        if first == '+' {
            assert(s@.skip(1) =~= s@.drop_first());
        } else {
            assert(s@.skip(0) =~= s@);
        }
    }
    parse_dec_digits(s.as_str(), start)
}

/// Appends one digit character.
fn push_digit(s: &mut String, d: u64)
    requires
        d < 10,
    ensures
        final(s)@ == old(s)@.push(digit_char(d as nat)),
{
    match d {
        0 => s.append("0"),
        1 => s.append("1"),
        2 => s.append("2"),
        3 => s.append("3"),
        4 => s.append("4"),
        5 => s.append("5"),
        6 => s.append("6"),
        7 => s.append("7"),
        8 => s.append("8"),
        _ => s.append("9"),
    }
    proof {
        reveal_strlit("0");
        reveal_strlit("1");
        reveal_strlit("2");
        reveal_strlit("3");
        reveal_strlit("4");
        reveal_strlit("5");
        reveal_strlit("6");
        reveal_strlit("7");
        reveal_strlit("8");
        reveal_strlit("9");
        assert(s@ =~= old(s)@.push(digit_char(d as nat)));
    }
}

/// Formats an unsigned value as its canonical decimal digits.
pub fn fmt_u64(n: u64) -> (r: String)
    ensures
        r@ == dec_rep(n as nat),
    decreases n,
{
    if n < 10 {
        let mut s = String::new();
        push_digit(&mut s, n);
        proof {
            assert(s@ =~= dec_rep(n as nat));
        }
        s
    } else {
        let mut s = fmt_u64(n / 10);
        push_digit(&mut s, n % 10);
        s
    }
}

/// Formats a signed value as its canonical decimal text.
pub fn fmt_i64(n: i64) -> (r: String)
    ensures
        r@ == dec_text(n as int),
{
    if n >= 0 {
        fmt_u64(n as u64)
    } else {
        let mut s = String::new();
        s.append("-");
        let mag: u64 = if n == i64::MIN {
            9223372036854775808u64
        } else {
            (-n) as u64
        };
        let digits = fmt_u64(mag);
        s.append(digits.as_str());
        proof {
            reveal_strlit("-");
            assert(s@ =~= dec_text(n as int));
        }
        s
    }
}

/// A numeric codec type: its encoding is always the number variant, and the
/// number text it carries is exposed on its own, so that number sets can
/// reuse the scalar text form instead of re-deriving it.
pub trait NumAttr: Attribute {
    /// The canonical decimal text of a native numeric model.
    spec fn spec_num_text(m: Self::V) -> Seq<char>;

    /// Formats the value exactly as its attribute encoding would.
    fn num_text(self) -> (r: String)
        ensures
            r@ == Self::spec_num_text(self.deep_view()),
    ;

    /// The encoding of a numeric value is the number variant of its text.
    proof fn lemma_num_into_attr(m: Self::V)
        ensures
            Self::spec_into_attr(m) == AttrModel::N(Self::spec_num_text(m)),
    ;
}

impl Attribute for u64 {
    open spec fn spec_into_attr(m: u64) -> AttrModel {
        AttrModel::N(dec_rep(m as nat))
    }

    open spec fn spec_from_attr(a: AttrModel) -> Result<u64, ErrModel> {
        match a {
            AttrModel::N(s) => match parse_unsigned(s) {
                Some(n) => if n <= u64::MAX {
                    Ok(n as u64)
                } else {
                    Err(ErrModel::InvalidFormat(s))
                },
                None => Err(ErrModel::InvalidFormat(s)),
            },
            _ => Err(ErrModel::MissingField("N"@)),
        }
    }

    open spec fn null_free() -> bool {
        true
    }

    open spec fn lossless() -> bool {
        true
    }

    fn into_attr(self) -> (r: AttributeValue) {
        AttributeValue::N(fmt_u64(self))
    }

    fn from_attr(attr: AttributeValue) -> (r: Result<Self, AttributeError>) {
        match attr {
            AttributeValue::N(s) => match parse_unsigned_text(&s) {
                Some(v) => Ok(v),
                None => Err(AttributeError::InvalidFormat(s)),
            },
            _ => Err(AttributeError::MissingField(variant_name("N"))),
        }
    }

    proof fn lemma_round_trip(m: u64) {
        lemma_dec_rep_digits(m as nat);
        assert(is_dec_digit(dec_rep(m as nat)[0]));
    }

    proof fn lemma_never_null(m: u64) {
    }
}

impl NumAttr for u64 {
    open spec fn spec_num_text(m: u64) -> Seq<char> {
        dec_rep(m as nat)
    }

    fn num_text(self) -> (r: String) {
        fmt_u64(self)
    }

    proof fn lemma_num_into_attr(m: u64) {
    }
}

impl Attribute for u32 {
    open spec fn spec_into_attr(m: u32) -> AttrModel {
        AttrModel::N(dec_rep(m as nat))
    }

    open spec fn spec_from_attr(a: AttrModel) -> Result<u32, ErrModel> {
        match a {
            AttrModel::N(s) => match parse_unsigned(s) {
                Some(n) => if n <= u32::MAX {
                    Ok(n as u32)
                } else {
                    Err(ErrModel::InvalidFormat(s))
                },
                None => Err(ErrModel::InvalidFormat(s)),
            },
            _ => Err(ErrModel::MissingField("N"@)),
        }
    }

    open spec fn null_free() -> bool {
        true
    }

    open spec fn lossless() -> bool {
        true
    }

    fn into_attr(self) -> (r: AttributeValue) {
        AttributeValue::N(fmt_u64(self as u64))
    }

    fn from_attr(attr: AttributeValue) -> (r: Result<Self, AttributeError>) {
        match attr {
            AttributeValue::N(s) => match parse_unsigned_text(&s) {
                Some(v) => if v <= u32::MAX as u64 {
                    Ok(v as u32)
                } else {
                    Err(AttributeError::InvalidFormat(s))
                },
                None => Err(AttributeError::InvalidFormat(s)),
            },
            _ => Err(AttributeError::MissingField(variant_name("N"))),
        }
    }

    proof fn lemma_round_trip(m: u32) {
        lemma_dec_rep_digits(m as nat);
        assert(is_dec_digit(dec_rep(m as nat)[0]));
    }

    proof fn lemma_never_null(m: u32) {
    }
}

impl NumAttr for u32 {
    open spec fn spec_num_text(m: u32) -> Seq<char> {
        dec_rep(m as nat)
    }

    fn num_text(self) -> (r: String) {
        fmt_u64(self as u64)
    }

    proof fn lemma_num_into_attr(m: u32) {
    }
}

impl Attribute for i64 {
    open spec fn spec_into_attr(m: i64) -> AttrModel {
        AttrModel::N(dec_text(m as int))
    }

    open spec fn spec_from_attr(a: AttrModel) -> Result<i64, ErrModel> {
        match a {
            AttrModel::N(s) => match parse_signed(s) {
                Some(n) => if i64::MIN <= n <= i64::MAX {
                    Ok(n as i64)
                } else {
                    Err(ErrModel::InvalidFormat(s))
                },
                None => Err(ErrModel::InvalidFormat(s)),
            },
            _ => Err(ErrModel::MissingField("N"@)),
        }
    }

    open spec fn null_free() -> bool {
        true
    }

    open spec fn lossless() -> bool {
        true
    }

    fn into_attr(self) -> (r: AttributeValue) {
        AttributeValue::N(fmt_i64(self))
    }

    fn from_attr(attr: AttributeValue) -> (r: Result<Self, AttributeError>) {
        match attr {
            AttributeValue::N(s) => {
                let len = s.as_str().unicode_len();
                let neg = len > 0 && s.as_str().get_char(0) == '-';
                if neg {
                    proof {
                        assert(s@.skip(1) =~= s@.drop_first());
                    }
                    match parse_dec_digits(s.as_str(), 1) {
                        Some(v) => if v <= 9223372036854775807u64 {
                            Ok(-(v as i64))
                        } else if v == 9223372036854775808u64 {
                            Ok(i64::MIN)
                        } else {
                            Err(AttributeError::InvalidFormat(s))
                        },
                        None => Err(AttributeError::InvalidFormat(s)),
                    }
                } else {
                    match parse_unsigned_text(&s) {
                        Some(v) => if v <= 9223372036854775807u64 {
                            Ok(v as i64)
                        } else {
                            Err(AttributeError::InvalidFormat(s))
                        },
                        None => Err(AttributeError::InvalidFormat(s)),
                    }
                }
            },
            _ => Err(AttributeError::MissingField(variant_name("N"))),
        }
    }

    proof fn lemma_round_trip(m: i64) {
        if m >= 0 {
            lemma_dec_rep_digits(m as nat);
            assert(is_dec_digit(dec_rep(m as nat)[0]));
        } else {
            let mag = (-(m as int)) as nat;
            lemma_dec_rep_digits(mag);
            let s = dec_text(m as int);
            assert(s.drop_first() =~= dec_rep(mag));
        }
    }

    proof fn lemma_never_null(m: i64) {
    }
}

impl NumAttr for i64 {
    open spec fn spec_num_text(m: i64) -> Seq<char> {
        dec_text(m as int)
    }

    fn num_text(self) -> (r: String) {
        fmt_i64(self)
    }

    proof fn lemma_num_into_attr(m: i64) {
    }
}

impl Attribute for i32 {
    open spec fn spec_into_attr(m: i32) -> AttrModel {
        AttrModel::N(dec_text(m as int))
    }

    open spec fn spec_from_attr(a: AttrModel) -> Result<i32, ErrModel> {
        match a {
            AttrModel::N(s) => match parse_signed(s) {
                Some(n) => if i32::MIN <= n <= i32::MAX {
                    Ok(n as i32)
                } else {
                    Err(ErrModel::InvalidFormat(s))
                },
                None => Err(ErrModel::InvalidFormat(s)),
            },
            _ => Err(ErrModel::MissingField("N"@)),
        }
    }

    open spec fn null_free() -> bool {
        true
    }

    open spec fn lossless() -> bool {
        true
    }

    fn into_attr(self) -> (r: AttributeValue) {
        AttributeValue::N(fmt_i64(self as i64))
    }

    fn from_attr(attr: AttributeValue) -> (r: Result<Self, AttributeError>) {
        match attr {
            AttributeValue::N(s) => {
                let len = s.as_str().unicode_len();
                let neg = len > 0 && s.as_str().get_char(0) == '-';
                if neg {
                    proof {
                        assert(s@.skip(1) =~= s@.drop_first());
                    }
                    match parse_dec_digits(s.as_str(), 1) {
                        Some(v) => if v <= 2147483647u64 {
                            Ok(-(v as i32))
                        } else if v == 2147483648u64 {
                            Ok(i32::MIN)
                        } else {
                            Err(AttributeError::InvalidFormat(s))
                        },
                        None => Err(AttributeError::InvalidFormat(s)),
                    }
                } else {
                    match parse_unsigned_text(&s) {
                        Some(v) => if v <= 2147483647u64 {
                            Ok(v as i32)
                        } else {
                            Err(AttributeError::InvalidFormat(s))
                        },
                        None => Err(AttributeError::InvalidFormat(s)),
                    }
                }
            },
            _ => Err(AttributeError::MissingField(variant_name("N"))),
        }
    }

    proof fn lemma_round_trip(m: i32) {
        if m >= 0 {
            lemma_dec_rep_digits(m as nat);
            assert(is_dec_digit(dec_rep(m as nat)[0]));
        } else {
            let mag = (-(m as int)) as nat;
            lemma_dec_rep_digits(mag);
            let s = dec_text(m as int);
            assert(s.drop_first() =~= dec_rep(mag));
        }
    }

    proof fn lemma_never_null(m: i32) {
    }
}

impl NumAttr for i32 {
    open spec fn spec_num_text(m: i32) -> Seq<char> {
        dec_text(m as int)
    }

    fn num_text(self) -> (r: String) {
        fmt_i64(self as i64)
    }

    proof fn lemma_num_into_attr(m: i32) {
    }
}

} // verus!
