//! Character-sequence helpers shared by the lexer, the parser and the
//! formatting code: conversions between `String` and `Vec<char>`,
//! decimal formatting of integers and decimal parsing of `i64`.

use vstd::prelude::*;
use vstd::utf8::{encode_utf8, valid_utf8};

verus! {

/// Builds a `String` holding exactly the given characters.
///
/// Trusted: calls `FromIterator<char>` for `String` (std), which appends the
/// characters in order.
#[verifier::external_body]
pub fn string_from_chars(v: &Vec<char>) -> (s: String)
    ensures
        s@ == v@,
{
    v.iter().collect()
}

/// Decodes bytes as UTF-8: the text whose UTF-8 encoding the bytes are, or
/// `None` if they are not valid UTF-8.
///
/// Trusted: calls `String::from_utf8` (std), which returns an error exactly
/// when the bytes are not valid UTF-8, and otherwise a `String` whose bytes are
/// the given ones (the UTF-8 validity and encoding are vstd's `valid_utf8` and
/// `encode_utf8`).
#[verifier::external_body]
pub fn decode_utf8(bytes: Vec<u8>) -> (r: Option<String>)
    ensures
        match r {
            Some(s) => valid_utf8(bytes@) && encode_utf8(s@) == bytes@,
            None => !valid_utf8(bytes@),
        },
{
    String::from_utf8(bytes).ok()
}

/// The bytes of `b` other than zero bytes, in order.
pub open spec fn without_zeros(b: Seq<u8>) -> Seq<u8> {
    b.filter(|x: u8| x != 0)
}

/// The text held in a buffer that is filled with zero bytes where nothing was
/// written: the zero bytes are dropped and the rest decoded as UTF-8. `None`
/// if the rest is not valid UTF-8.
pub fn buffer_text(bytes: &Vec<u8>) -> (r: Option<String>)
    ensures
        match r {
            Some(s) => encode_utf8(s@) == without_zeros(bytes@),
            None => !valid_utf8(without_zeros(bytes@)),
        },
{
    let mut kept: Vec<u8> = Vec::new();
    let mut i: usize = 0;
    while i < bytes.len()
        invariant
            0 <= i <= bytes@.len(),
            kept@ == without_zeros(bytes@.take(i as int)),
        decreases bytes@.len() - i,
    {
        let b = bytes[i];
        proof {
            assert(bytes@.take((i + 1) as int).drop_last() =~= bytes@.take(i as int));
            reveal(Seq::filter);
        }
        if b != 0 {
            kept.push(b);
        }
        i = i + 1;
    }
    assert(bytes@.take(bytes@.len() as int) =~= bytes@);
    decode_utf8(kept)
}

/// Returns the characters of `s`, in order.
pub fn chars_of(s: &str) -> (v: Vec<char>)
    ensures
        v@ == s@,
{
    let mut v: Vec<char> = Vec::new();
    for c in it: s.chars()
        invariant
            v@ == it.seq().take(it.index() as int),
    {
        v.push(c);
    }
    assert(v@ =~= s@);
    v
}

/// The character at index `i`.
pub fn char_at(cs: &Vec<char>, i: usize) -> (c: char)
    requires
        i < cs@.len(),
    ensures
        c == cs@[i as int],
{
    cs[i]
}

/// Appends the characters of `s` to `out`.
pub fn push_str(out: &mut Vec<char>, s: &str)
    ensures
        final(out)@ == old(out)@ + s@,
{
    let ghost start = out@;
    for c in it: s.chars()
        invariant
            out@ == start + it.seq().take(it.index() as int),
    {
        out.push(c);
    }
    assert(out@ =~= start + s@);
}

/// Appends all characters of `s` to `out`.
pub fn push_chars(out: &mut Vec<char>, s: &Vec<char>)
    ensures
        final(out)@ == old(out)@ + s@,
{
    let ghost start = out@;
    let mut i: usize = 0;
    while i < s.len()
        invariant
            0 <= i <= s.len(),
            out@ == start + s@.take(i as int),
        decreases s.len() - i,
    {
        out.push(s[i]);
        i = i + 1;
        assert(s@.take(i as int) =~= s@.take((i - 1) as int).push(s@[i - 1]));
    }
    assert(s@.take(s.len() as int) =~= s@);
}

/// Whether two character vectors hold the same characters.
pub fn chars_eq(a: &Vec<char>, b: &Vec<char>) -> (r: bool)
    ensures
        r == (a@ == b@),
{
    if a.len() != b.len() {
        return false;
    }
    let mut i: usize = 0;
    while i < a.len()
        invariant
            a.len() == b.len(),
            0 <= i <= a.len(),
            forall|k: int| 0 <= k < i ==> a@[k] == b@[k],
        decreases a.len() - i,
    {
        if a[i] != b[i] {
            return false;
        }
        i = i + 1;
    }
    assert(a@ =~= b@);
    true
}

/// Whether the characters of `a` equal the characters of the string `b`.
pub fn chars_eq_str(a: &Vec<char>, b: &str) -> (r: bool)
    ensures
        r == (a@ == b@),
{
    let bv = chars_of(b);
    chars_eq(a, &bv)
}

/// The decimal digit character for `d` (`0 <= d < 10`).
pub open spec fn digit_char(d: nat) -> char {
    if d == 0 {
        '0'
    } else if d == 1 {
        '1'
    } else if d == 2 {
        '2'
    } else if d == 3 {
        '3'
    } else if d == 4 {
        '4'
    } else if d == 5 {
        '5'
    } else if d == 6 {
        '6'
    } else if d == 7 {
        '7'
    } else if d == 8 {
        '8'
    } else {
        '9'
    }
}

/// The decimal representation of a natural number, without leading zeros.
pub open spec fn nat_digits(n: nat) -> Seq<char>
    decreases n,
{
    if n < 10 {
        seq![digit_char(n)]
    } else {
        nat_digits(n / 10).push(digit_char(n % 10))
    }
}

/// The decimal representation of an integer, with a leading `-` when negative.
pub open spec fn int_digits(i: int) -> Seq<char> {
    if i < 0 {
        seq!['-'] + nat_digits((-i) as nat)
    } else {
        nat_digits(i as nat)
    }
}

/// The digit a decimal digit character stands for.
pub open spec fn digit_of(c: char) -> nat {
    if c == '1' {
        1
    } else if c == '2' {
        2
    } else if c == '3' {
        3
    } else if c == '4' {
        4
    } else if c == '5' {
        5
    } else if c == '6' {
        6
    } else if c == '7' {
        7
    } else if c == '8' {
        8
    } else if c == '9' {
        9
    } else {
        0
    }
}

/// A digit's character is a digit, and its value gives the digit back.
proof fn lemma_digit_char(d: nat)
    requires
        d < 10,
    ensures
        digit_of(digit_char(d)) == d,
        '0' <= digit_char(d) <= '9',
{
}

/// Every character of a decimal representation is a digit.
proof fn lemma_nat_digits_are_digits(n: nat)
    ensures
        nat_digits(n).len() >= 1,
        n >= 10 ==> nat_digits(n).len() >= 2,
        forall|k: int| 0 <= k < nat_digits(n).len() ==> '0' <= #[trigger] nat_digits(n)[k] <= '9',
    decreases n,
{
    lemma_digit_char(n % 10);
    if n < 10 {
        lemma_digit_char(n);
    }
    if n >= 10 {
        lemma_nat_digits_are_digits(n / 10);
        assert forall|k: int| 0 <= k < nat_digits(n).len() implies '0' <= #[trigger] nat_digits(n)[k] <= '9' by {
            if k < nat_digits(n).len() - 1 {
                assert(nat_digits(n)[k] == nat_digits(n / 10)[k]);
            }
        }
    }
}

/// Different numbers have different decimal representations.
proof fn lemma_nat_digits_injective(a: nat, b: nat)
    requires
        nat_digits(a) == nat_digits(b),
    ensures
        a == b,
    decreases a,
{
    lemma_nat_digits_are_digits(a);
    lemma_nat_digits_are_digits(b);
    if a < 10 && b < 10 {
        assert(nat_digits(a) == seq![digit_char(a)]);
        assert(nat_digits(b) == seq![digit_char(b)]);
        assert(nat_digits(a)[0] == digit_char(a));
        assert(nat_digits(b)[0] == digit_char(b));
        lemma_digit_char(a);
        lemma_digit_char(b);
    } else if a >= 10 && b >= 10 {
        assert(nat_digits(a / 10) =~= nat_digits(a).drop_last());
        assert(nat_digits(b / 10) =~= nat_digits(b).drop_last());
        lemma_nat_digits_injective(a / 10, b / 10);
        assert(nat_digits(a) == nat_digits(a / 10).push(digit_char(a % 10)));
        assert(nat_digits(b) == nat_digits(b / 10).push(digit_char(b % 10)));
        assert(nat_digits(a).last() == digit_char(a % 10));
        assert(nat_digits(b).last() == digit_char(b % 10));
        lemma_digit_char(a % 10);
        lemma_digit_char(b % 10);
        assert(a % 10 == b % 10);
        assert(a == 10 * (a / 10) + a % 10);
        assert(b == 10 * (b / 10) + b % 10);
    } else {
        assert(nat_digits(a).len() != nat_digits(b).len());
    }
}

/// The decimal representation of an integer starts with `-` exactly when the
/// integer is negative, and different integers have different
/// representations.
pub proof fn law_int_digits_sign_and_injective(i: int, j: int)
    ensures
        int_digits(i).len() >= 1,
        int_digits(i)[0] == '-' <==> i < 0,
        int_digits(i) == int_digits(j) ==> i == j,
{
    lemma_nat_digits_are_digits(if i < 0 { (-i) as nat } else { i as nat });
    lemma_nat_digits_are_digits(if j < 0 { (-j) as nat } else { j as nat });
    if i >= 0 {
        assert('0' <= nat_digits(i as nat)[0] <= '9');
    }
    if int_digits(i) == int_digits(j) {
        if i < 0 && j < 0 {
            assert(nat_digits((-i) as nat) =~= int_digits(i).drop_first());
            assert(nat_digits((-j) as nat) =~= int_digits(j).drop_first());
            lemma_nat_digits_injective((-i) as nat, (-j) as nat);
        } else if i >= 0 && j >= 0 {
            lemma_nat_digits_injective(i as nat, j as nat);
        } else if i < 0 {
            assert('0' <= nat_digits(j as nat)[0] <= '9');
            assert(int_digits(j)[0] == '-');
        } else {
            assert('0' <= nat_digits(i as nat)[0] <= '9');
            assert(int_digits(i)[0] == '-');
        }
    }
}

fn digit(d: u64) -> (c: char)
    requires
        d < 10,
    ensures
        c == digit_char(d as nat),
{
    if d == 0 {
        '0'
    } else if d == 1 {
        '1'
    } else if d == 2 {
        '2'
    } else if d == 3 {
        '3'
    } else if d == 4 {
        '4'
    } else if d == 5 {
        '5'
    } else if d == 6 {
        '6'
    } else if d == 7 {
        '7'
    } else if d == 8 {
        '8'
    } else {
        '9'
    }
}

/// Appends the decimal representation of `n` to `out`.
pub fn push_u64(out: &mut Vec<char>, n: u64)
    ensures
        final(out)@ == old(out)@ + nat_digits(n as nat),
    decreases n,
{
    if n < 10 {
        out.push(digit(n));
        assert(out@ =~= old(out)@ + nat_digits(n as nat));
    } else {
        push_u64(out, n / 10);
        out.push(digit(n % 10));
        assert(out@ =~= old(out)@ + nat_digits(n as nat));
    }
}

/// Appends the decimal representation of `i` to `out`.
pub fn push_i64(out: &mut Vec<char>, i: i64)
    ensures
        final(out)@ == old(out)@ + int_digits(i as int),
{
    if i < 0 {
        out.push('-');
        let mag: u64 = (-(i as i128)) as u64;
        push_u64(out, mag);
        assert(out@ =~= old(out)@ + int_digits(i as int));
    } else {
        push_u64(out, i as u64);
    }
}

/// Whether `c` is an ASCII decimal digit.
pub open spec fn is_digit(c: char) -> bool {
    '0' <= c <= '9'
}

/// The value of an ASCII decimal digit.
pub open spec fn digit_value(c: char) -> int {
    (c as int) - 48
}

/// The outcome of parsing a decimal `i64`, following the rules of
/// `i64::from_str`: an optional sign, then one or more ASCII digits.
#[derive(Debug, Clone, Copy, PartialEq, Eq)]
pub enum IntParse {
    /// The text was empty.
    Empty,
    /// The text held a character that is not a digit where one was expected.
    InvalidDigit,
    /// The value is larger than `i64::MAX`.
    PosOverflow,
    /// The value is smaller than `i64::MIN`.
    NegOverflow,
    /// The parsed value.
    Value(i64),
}

/// Scans the digits `d` left to right, starting from the accumulated value `acc`.
/// An invalid digit is reported before an overflow caused by the same step.
pub open spec fn scan_digits(d: Seq<char>, acc: int, neg: bool) -> IntParse
    decreases d.len(),
{
    if d.len() == 0 {
        IntParse::Value(acc as i64)
    } else if !is_digit(d[0]) {
        IntParse::InvalidDigit
    } else {
        let next = if neg {
            acc * 10 - digit_value(d[0])
        } else {
            acc * 10 + digit_value(d[0])
        };
        if !(i64::MIN <= acc * 10 <= i64::MAX) || !(i64::MIN <= next <= i64::MAX) {
            if neg {
                IntParse::NegOverflow
            } else {
                IntParse::PosOverflow
            }
        } else {
            scan_digits(d.drop_first(), next, neg)
        }
    }
}

/// What `i64::from_str` gives for the text `s`.
pub open spec fn parse_i64_spec(s: Seq<char>) -> IntParse {
    if s.len() == 0 {
        IntParse::Empty
    } else if (s[0] == '+' || s[0] == '-') && s.len() == 1 {
        IntParse::InvalidDigit
    } else if s[0] == '+' {
        scan_digits(s.drop_first(), 0, false)
    } else if s[0] == '-' {
        scan_digits(s.drop_first(), 0, true)
    } else {
        scan_digits(s, 0, false)
    }
}

/// Parses `s` as a decimal `i64`, as `i64::from_str` does.
pub fn parse_i64(s: &Vec<char>) -> (r: IntParse)
    ensures
        r == parse_i64_spec(s@),
{
    if s.len() == 0 {
        return IntParse::Empty;
    }
    if (s[0] == '+' || s[0] == '-') && s.len() == 1 {
        return IntParse::InvalidDigit;
    }
    let neg = s[0] == '-';
    let mut i: usize = if s[0] == '+' || s[0] == '-' { 1 } else { 0 };
    let ghost digits = s@.skip(i as int);
    let mut acc: i64 = 0;
    assert(digits == s@.drop_first() || digits == s@);
    while i < s.len()
        invariant
            0 <= i <= s.len(),
            scan_digits(s@.skip(i as int), acc as int, neg) == parse_i64_spec(s@),
        decreases s.len() - i,
    {
        let c = s[i];
        let ghost rest = s@.skip(i as int);
        assert(rest[0] == c);
        assert(rest.drop_first() =~= s@.skip(i + 1));
        if !('0' <= c && c <= '9') {
            return IntParse::InvalidDigit;
        }
        let d: i64 = (c as u32 - 48) as i64;
        let m = acc.checked_mul(10);
        match m {
            None => {
                return if neg { IntParse::NegOverflow } else { IntParse::PosOverflow };
            },
            Some(mv) => {
                let n = if neg { mv.checked_sub(d) } else { mv.checked_add(d) };
                match n {
                    None => {
                        return if neg { IntParse::NegOverflow } else { IntParse::PosOverflow };
                    },
                    Some(nv) => {
                        acc = nv;
                    },
                }
            },
        }
        i = i + 1;
    }
    assert(s@.skip(i as int).len() == 0);
    IntParse::Value(acc)
}

} // verus!
