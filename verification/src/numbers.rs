//! Numbers written out and read back.
use vstd::prelude::*;

use crate::text::{chars_of, text_of};

verus! {

// ---------------------------------------------------------------------------
// Specifications
// ---------------------------------------------------------------------------

/// The digit of value `d`, for `d` below sixteen, in lower case.
pub open spec fn digit(d: int) -> char {
    if d < 10 {
        (48 + d) as char
    } else {
        (87 + d) as char
    }
}

/// `n` in decimal digits.
pub open spec fn decimal(n: nat) -> Seq<char>
    decreases n,
{
    if n < 10 {
        seq![digit(n as int)]
    } else {
        decimal(n / 10).push(digit((n % 10) as int))
    }
}

/// `n` in hexadecimal digits.
pub open spec fn hexadecimal(n: nat) -> Seq<char>
    decreases n,
{
    if n < 16 {
        seq![digit(n as int)]
    } else {
        hexadecimal(n / 16).push(digit((n % 16) as int))
    }
}

/// `n` in decimal digits, behind a minus sign where it is negative.
pub open spec fn signed_decimal(n: int) -> Seq<char> {
    if n < 0 {
        seq!['-'] + decimal((-n) as nat)
    } else {
        decimal(n as nat)
    }
}

/// `digits` behind as many zeros as make it `width` characters long.
pub open spec fn zero_padded(digits: Seq<char>, width: nat) -> Seq<char> {
    if digits.len() >= width {
        digits
    } else {
        Seq::new((width - digits.len()) as nat, |i: int| '0') + digits
    }
}

/// `digits` in groups of three from the right, with commas between them.
pub open spec fn grouped_of(digits: Seq<char>) -> Seq<char>
    decreases digits.len(),
{
    if digits.len() <= 3 {
        digits
    } else {
        grouped_of(digits.take(digits.len() - 3)).push(',') + digits.skip(digits.len() - 3)
    }
}

/// `c` is a decimal digit.
pub open spec fn is_digit(c: char) -> bool {
    '0' <= c <= '9'
}

/// `s` is made of decimal digits, one at least.
pub open spec fn all_digits(s: Seq<char>) -> bool {
    s.len() > 0 && forall|i: int| 0 <= i < s.len() ==> is_digit(#[trigger] s[i])
}

/// The number that a text of decimal digits writes.
pub open spec fn value_of(digits: Seq<char>) -> nat
    decreases digits.len(),
{
    if digits.len() == 0 {
        0
    } else {
        value_of(digits.drop_last()) * 10 + ((digits.last() as nat) - 48) as nat
    }
}

/// The whole number that `s` writes: digits, behind a sign or not.
pub open spec fn integer_of(s: Seq<char>) -> Option<int> {
    let minus = s.len() > 0 && s[0] == '-';
    let plus = s.len() > 0 && s[0] == '+';
    let body = if minus || plus { s.skip(1) } else { s };
    if !all_digits(body) {
        None
    } else if minus {
        Some(-(value_of(body) as int))
    } else {
        Some(value_of(body) as int)
    }
}

/// The number of 64 bits that `s` writes, if it writes one.
pub open spec fn integer64_of(s: Seq<char>) -> Option<int> {
    match integer_of(s) {
        Some(n) => if i64::MIN <= n <= i64::MAX {
            Some(n)
        } else {
            None
        },
        None => None,
    }
}

/// The number without a sign of 64 bits that `s` writes: digits, behind a plus or
/// not.
pub open spec fn unsigned64_of(s: Seq<char>) -> Option<int> {
    let body = if s.len() > 0 && s[0] == '+' { s.skip(1) } else { s };
    if all_digits(body) && value_of(body) <= u64::MAX {
        Some(value_of(body) as int)
    } else {
        None
    }
}

// ---------------------------------------------------------------------------
// Functions
// ---------------------------------------------------------------------------

/// The digit of value `d`.
fn digit_char(d: u8) -> (c: char)
    requires
        d < 16,
    ensures
        c == digit(d as int),
{
    if d < 10 {
        (48 + d) as char
    } else {
        (87 + d) as char
    }
}

/// `n` in decimal digits.
pub fn decimal_text(n: u64) -> (r: String)
    ensures
        r@ == decimal(n as nat),
        r@.len() >= 1,
    decreases n,
{
    if n < 10 {
        let mut s = String::new();
        s.push(digit_char(n as u8));
        assert(s@ =~= seq![digit(n as int)]);
        s
    } else {
        let mut s = decimal_text(n / 10);
        s.push(digit_char((n % 10) as u8));
        s
    }
}

/// `n` in hexadecimal digits.
pub fn hexadecimal_text(n: u64) -> (r: String)
    ensures
        r@ == hexadecimal(n as nat),
    decreases n,
{
    if n < 16 {
        let mut s = String::new();
        s.push(digit_char(n as u8));
        assert(s@ =~= seq![digit(n as int)]);
        s
    } else {
        let mut s = hexadecimal_text(n / 16);
        s.push(digit_char((n % 16) as u8));
        s
    }
}

/// `n` in decimal digits, behind a minus sign where it is negative.
pub fn signed_decimal_text(n: i64) -> (r: String)
    ensures
        r@ == signed_decimal(n as int),
{
    if n < 0 {
        let mut s = String::new();
        s.push('-');
        assert(s@ =~= seq!['-']);
        let magnitude: u64 = if n == i64::MIN { 0x8000_0000_0000_0000 } else { (-n) as u64 };
        s.append(decimal_text(magnitude).as_str());
        s
    } else {
        decimal_text(n as u64)
    }
}

/// `digits` behind as many zeros as make it `width` characters long.
pub fn zero_padded_text(digits: &str, width: usize) -> (r: String)
    ensures
        r@ == zero_padded(digits@, width as nat),
{
    let n = digits.unicode_len();
    if n >= width {
        return String::from_str(digits);
    }
    let mut s = String::new();
    for i in 0..width - n
        invariant
            n < width,
            s@ == Seq::new(i as nat, |k: int| '0'),
    {
        s.push('0');
        assert(s@ =~= Seq::new((i + 1) as nat, |k: int| '0'));
    }
    s.append(digits);
    s
}

/// The first `end` digits of `v` in groups of three, with commas between them.
fn grouped_upto(v: &Vec<char>, end: usize) -> (r: String)
    requires
        end <= v@.len(),
    ensures
        r@ == grouped_of(v@.take(end as int)),
    decreases end,
{
    if end <= 3 {
        assert(v@.subrange(0, end as int) =~= v@.take(end as int));
        text_of(v, 0, end)
    } else {
        let mut s = grouped_upto(v, end - 3);
        s.push(',');
        s.append(text_of(v, end - 3, end).as_str());
        proof {
            let d = v@.take(end as int);
            assert(d.take(end - 3) =~= v@.take(end - 3));
            assert(d.skip(end - 3) =~= v@.subrange(end - 3, end as int));
        }
        s
    }
}

/// `n` with a comma between groups of three digits.
pub fn grouped(n: u64) -> (r: String)
    ensures
        r@ == grouped_of(decimal(n as nat)),
{
    let digits = decimal_text(n);
    let v = chars_of(digits.as_str());
    assert(v@.take(v@.len() as int) =~= v@);
    grouped_upto(&v, v.len())
}

/// The number of 64 bits that `s` writes, if it writes one.
pub fn parse_integer(s: &str) -> (r: Option<i64>)
    ensures
        match r {
            Some(n) => integer64_of(s@) == Some(n as int),
            None => integer64_of(s@) is None,
        },
{
    let v = chars_of(s);
    let n = v.len();
    let minus = n > 0 && v[0] == '-';
    let plus = n > 0 && v[0] == '+';
    let start: usize = if minus || plus { 1 } else { 0 };
    let ghost body = if minus || plus { s@.skip(1) } else { s@ };
    assert(body =~= v@.skip(start as int));
    if start == n {
        return None;
    }
    let limit: u64 = 0x8000_0000_0000_0000;
    let mut big = false;
    let mut acc: u64 = 0;
    for i in start..n
        invariant
            start <= i <= n == v@.len(),
            v@ == s@,
            minus == (s@.len() > 0 && s@[0] == '-'),
            plus == (s@.len() > 0 && s@[0] == '+'),
            body == (if minus || plus { s@.skip(1) } else { s@ }),
            body == v@.skip(start as int),
            limit == 0x8000_0000_0000_0000,
            forall|k: int| 0 <= k < i - start ==> is_digit(#[trigger] body[k]),
            big ==> value_of(body.take(i - start)) > limit,
            !big ==> acc == value_of(body.take(i - start)) && acc <= limit,
    {
        let c = v[i];
        assert(body[i - start] == c);
        if !('0' <= c && c <= '9') {
            assert(!all_digits(body));
            return None;
        }
        let d = (c as u32 - 48) as u64;
        proof {
            let next = body.take(i + 1 - start);
            assert(next.drop_last() =~= body.take(i - start));
            assert(next.last() == c);
        }
        if !big {
            if acc > 922337203685477580 {
                big = true;
            } else {
                acc = acc * 10 + d;
                if acc > limit {
                    big = true;
                }
            }
        }
    }
    assert(body.take(n - start) =~= body);
    assert(all_digits(body));
    if big {
        None
    } else if minus {
        if acc == limit {
            Some(i64::MIN)
        } else {
            Some(-(acc as i64))
        }
    } else if acc < limit {
        Some(acc as i64)
    } else {
        None
    }
}

/// The number without a sign of 64 bits that `s` writes, if it writes one.
pub fn parse_unsigned(s: &str) -> (r: Option<u64>)
    ensures
        match r {
            Some(n) => unsigned64_of(s@) == Some(n as int),
            None => unsigned64_of(s@) is None,
        },
{
    let v = chars_of(s);
    let n = v.len();
    let start: usize = if n > 0 && v[0] == '+' { 1 } else { 0 };
    let ghost body = if s@.len() > 0 && s@[0] == '+' { s@.skip(1) } else { s@ };
    assert(body =~= v@.skip(start as int));
    if start == n {
        return None;
    }
    let mut acc: u64 = 0;
    let mut big = false;
    for i in start..n
        invariant
            start <= i <= n == v@.len(),
            v@ == s@,
            body == (if s@.len() > 0 && s@[0] == '+' { s@.skip(1) } else { s@ }),
            body == v@.skip(start as int),
            forall|k: int| 0 <= k < i - start ==> is_digit(#[trigger] body[k]),
            big ==> value_of(body.take(i - start)) > u64::MAX,
            !big ==> acc == value_of(body.take(i - start)),
    {
        let c = v[i];
        assert(body[i - start] == c);
        if !('0' <= c && c <= '9') {
            assert(!all_digits(body));
            return None;
        }
        let d = (c as u32 - 48) as u64;
        proof {
            let next = body.take(i + 1 - start);
            assert(next.drop_last() =~= body.take(i - start));
            assert(next.last() == c);
        }
        if !big {
            if acc > 1844674407370955161 || (acc == 1844674407370955161 && d > 5) {
                big = true;
            } else {
                acc = acc * 10 + d;
            }
        }
    }
    assert(body.take(n - start) =~= body);
    assert(all_digits(body));
    if big {
        None
    } else {
        Some(acc)
    }
}

// ---------------------------------------------------------------------------
// Laws
// ---------------------------------------------------------------------------

/// Reading the digits of a number gives the number back.
pub proof fn law_decimal_reads_back(n: nat)
    ensures
        integer_of(decimal(n)) == Some(n as int),
{
    lemma_decimal(n);
    let s = decimal(n);
    assert(is_digit(s[0]));
}

/// Reading a number with a sign gives the number back.
pub proof fn law_signed_decimal_reads_back(n: int)
    ensures
        integer_of(signed_decimal(n)) == Some(n),
        i64::MIN <= n <= i64::MAX ==> integer64_of(signed_decimal(n)) == Some(n),
{
    if n < 0 {
        let s = signed_decimal(n);
        lemma_decimal((-n) as nat);
        assert(s.skip(1) =~= decimal((-n) as nat));
    } else {
        law_decimal_reads_back(n as nat);
    }
}

/// A number is written in digits, one at least.
pub proof fn lemma_decimal(n: nat)
    ensures
        decimal(n).len() > 0,
        value_of(decimal(n)) == n,
        forall|i: int| 0 <= i < decimal(n).len() ==> is_digit(#[trigger] decimal(n)[i]),
    decreases n,
{
    if n < 10 {
        let s = decimal(n);
        assert(s.drop_last() =~= Seq::empty());
        assert(value_of(Seq::empty()) == 0);
        assert(value_of(s) == n);
    } else {
        lemma_decimal(n / 10);
        let t = decimal(n / 10);
        assert(decimal(n).drop_last() =~= t);
    }
}

/// A number that is filled up has its digits at the end, zeros before them, and the same
/// value; it has the width, or more where its digits are more.
pub proof fn law_filling_keeps_the_value(digits: Seq<char>, width: nat)
    ensures
        zero_padded(digits, width).len() == if digits.len() < width { width } else { digits.len() },
        digits.is_suffix_of(zero_padded(digits, width)),
        forall|i: int|
            0 <= i < zero_padded(digits, width).len() - digits.len() ==> #[trigger] zero_padded(digits, width)[i] == '0',
        value_of(zero_padded(digits, width)) == value_of(digits),
{
    let p = zero_padded(digits, width);
    let k: nat = if digits.len() < width { (width - digits.len()) as nat } else { 0 };
    assert(p =~= Seq::new(k, |i: int| '0') + digits);
    assert(p.subrange(p.len() - digits.len(), p.len() as int) =~= digits);
    lemma_leading_zeros(k, digits);
}

proof fn lemma_leading_zeros(k: nat, digits: Seq<char>)
    ensures
        value_of(Seq::new(k, |i: int| '0') + digits) == value_of(digits),
    decreases digits.len(), k,
{
    let zeros = Seq::new(k, |i: int| '0');
    if digits.len() > 0 {
        assert((zeros + digits).drop_last() =~= zeros + digits.drop_last());
        lemma_leading_zeros(k, digits.drop_last());
    } else if k > 0 {
        let fewer = Seq::new((k - 1) as nat, |i: int| '0');
        assert((zeros + digits).drop_last() =~= fewer + digits);
        lemma_leading_zeros((k - 1) as nat, digits);
        assert((zeros + digits).last() == '0');
    } else {
        assert(zeros + digits =~= digits);
    }
}

/// Groups of three are told apart by commas, counted from the end, and by nothing else;
/// the digits stay, in order.
pub proof fn law_digits_are_grouped(digits: Seq<char>, i: int)
    requires
        digits.len() > 0,
    ensures
        ({
            let g = grouped_of(digits);
            &&& g.len() == digits.len() + (digits.len() - 1) / 3
            &&& 0 <= i < g.len() && i % 4 == 3 ==> g[g.len() - 1 - i] == ','
            &&& 0 <= i < g.len() && i % 4 != 3 ==> g[g.len() - 1 - i] == digits[digits.len() - 1 - (i - i / 4)]
        }),
    decreases digits.len(),
{
    let g = grouped_of(digits);
    if digits.len() > 3 {
        let front = digits.take(digits.len() - 3);
        law_digits_are_grouped(front, i - 4);
        let h = grouped_of(front);
        assert(g == h.push(',') + digits.skip(digits.len() - 3));
        assert(g.len() == h.len() + 4);
        if 4 <= i < g.len() {
            assert(g[g.len() - 1 - i] == h[h.len() - 1 - (i - 4)]);
        }
    }
}

/// The number that a text of hexadecimal digits writes.
pub open spec fn hexadecimal_value_of(digits: Seq<char>) -> nat
    decreases digits.len(),
{
    if digits.len() == 0 {
        0
    } else {
        let c = digits.last();
        hexadecimal_value_of(digits.drop_last()) * 16 + (if c <= '9' {
            ((c as nat) - 48) as nat
        } else {
            ((c as nat) - 87) as nat
        })
    }
}

/// Reading the hexadecimal digits of a number gives the number back.
pub proof fn law_hexadecimal_reads_back(n: nat)
    ensures
        hexadecimal(n).len() > 0,
        hexadecimal_value_of(hexadecimal(n)) == n,
        forall|i: int|
            0 <= i < hexadecimal(n).len() ==> '0' <= #[trigger] hexadecimal(n)[i] <= '9' || 'a' <= hexadecimal(n)[i] <= 'f',
    decreases n,
{
    let s = hexadecimal(n);
    if n < 16 {
        assert(s.drop_last() =~= Seq::empty());
        assert(hexadecimal_value_of(Seq::empty()) == 0);
    } else {
        law_hexadecimal_reads_back(n / 16);
        assert(s.drop_last() =~= hexadecimal(n / 16));
    }
}

/// A number is read from digits, with a sign before them or none; from nothing else.
pub proof fn law_numbers_are_digits(digits: Seq<char>)
    ensures
        all_digits(digits) ==> {
            &&& integer_of(digits) == Some(value_of(digits) as int)
            &&& integer_of(seq!['-'] + digits) == Some(-(value_of(digits) as int))
            &&& integer_of(seq!['+'] + digits) == Some(value_of(digits) as int)
        },
        !all_digits(digits) ==> integer_of(seq!['-'] + digits) is None && integer_of(seq!['+'] + digits) is None,
        !all_digits(digits) && (digits.len() == 0 || (digits[0] != '-' && digits[0] != '+')) ==> integer_of(digits) is None,
{
    assert((seq!['-'] + digits).skip(1) =~= digits);
    assert((seq!['+'] + digits).skip(1) =~= digits);
    if all_digits(digits) {
        assert(is_digit(digits[0]));
    }
}

/// A number is read where it fits: with a sign into 64 bits, or, without one, into as many.
pub proof fn law_numbers_must_fit(s: Seq<char>)
    ensures
        integer_of(s) matches Some(n) && i64::MIN <= n <= i64::MAX ==> integer64_of(s) == integer_of(s),
        integer_of(s) matches Some(n) && !(i64::MIN <= n <= i64::MAX) ==> integer64_of(s) is None,
        integer_of(s) is None ==> integer64_of(s) is None && unsigned64_of(s) is None,
        s.len() > 0 && s[0] == '-' ==> unsigned64_of(s) is None,
        s.len() > 0 && s[0] != '-' && (integer_of(s) matches Some(n) && n <= u64::MAX) ==> unsigned64_of(s) == integer_of(
            s,
        ),
        integer_of(s) matches Some(n) && n > u64::MAX ==> unsigned64_of(s) is None,
{
    if s.len() > 0 && s[0] == '-' && all_digits(s) {
        assert(is_digit(s[0]));
    }
    if s.len() > 0 && s[0] == '-' && unsigned64_of(s) is Some {
        assert(is_digit(s[0]));
    }
}

} // verus!
