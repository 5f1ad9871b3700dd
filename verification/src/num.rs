//! Numbers written as text, and read back from it.

use vstd::prelude::*;
use vstd::string::*;
use crate::text::string_of;

verus! {

/// The decimal digit of a value below ten.
pub open spec fn digit(d: nat) -> char {
    (48 + d) as u8 as char
}

/// `n` in decimal, without leading zeros.
pub open spec fn decimal(n: nat) -> Seq<char>
    decreases n,
{
    if n < 10 {
        seq![digit(n)]
    } else {
        decimal(n / 10).push(digit(n % 10))
    }
}

/// `i` in decimal, with a minus sign when negative.
pub open spec fn decimal_int(i: int) -> Seq<char> {
    if i < 0 {
        seq!['-'] + decimal((-i) as nat)
    } else {
        decimal(i as nat)
    }
}

pub open spec fn is_digit(c: char) -> bool {
    '0' <= c <= '9'
}

/// Only decimal digits.
pub open spec fn all_digits(s: Seq<char>) -> bool {
    forall|i: int| 0 <= i < s.len() ==> is_digit(#[trigger] s[i])
}

pub open spec fn digit_value(c: char) -> nat {
    (c as u32 - 48) as nat
}

/// The number that a run of decimal digits writes.
pub open spec fn digits_value(s: Seq<char>) -> nat
    decreases s.len(),
{
    if s.len() == 0 {
        0
    } else {
        digits_value(s.drop_last()) * 10 + digit_value(s.last())
    }
}

/// `s` without one leading plus sign.
pub open spec fn unsigned_part(s: Seq<char>) -> Seq<char> {
    if s.len() > 0 && s[0] == '+' {
        s.skip(1)
    } else {
        s
    }
}

/// The number `s` writes, where it is no more than `max`: one or more digits,
/// behind an optional plus sign.
pub open spec fn parsed_nat(s: Seq<char>, max: nat) -> Option<nat> {
    let t = unsigned_part(s);
    if t.len() > 0 && all_digits(t) && digits_value(t) <= max {
        Some(digits_value(t))
    } else {
        None
    }
}

/// The number `s` writes, where it fits 32 bits with a sign: one or more digits,
/// behind an optional plus or minus sign.
pub open spec fn parsed_int(s: Seq<char>) -> Option<int> {
    if s.len() > 0 && s[0] == '-' {
        let t = s.skip(1);
        if t.len() > 0 && all_digits(t) && digits_value(t) <= 0x8000_0000 {
            Some(-(digits_value(t) as int))
        } else {
            None
        }
    } else {
        match parsed_nat(s, 0x7fff_ffff) {
            Some(n) => Some(n as int),
            None => None,
        }
    }
}

/// A longer run of digits writes no smaller number.
pub proof fn lemma_digits_prefix(s: Seq<char>, n: int)
    requires
        0 <= n <= s.len(),
        all_digits(s),
    ensures
        digits_value(s.take(n)) <= digits_value(s),
    decreases s.len(),
{
    if n < s.len() {
        assert(s.drop_last().take(n) =~= s.take(n));
        lemma_digits_prefix(s.drop_last(), n);
    } else {
        assert(s.take(n) =~= s);
    }
}

/// The digits `s[from..]` as a number of at most `max`.
fn parse_from(s: &[char], from: usize, max: u64) -> (r: Option<u64>)
    requires
        from <= s.len(),
    ensures
        r is Some <==> (s@.skip(from as int).len() > 0 && all_digits(s@.skip(from as int))
            && digits_value(s@.skip(from as int)) <= max),
        r matches Some(v) ==> v == digits_value(s@.skip(from as int)),
{
    let ghost t = s@.skip(from as int);
    if from == s.len() {
        return None;
    }
    let mut i: usize = from;
    let mut acc: u64 = 0;
    assert(t.take(0) =~= seq![]);
    while i < s.len()
        invariant
            t == s@.skip(from as int),
            from <= i <= s.len(),
            all_digits(t.take(i - from)),
            acc == digits_value(t.take(i - from)),
            acc <= max,
        decreases s.len() - i,
    {
        let c = s[i];
        assert(t[i - from] == c);
        if c < '0' || c > '9' {
            assert(!is_digit(t[i - from]));
            return None;
        }
        let d: u64 = (c as u32 - 48) as u64;
        assert(t.take(i - from + 1).drop_last() =~= t.take(i - from));
        assert(digits_value(t.take(i - from + 1)) == acc * 10 + d);
        assert(t.take(i - from + 1) =~= t.take(i - from).push(c));
        if acc > max / 10 || d > max - acc * 10 {
            proof {
                if all_digits(t) {
                    lemma_digits_prefix(t, i - from + 1);
                }
            }
            return None;
        }
        acc = acc * 10 + d;
        i = i + 1;
    }
    assert(t.take(i - from) =~= t);
    Some(acc)
}

/// Read an unsigned number of at most `max`.
pub fn parse_nat(s: &[char], max: u64) -> (r: Option<u64>)
    ensures
        r is Some == parsed_nat(s@, max as nat) is Some,
        r matches Some(v) ==> v == parsed_nat(s@, max as nat)->0,
{
    assert(s@.skip(0) =~= s@);
    let from: usize = if s.len() > 0 && s[0] == '+' { 1 } else { 0 };
    parse_from(s, from, max)
}

/// Read a 32-bit number.
pub fn parse_u32(s: &[char]) -> (r: Option<u32>)
    ensures
        r is Some == parsed_nat(s@, u32::MAX as nat) is Some,
        r matches Some(v) ==> v == parsed_nat(s@, u32::MAX as nat)->0,
{
    match parse_nat(s, u32::MAX as u64) {
        Some(v) => Some(v as u32),
        None => None,
    }
}

/// Read a 32-bit number with a sign.
pub fn parse_i32(s: &[char]) -> (r: Option<i32>)
    ensures
        r is Some == parsed_int(s@) is Some,
        r matches Some(v) ==> v == parsed_int(s@)->0,
{
    if s.len() > 0 && s[0] == '-' {
        match parse_from(s, 1, 0x8000_0000) {
            Some(v) => Some((-(v as i64)) as i32),
            None => None,
        }
    } else {
        match parse_nat(s, 0x7fff_ffff) {
            Some(v) => Some(v as i32),
            None => None,
        }
    }
}

/// The decimal digits of `n`.
pub fn decimal_chars(n: u64) -> (r: Vec<char>)
    ensures
        r@ == decimal(n as nat),
    decreases n,
{
    let d: u8 = (n % 10) as u8;
    let c = (48 + d) as char;
    if n < 10 {
        let mut v: Vec<char> = Vec::new();
        v.push(c);
        assert(v@ =~= decimal(n as nat));
        v
    } else {
        let mut v = decimal_chars(n / 10);
        v.push(c);
        v
    }
}

/// `n` in decimal.
pub fn u64_text(n: u64) -> (r: String)
    ensures
        r@ == decimal(n as nat),
{
    let v = decimal_chars(n);
    string_of(&v)
}

/// `i` in decimal.
pub fn i64_text(i: i64) -> (r: String)
    ensures
        r@ == decimal_int(i as int),
{
    if i < 0 {
        let n: u64 = (-(i as i128)) as u64;
        let mut s = String::new();
        s.push('-');
        let d = u64_text(n);
        s.append(d.as_str());
        assert(s@ =~= decimal_int(i as int));
        s
    } else {
        u64_text(i as u64)
    }
}

/// The hexadecimal digit of a value below sixteen, in small letters.
pub open spec fn hex_digit(d: int) -> char {
    if d < 10 {
        (48 + d) as u8 as char
    } else {
        (87 + d) as u8 as char
    }
}

fn hex_char(d: u16) -> (r: char)
    requires
        d < 16,
    ensures
        r == hex_digit(d as int),
{
    if d < 10 {
        (48 + d) as u8 as char
    } else {
        (87 + d) as u8 as char
    }
}

/// `n` in hexadecimal, without leading zeros.
pub open spec fn hex(n: nat) -> Seq<char>
    decreases n,
{
    if n < 16 {
        seq![hex_digit(n as int)]
    } else {
        hex(n / 16).push(hex_digit(n as int % 16))
    }
}

fn hex_chars(n: u64) -> (r: Vec<char>)
    ensures
        r@ == hex(n as nat),
    decreases n,
{
    let c = hex_char((n % 16) as u16);
    if n < 16 {
        let mut v: Vec<char> = Vec::new();
        v.push(c);
        assert(v@ =~= hex(n as nat));
        v
    } else {
        let mut v = hex_chars(n / 16);
        v.push(c);
        v
    }
}

/// `n` in hexadecimal.
pub fn hex_text(n: u64) -> (r: String)
    ensures
        r@ == hex(n as nat),
{
    let v = hex_chars(n);
    string_of(&v)
}

/// `v` as four hexadecimal digits.
pub open spec fn hex4(v: u16) -> Seq<char> {
    seq![
        hex_digit(v as int / 4096),
        hex_digit(v as int / 256 % 16),
        hex_digit(v as int / 16 % 16),
        hex_digit(v as int % 16),
    ]
}

pub fn hex4_text(v: u16) -> (r: String)
    ensures
        r@ == hex4(v),
{
    let mut s = String::new();
    s.push(hex_char(v / 4096));
    s.push(hex_char(v / 256 % 16));
    s.push(hex_char(v / 16 % 16));
    s.push(hex_char(v % 16));
    assert(s@ =~= hex4(v));
    s
}

/// `n` in decimal, with zeros in front up to `width` digits.
pub open spec fn padded(n: nat, width: nat) -> Seq<char> {
    let d = decimal(n);
    if d.len() >= width {
        d
    } else {
        Seq::new((width - d.len()) as nat, |i: int| '0') + d
    }
}

pub fn padded_text(n: u64, width: usize) -> (r: String)
    ensures
        r@ == padded(n as nat, width as nat),
{
    let d = decimal_chars(n);
    let mut s = String::new();
    let mut i: usize = d.len();
    while i < width
        invariant
            d.len() <= i,
            d.len() <= width ==> i <= width,
            d.len() > width ==> i == d.len(),
            s@ =~= Seq::new((i - d.len()) as nat, |k: int| '0'),
        decreases width - i,
    {
        s.push('0');
        i = i + 1;
    }
    let t = string_of(&d);
    s.append(t.as_str());
    assert(s@ =~= padded(n as nat, width as nat));
    s
}

/// Decimal digits are digits, there is at least one, and they write the number
/// they came from.
pub proof fn lemma_decimal(n: nat)
    ensures
        decimal(n).len() > 0,
        all_digits(decimal(n)),
        digits_value(decimal(n)) == n,
    decreases n,
{
    if n < 10 {
        let s = seq![digit(n)];
        assert(s.drop_last() =~= seq![]);
        assert(digits_value(seq![]) == 0);
        assert(digits_value(s) == n);
    } else {
        lemma_decimal(n / 10);
        let s = decimal(n);
        assert(s.drop_last() =~= decimal(n / 10));
        assert(s.last() == digit(n % 10));
        assert(digit_value(digit(n % 10)) == n % 10);
        assert forall|i: int| 0 <= i < s.len() implies is_digit(#[trigger] s[i]) by {
            if i < s.len() - 1 {
                assert(s[i] == decimal(n / 10)[i]);
            }
        }
    }
}

/// A written number reads back as itself.
pub proof fn lemma_decimal_int_reads_back(i: int)
    requires
        i32::MIN <= i <= i32::MAX,
    ensures
        parsed_int(decimal_int(i)) == Some(i),
{
    if i < 0 {
        lemma_decimal((-i) as nat);
        assert(decimal_int(i).skip(1) =~= decimal((-i) as nat));
    } else {
        lemma_decimal(i as nat);
        assert(is_digit(decimal(i as nat)[0]));
    }
}

/// A written number without a sign reads back as itself.
pub proof fn lemma_decimal_reads_back(n: nat, max: nat)
    requires
        n <= max,
    ensures
        parsed_nat(decimal(n), max) == Some(n),
{
    lemma_decimal(n);
    assert(is_digit(decimal(n)[0]));
}

/// Numbers that differ are written differently in hexadecimal.
pub proof fn hex_tells_numbers_apart(a: nat, b: nat)
    requires
        hex(a) == hex(b),
    ensures
        a == b,
    decreases a,
{
    lemma_hex_len(a);
    lemma_hex_len(b);
    if a < 16 {
        assert(hex(a)[0] == hex_digit(a as int));
        assert(hex(b)[0] == hex_digit(b as int));
        lemma_hex_digit(a as int, b as int);
    } else {
        assert(hex(a).drop_last() =~= hex(a / 16));
        assert(hex(b).drop_last() =~= hex(b / 16));
        hex_tells_numbers_apart(a / 16, b / 16);
        assert(hex(a).last() == hex_digit(a as int % 16));
        assert(hex(b).last() == hex_digit(b as int % 16));
        lemma_hex_digit(a as int % 16, b as int % 16);
    }
}

proof fn lemma_hex_digit(d: int, e: int)
    requires
        0 <= d < 16,
        0 <= e < 16,
        hex_digit(d) == hex_digit(e),
    ensures
        d == e,
{
    assert(hex_digit(d) as u32 == if d < 10 {
        48 + d
    } else {
        87 + d
    });
    assert(hex_digit(e) as u32 == if e < 10 {
        48 + e
    } else {
        87 + e
    });
}

proof fn lemma_hex_len(n: nat)
    ensures
        hex(n).len() >= 1,
        hex(n).len() == 1 <==> n < 16,
    decreases n,
{
    if n >= 16 {
        lemma_hex_len(n / 16);
    }
}

/// A plus sign in front changes nothing; a number that is too large, an empty text and
/// anything but digits are no number.
pub proof fn only_digits_are_numbers(n: nat, max: nat, s: Seq<char>)
    ensures
        n <= max ==> parsed_nat(seq!['+'] + decimal(n), max) == Some(n),
        n > max ==> parsed_nat(decimal(n), max) is None,
        parsed_nat(seq![], max) is None,
        (exists|i: int| 0 <= i < s.len() && !is_digit(#[trigger] s[i]) && s[i] != '+') ==> parsed_nat(
            s,
            max,
        ) is None,
        n <= 0x8000_0000 ==> parsed_int(seq!['-'] + decimal(n)) == Some(-(n as int)),
{
    lemma_decimal(n);
    let d = decimal(n);
    assert((seq!['+'] + d).skip(1) =~= d);
    assert((seq!['-'] + d).skip(1) =~= d);
    assert(is_digit(d[0]));
    if exists|i: int| 0 <= i < s.len() && !is_digit(#[trigger] s[i]) && s[i] != '+' {
        let i = choose|i: int| 0 <= i < s.len() && !is_digit(#[trigger] s[i]) && s[i] != '+';
        let t = unsigned_part(s);
        if s[0] == '+' {
            assert(t[i - 1] == s[i]);
        } else {
            assert(t[i] == s[i]);
        }
    }
}

/// A padded number has the digits asked for, and is still that number.
pub proof fn padding_keeps_the_number(n: nat, width: nat)
    ensures
        padded(n, width).len() >= width,
        all_digits(padded(n, width)),
        digits_value(padded(n, width)) == n,
        decimal(n).len() >= width ==> padded(n, width) == decimal(n),
{
    lemma_decimal(n);
    let d = decimal(n);
    if d.len() < width {
        lemma_leading_zeros((width - d.len()) as nat, d);
    }
}

proof fn lemma_leading_zeros(k: nat, d: Seq<char>)
    requires
        all_digits(d),
    ensures
        all_digits(Seq::new(k, |i: int| '0') + d),
        digits_value(Seq::new(k, |i: int| '0') + d) == digits_value(d),
    decreases d.len(), k,
{
    let z = Seq::new(k, |i: int| '0');
    let s = z + d;
    assert forall|i: int| 0 <= i < s.len() implies is_digit(#[trigger] s[i]) by {
        if i >= k {
            assert(s[i] == d[i - k]);
        }
    }
    if d.len() > 0 {
        let e = d.drop_last();
        assert forall|i: int| 0 <= i < e.len() implies is_digit(#[trigger] e[i]) by {
            assert(e[i] == d[i]);
        }
        lemma_leading_zeros(k, e);
        assert(s.drop_last() =~= z + e);
        assert(s.last() == d.last());
    } else if k > 0 {
        lemma_leading_zeros((k - 1) as nat, d);
        assert(s.drop_last() =~= Seq::new((k - 1) as nat, |i: int| '0') + d);
        assert(s.last() == '0');
        assert(digit_value('0') == 0);
    } else {
        assert(s =~= d);
    }
}

/// Ten times a number and a digit is written by writing the digit behind the number.
pub proof fn digits_follow_their_place(n: nat, d: nat)
    requires
        d < 10,
    ensures
        n > 0 ==> decimal(10 * n + d) == decimal(n).push(('0' as u8 + d) as u8 as char),
        decimal(d) == seq![('0' as u8 + d) as u8 as char],
        decimal_int(-(n as int) - 1) == seq!['-'] + decimal((n + 1) as nat),
{
    if n > 0 {
        assert((10 * n + d) / 10 == n && (10 * n + d) % 10 == d);
    }
}

/// Words that differ are written differently in four hexadecimal digits.
pub proof fn four_digits_tell_words_apart(v: u16, w: u16)
    requires
        hex4(v) == hex4(w),
    ensures
        v == w,
        hex4(v).len() == 4,
{
    assert(hex4(v)[0] == hex_digit(v as int / 4096) && hex4(w)[0] == hex_digit(w as int / 4096));
    assert(hex4(v)[1] == hex_digit(v as int / 256 % 16) && hex4(w)[1] == hex_digit(
        w as int / 256 % 16,
    ));
    assert(hex4(v)[2] == hex_digit(v as int / 16 % 16) && hex4(w)[2] == hex_digit(w as int / 16 % 16));
    assert(hex4(v)[3] == hex_digit(v as int % 16) && hex4(w)[3] == hex_digit(w as int % 16));
    lemma_hex_digit(v as int / 4096, w as int / 4096);
    lemma_hex_digit(v as int / 256 % 16, w as int / 256 % 16);
    lemma_hex_digit(v as int / 16 % 16, w as int / 16 % 16);
    lemma_hex_digit(v as int % 16, w as int % 16);
    lemma_word_digits(v);
    lemma_word_digits(w);
}

proof fn lemma_word_digits(v: u16)
    ensures
        v as int == 4096 * (v as int / 4096) + 256 * (v as int / 256 % 16) + 16 * (v as int / 16 % 16)
            + v as int % 16,
{
    assert(v == 4096 * (v / 4096) + 256 * ((v / 256) % 16) + 16 * ((v / 16) % 16) + v % 16)
        by (bit_vector);
}

} // verus!
