//! Building text: characters collected in a vector, then turned into a
//! `String` once.

use vstd::prelude::*;
use vstd::string::StringSliceAdditionalSpecFns;
use vstd::utf8::{
    decode_utf8, encode_utf8_decode_utf8, encode_utf8_valid_utf8, is_char_boundary,
    is_char_boundary_iff_not_is_continuation_byte, is_char_boundary_start_end_of_seq, valid_utf8_split,
};

verus! {

/// The character of the decimal digit `d`.
pub open spec fn digit_char(d: nat) -> char {
    ((d + 48) as u8) as char
}

/// The decimal digits of `n`, most significant first, with no leading zero.
pub open spec fn decimal(n: nat) -> Seq<char>
    decreases n,
{
    if n < 10 {
        seq![digit_char(n)]
    } else {
        decimal(n / 10).push(digit_char(n % 10))
    }
}

/// `n` in decimal, with a `-` in front when it is negative.
pub open spec fn signed_decimal(n: int) -> Seq<char> {
    if n < 0 {
        seq!['-'] + decimal((-n) as nat)
    } else {
        decimal(n as nat)
    }
}

/// `count` copies of `c`.
pub open spec fn repeat(c: char, count: nat) -> Seq<char> {
    Seq::new(count, |i: int| c)
}

/// `n` in decimal, padded on the left with zeros to at least `width` digits.
pub open spec fn zero_padded(n: nat, width: nat) -> Seq<char> {
    let digits = decimal(n);
    if digits.len() < width {
        repeat('0', (width - digits.len()) as nat) + digits
    } else {
        digits
    }
}

/// A number has at least one digit, and at most one more than a number a
/// tenth of its size.
pub proof fn lemma_decimal_len(n: nat)
    ensures
        decimal(n).len() >= 1,
        n < 10 ==> decimal(n).len() == 1,
        n < 100 ==> decimal(n).len() <= 2,
        n < 1000 ==> decimal(n).len() <= 3,
        n < 10000 ==> decimal(n).len() <= 4,
    decreases n,
{
    if n >= 10 {
        lemma_decimal_len(n / 10);
    }
}

/// The character of the decimal digit `d`.
pub fn digit(d: u64) -> (c: char)
    requires
        d < 10,
    ensures
        c == digit_char(d as nat),
{
    let b: u8 = (d as u8) + 48;
    b as char
}

/// Appends the characters of `s` to `out`.
pub fn push_str(out: &mut Vec<char>, s: &str)
    ensures
        final(out)@ == old(out)@ + s@,
{
    let ghost start = out@;
    for c in it: s.chars()
        invariant
            it.seq() == s@,
            out@ == start + it.seq().take(it.index() as int),
    {
        out.push(c);
    }
    assert(s@.take(s@.len() as int) =~= s@);
}

/// Appends the characters of `s` to `out`.
pub fn push_string(out: &mut Vec<char>, s: &String)
    ensures
        final(out)@ == old(out)@ + s@,
{
    push_str(out, s.as_str());
}

/// Appends `n` in decimal to `out`.
pub fn push_u64(out: &mut Vec<char>, n: u64)
    ensures
        final(out)@ == old(out)@ + decimal(n as nat),
    decreases n,
{
    if n >= 10 {
        push_u64(out, n / 10);
    }
    let c = digit(n % 10);
    out.push(c);
}

/// Appends `n` in decimal to `out`.
pub fn push_usize(out: &mut Vec<char>, n: usize)
    ensures
        final(out)@ == old(out)@ + decimal(n as nat),
{
    push_u64(out, n as u64);
}

/// Appends `n` in decimal, with a `-` in front when it is negative.
pub fn push_i64(out: &mut Vec<char>, n: i64)
    requires
        n > i64::MIN,
    ensures
        final(out)@ == old(out)@ + signed_decimal(n as int),
{
    if n < 0 {
        out.push('-');
        let m: i64 = -n;
        push_u64(out, m as u64);
    } else {
        push_u64(out, n as u64);
    }
}

/// Appends `n` in decimal, padded on the left with zeros to four digits.
pub fn push_u16_four_digits(out: &mut Vec<char>, n: u16)
    ensures
        final(out)@ == old(out)@ + zero_padded(n as nat, 4),
{
    proof {
        lemma_decimal_len(n as nat);
    }
    let ghost start = out@;
    let pad: usize = if n < 10 {
        3
    } else if n < 100 {
        2
    } else if n < 1000 {
        1
    } else {
        0
    };
    assert(pad == 0 ==> decimal(n as nat).len() >= 4) by {
        if n >= 1000 {
            lemma_decimal_len_at_least_four(n as nat);
        }
    }
    assert(n < 10 ==> decimal(n as nat).len() == 1);
    assert(10 <= n < 100 ==> decimal(n as nat).len() == 2) by {
        if 10 <= n < 100 {
            lemma_decimal_len((n / 10) as nat);
        }
    }
    assert(100 <= n < 1000 ==> decimal(n as nat).len() == 3) by {
        if 100 <= n < 1000 {
            lemma_decimal_len((n / 10) as nat);
            lemma_decimal_len((n / 100) as nat);
            assert(decimal((n / 10) as nat).len() == 2) by {
                lemma_decimal_len((n / 100) as nat);
            }
        }
    }
    let mut i: usize = 0;
    while i < pad
        invariant
            i <= pad,
            out@ == start + repeat('0', i as nat),
        decreases pad - i,
    {
        out.push('0');
        i = i + 1;
        assert(repeat('0', i as nat) =~= repeat('0', (i - 1) as nat).push('0'));
    }
    push_u64(out, n as u64);
    assert(zero_padded(n as nat, 4) =~= repeat('0', pad as nat) + decimal(n as nat));
}

proof fn lemma_decimal_len_at_least_four(n: nat)
    requires
        n >= 1000,
    ensures
        decimal(n).len() >= 4,
    decreases n,
{
    if n >= 10 {
        if n / 10 >= 1000 {
            lemma_decimal_len_at_least_four(n / 10);
        } else {
            lemma_decimal_len_at_least_three(n / 10);
        }
    }
}

proof fn lemma_decimal_len_at_least_three(n: nat)
    requires
        n >= 100,
    ensures
        decimal(n).len() >= 3,
    decreases n,
{
    if n / 10 >= 100 {
        lemma_decimal_len_at_least_three(n / 10);
    } else {
        lemma_decimal_len_at_least_two(n / 10);
    }
}

proof fn lemma_decimal_len_at_least_two(n: nat)
    requires
        n >= 10,
    ensures
        decimal(n).len() >= 2,
    decreases n,
{
    lemma_decimal_len(n / 10);
}

// ---------------------------------------------------------------------------
// Reading text.
// ---------------------------------------------------------------------------

/// The text between byte offsets `start` and `end` of the UTF-8 bytes `b`,
/// or nothing where the two do not delimit characters of `b`.
pub open spec fn spec_slice(b: Seq<u8>, start: int, end: int) -> Seq<char> {
    if 0 <= start <= end <= b.len() && is_char_boundary(b, start) && is_char_boundary(b, end) {
        decode_utf8(b.subrange(start, end))
    } else {
        Seq::empty()
    }
}

/// The text of `source` between byte offsets `start` and `end`, or the
/// empty string where the two do not delimit characters of it.
pub fn slice(source: &str, start: usize, end: usize) -> (s: String)
    ensures
        s@ == spec_slice(source.spec_bytes(), start as int, end as int),
{
    let ghost b = source.spec_bytes();
    if start <= end && source.is_char_boundary(start) && source.is_char_boundary(
        end,
    ) {
        proof {
            encode_utf8_valid_utf8(source@);
        }
        let (head, _) = source.split_at(end);
        proof {
            let hb = head.spec_bytes();
            valid_utf8_split(b, end as int);
            is_char_boundary_start_end_of_seq(hb);
            if 0 < start < end {
                is_char_boundary_iff_not_is_continuation_byte(b, start as int);
                is_char_boundary_iff_not_is_continuation_byte(hb, start as int);
            }
        }
        let (_, piece) = head.split_at(start);
        proof {
            encode_utf8_decode_utf8(piece@);
            assert(piece.spec_bytes() =~= b.subrange(start as int, end as int));
        }
        let r = piece.to_owned();
        assert(r@ == piece@);
        assert(piece@ == decode_utf8(piece.spec_bytes()));
        assert(is_char_boundary(b, start as int) && is_char_boundary(b, end as int));
        r
    } else {
        let r = String::new();
        assert(r@ =~= Seq::<char>::empty());
        r
    }
}

/// Whether `c` is an ASCII decimal digit.
pub open spec fn is_digit(c: char) -> bool {
    '0' <= c <= '9'
}

/// The value of the decimal digits `s`, most significant first.
pub open spec fn digits_value(s: Seq<char>) -> nat
    decreases s.len(),
{
    if s.len() == 0 {
        0
    } else {
        digits_value(s.drop_last()) * 10 + ((s.last() as u32) - 48) as nat
    }
}

/// Whether every character of `s` is a decimal digit.
pub open spec fn all_digits(s: Seq<char>) -> bool {
    forall|i: int| 0 <= i < s.len() ==> is_digit(#[trigger] s[i])
}

/// The digits of an unsigned number as written: without its `+`, if it has
/// one.
pub open spec fn unsigned_digits(s: Seq<char>) -> Seq<char> {
    if s.len() > 0 && s[0] == '+' {
        s.drop_first()
    } else {
        s
    }
}

/// `s` read as an unsigned 64-bit integer the way Rust's `str::parse`
/// reads one: an optional `+`, then one or more decimal digits whose value
/// fits.
pub open spec fn spec_parse_u64(s: Seq<char>) -> Option<u64> {
    let digits = unsigned_digits(s);
    if digits.len() > 0 && all_digits(digits) && digits_value(digits) <= u64::MAX {
        Some(digits_value(digits) as u64)
    } else {
        None
    }
}

/// Reads `s` as an unsigned 64-bit integer: an optional `+`, then decimal
/// digits whose value fits.
pub fn parse_u64(s: &str) -> (r: Option<u64>)
    ensures
        r == spec_parse_u64(s@),
{
    let ghost chars = s@;
    let mut all: Vec<char> = Vec::new();
    for c in it: s.chars()
        invariant
            it.seq() == chars,
            all@ == chars.take(it.index() as int),
    {
        all.push(c);
    }
    assert(all@ =~= chars);
    let first: usize = if all.len() > 0 && all[0] == '+' {
        1
    } else {
        0
    };
    let ghost digits = all@.subrange(first as int, all@.len() as int);
    assert(digits =~= unsigned_digits(chars));
    if first >= all.len() {
        assert(digits.len() == 0);
        return None;
    }
    // `value` is the value of the digits read so far, unless `overflow`.
    let mut value: u64 = 0;
    let mut overflow = false;
    let mut k = first;
    while k < all.len()
        invariant
            first <= k <= all@.len(),
            chars == s@,
            digits == all@.subrange(first as int, all@.len() as int),
            digits == unsigned_digits(chars),
            forall|i: int| first <= i < k ==> is_digit(#[trigger] all@[i]),
            !overflow ==> value == digits_value(all@.subrange(first as int, k as int)),
            overflow ==> digits_value(all@.subrange(first as int, k as int)) > u64::MAX,
        decreases all@.len() - k,
    {
        let c = all[k];
        if c < '0' || c > '9' {
            assert(!is_digit(digits[k - first]));
            return None;
        }
        let d = (c as u32 - 48) as u64;
        let ghost prefix = all@.subrange(first as int, k as int);
        let ghost next = all@.subrange(first as int, k + 1);
        assert(next.drop_last() =~= prefix);
        if !overflow {
            if value > (u64::MAX - d) / 10 {
                overflow = true;
                assert(digits_value(next) > u64::MAX) by (nonlinear_arith)
                    requires
                        value > (u64::MAX - d) / 10,
                        digits_value(next) == value * 10 + d,
                        d <= 9,
                ;
            } else {
                assert(value * 10 + d <= u64::MAX) by (nonlinear_arith)
                    requires
                        value <= (u64::MAX - d) / 10,
                        d <= 9,
                ;
                value = value * 10 + d;
            }
        } else {
            assert(digits_value(next) >= digits_value(prefix)) by (nonlinear_arith)
                requires
                    digits_value(next) == digits_value(prefix) * 10 + d,
            ;
        }
        k = k + 1;
    }
    assert(all@.subrange(first as int, all@.len() as int) =~= digits);
    if overflow {
        None
    } else {
        Some(value)
    }
}

/// The `String` holding exactly `chars`.
///
/// Calls `String::from_iter`, which collects the characters in order; the
/// contract claims that the result views as `chars`.
#[verifier::external_body]
pub(crate) fn into_string(chars: Vec<char>) -> (s: String)
    ensures
        s@ == chars@,
{
    String::from_iter(chars)
}

} // verus!
