//! Canonical decimal numerals over character sequences.
//!
//! A canonical numeral has no sign, no whitespace and no leading zero, so
//! every natural number has exactly one numeral and every numeral denotes
//! exactly one natural number. The spec side defines the numeral of a number
//! (`spec_decimal`) and the value of a digit string (`dec_value`); the exec
//! side renders (`append_decimal`) and parses (`parse_decimal`) against those
//! definitions.

use vstd::prelude::*;

verus! {

/// Numeric value of an ASCII digit character; any other character maps to -1.
pub open spec fn digit_value(c: char) -> int {
    if c == '0' {
        0
    } else if c == '1' {
        1
    } else if c == '2' {
        2
    } else if c == '3' {
        3
    } else if c == '4' {
        4
    } else if c == '5' {
        5
    } else if c == '6' {
        6
    } else if c == '7' {
        7
    } else if c == '8' {
        8
    } else if c == '9' {
        9
    } else {
        -1
    }
}

/// Is `c` one of the ten ASCII digits?
pub open spec fn is_digit(c: char) -> bool {
    digit_value(c) >= 0
}

/// The digit character for a value `d` with `0 <= d < 10`.
pub open spec fn digit_char(d: int) -> char {
    if d == 0 {
        '0'
    } else if d == 1 {
        '1'
    } else if d == 2 {
        '2'
    } else if d == 3 {
        '3'
    } else if d == 4 {
        '4'
    } else if d == 5 {
        '5'
    } else if d == 6 {
        '6'
    } else if d == 7 {
        '7'
    } else if d == 8 {
        '8'
    } else {
        '9'
    }
}

/// The canonical decimal numeral of `n`, most significant digit first.
pub open spec fn spec_decimal(n: nat) -> Seq<char>
    decreases n,
{
    if n < 10 {
        seq![digit_char(n as int)]
    } else {
        spec_decimal(n / 10) + seq![digit_char((n % 10) as int)]
    }
}

/// Every character of `s` is an ASCII digit.
pub open spec fn all_digits(s: Seq<char>) -> bool {
    forall|i: int| 0 <= i < s.len() ==> is_digit(#[trigger] s[i])
}

/// The value denoted by a digit string (0 for the empty string).
pub open spec fn dec_value(s: Seq<char>) -> int
    decreases s.len(),
{
    if s.len() == 0 {
        0
    } else {
        dec_value(s.drop_last()) * 10 + digit_value(s.last())
    }
}

/// `s` is a canonical decimal numeral: nonempty, digits only, and no leading
/// zero unless `s` is exactly "0".
pub open spec fn is_canonical_decimal(s: Seq<char>) -> bool {
    s.len() > 0 && all_digits(s) && (s.len() == 1 || s[0] != '0')
}

/// Ten to the power `k`.
pub open spec fn ten_pow(k: nat) -> int
    decreases k,
{
    if k == 0 {
        1
    } else {
        10 * ten_pow((k - 1) as nat)
    }
}

proof fn lemma_ten_pow_pos(k: nat)
    ensures
        ten_pow(k) >= 1,
    decreases k,
{
    if k > 0 {
        lemma_ten_pow_pos((k - 1) as nat);
    }
}

proof fn lemma_ten_pow_mono(a: nat, b: nat)
    requires
        a <= b,
    ensures
        ten_pow(a) <= ten_pow(b),
    decreases b,
{
    if a < b {
        lemma_ten_pow_mono(a, (b - 1) as nat);
        lemma_ten_pow_pos((b - 1) as nat);
    }
}

/// `digit_char` and `digit_value` invert one another on digit values.
proof fn lemma_digit_char_value(d: int)
    requires
        0 <= d < 10,
    ensures
        is_digit(digit_char(d)),
        digit_value(digit_char(d)) == d,
        d >= 1 ==> digit_char(d) != '0',
{
    if d == 0 {
        assert(digit_value(digit_char(0)) == 0);
    } else if d == 1 {
        assert(digit_value(digit_char(1)) == 1);
    } else if d == 2 {
        assert(digit_value(digit_char(2)) == 2);
    } else if d == 3 {
        assert(digit_value(digit_char(3)) == 3);
    } else if d == 4 {
        assert(digit_value(digit_char(4)) == 4);
    } else if d == 5 {
        assert(digit_value(digit_char(5)) == 5);
    } else if d == 6 {
        assert(digit_value(digit_char(6)) == 6);
    } else if d == 7 {
        assert(digit_value(digit_char(7)) == 7);
    } else if d == 8 {
        assert(digit_value(digit_char(8)) == 8);
    } else {
        assert(digit_value(digit_char(9)) == 9);
    }
}

/// `digit_char` and `digit_value` invert one another on digit characters.
proof fn lemma_digit_value_char(c: char)
    requires
        is_digit(c),
    ensures
        0 <= digit_value(c) < 10,
        digit_char(digit_value(c)) == c,
{
    if c == '0' {
    } else if c == '1' {
    } else if c == '2' {
    } else if c == '3' {
    } else if c == '4' {
    } else if c == '5' {
    } else if c == '6' {
    } else if c == '7' {
    } else if c == '8' {
    } else if c == '9' {
    } else {
        assert(digit_value(c) == -1);
    }
}

/// The numeral of every number is canonical and denotes that number; a
/// positive number's numeral does not start with '0'.
pub proof fn lemma_spec_decimal_canonical(n: nat)
    ensures
        is_canonical_decimal(spec_decimal(n)),
        dec_value(spec_decimal(n)) == n,
        n >= 1 ==> spec_decimal(n)[0] != '0',
    decreases n,
{
    if n < 10 {
        let s = spec_decimal(n);
        lemma_digit_char_value(n as int);
        assert(s.drop_last() =~= Seq::<char>::empty());
        assert(s.last() == digit_char(n as int));
        assert(dec_value(s) == dec_value(Seq::<char>::empty()) * 10 + digit_value(digit_char(n as int)));
    } else {
        lemma_spec_decimal_canonical(n / 10);
        lemma_digit_char_value((n % 10) as int);
        let s0 = spec_decimal(n / 10);
        let d = digit_char((n % 10) as int);
        let s = spec_decimal(n);
        assert(n / 10 >= 1) by (nonlinear_arith)
            requires
                n >= 10,
        ;
        assert(s.drop_last() =~= s0);
        assert(s.last() == d);
        assert(n / 10 * 10 + n % 10 == n) by (nonlinear_arith);
        assert(forall|i: int| 0 <= i < s.len() - 1 ==> #[trigger] s[i] == s0[i]);
    }
}

/// A digit string of length `k` denotes a value below `ten_pow(k)`.
pub proof fn lemma_dec_value_bound(s: Seq<char>)
    requires
        all_digits(s),
    ensures
        0 <= dec_value(s) < ten_pow(s.len()),
    decreases s.len(),
{
    if s.len() > 0 {
        assert(forall|i: int|
            0 <= i < s.len() - 1 ==> #[trigger] s.drop_last()[i] == s[i]);
        lemma_dec_value_bound(s.drop_last());
        assert(is_digit(s.last()));
    }
}

/// A digit string that does not start with '0' denotes at least
/// `ten_pow(len - 1)`.
proof fn lemma_canonical_lower_bound(s: Seq<char>)
    requires
        all_digits(s),
        s.len() >= 1,
        s[0] != '0',
    ensures
        dec_value(s) >= ten_pow((s.len() - 1) as nat),
    decreases s.len(),
{
    assert(is_digit(s[0]));
    if s.len() == 1 {
        lemma_digit_value_char(s[0]);
        assert(s.drop_last() =~= Seq::<char>::empty());
        assert(s.last() == s[0]);
        assert(dec_value(s) == dec_value(Seq::<char>::empty()) * 10 + digit_value(s[0]));
        assert(s[0] != '0' && is_digit(s[0]) ==> digit_value(s[0]) >= 1);
    } else {
        assert(forall|i: int|
            0 <= i < s.len() - 1 ==> #[trigger] s.drop_last()[i] == s[i]);
        lemma_canonical_lower_bound(s.drop_last());
        assert(is_digit(s.last()));
    }
}

/// Canonical numerals are exactly the images of `spec_decimal`: rendering the
/// value of a canonical numeral gives the numeral back.
pub proof fn lemma_canonical_inverse(s: Seq<char>)
    requires
        is_canonical_decimal(s),
    ensures
        dec_value(s) >= 0,
        spec_decimal(dec_value(s) as nat) == s,
    decreases s.len(),
{
    lemma_dec_value_bound(s);
    let v = dec_value(s);
    if s.len() == 1 {
        assert(is_digit(s[0]));
        lemma_digit_value_char(s[0]);
        assert(s.drop_last() =~= Seq::<char>::empty());
        assert(s.last() == s[0]);
        assert(dec_value(s) == dec_value(Seq::<char>::empty()) * 10 + digit_value(s[0]));
        assert(v == digit_value(s[0]));
        assert(spec_decimal(v as nat) =~= seq![digit_char(v)]);
        assert(digit_char(digit_value(s[0])) == s[0]);
        assert(spec_decimal(v as nat) =~= s);
    } else {
        let s0 = s.drop_last();
        assert(forall|i: int| 0 <= i < s.len() - 1 ==> #[trigger] s0[i] == s[i]);
        assert(is_canonical_decimal(s0));
        lemma_canonical_lower_bound(s0);
        lemma_ten_pow_pos((s0.len() - 1) as nat);
        lemma_canonical_inverse(s0);
        let v0 = dec_value(s0);
        let d = digit_value(s.last());
        assert(is_digit(s.last()));
        lemma_digit_value_char(s.last());
        assert(v == v0 * 10 + d);
        assert(v >= 10) by (nonlinear_arith)
            requires
                v == v0 * 10 + d,
                v0 >= 1,
                d >= 0,
        ;
        assert(v / 10 == v0 && v % 10 == d) by (nonlinear_arith)
            requires
                v == v0 * 10 + d,
                0 <= d < 10,
        ;
        assert(digit_char(digit_value(s.last())) == s.last());
        assert(spec_decimal(v as nat) =~= s0 + seq![s.last()]);
        assert(s0 + seq![s.last()] =~= s);
    }
}

/// The one-character string for a digit value.
fn digit_str(d: u32) -> (r: &'static str)
    requires
        d < 10,
    ensures
        r@ == seq![digit_char(d as int)],
{
    let r: &'static str = if d == 0 {
        "0"
    } else if d == 1 {
        "1"
    } else if d == 2 {
        "2"
    } else if d == 3 {
        "3"
    } else if d == 4 {
        "4"
    } else if d == 5 {
        "5"
    } else if d == 6 {
        "6"
    } else if d == 7 {
        "7"
    } else if d == 8 {
        "8"
    } else {
        "9"
    };
    proof {
        reveal_strlit("0");
        reveal_strlit("1");
        reveal_strlit("2");
        reveal_strlit("3");
        reveal_strlit("4");
        reveal_strlit("5");
        reveal_strlit("6");
        reveal_strlit("7");
        reveal_strlit("8");
        reveal_strlit("9");
        assert(r@ =~= seq![digit_char(d as int)]);
    }
    r
}

/// Append the canonical decimal numeral of `n` to `s`.
pub fn append_decimal(s: &mut String, n: u32)
    ensures
        final(s)@ == old(s)@ + spec_decimal(n as nat),
    decreases n,
{
    if n >= 10 {
        proof {
            assert(n / 10 < n) by (nonlinear_arith)
                requires
                    n >= 10,
            ;
        }
        append_decimal(s, n / 10);
    }
    s.append(digit_str(n % 10));
    proof {
        if n < 10 {
            assert(n % 10 == n);
            assert(s@ =~= old(s)@ + spec_decimal(n as nat));
        } else {
            assert(s@ =~= old(s)@ + spec_decimal(n as nat));
        }
    }
}

/// Digit value of `c`, when `c` is an ASCII digit.
fn char_digit(c: char) -> (r: Option<u32>)
    ensures
        is_digit(c) ==> r == Some(digit_value(c) as u32),
        !is_digit(c) ==> r is None,
{
    match c {
        '0' => Some(0),
        '1' => Some(1),
        '2' => Some(2),
        '3' => Some(3),
        '4' => Some(4),
        '5' => Some(5),
        '6' => Some(6),
        '7' => Some(7),
        '8' => Some(8),
        '9' => Some(9),
        _ => None,
    }
}

/// Parse the suffix of `s` starting at character `from` as a canonical
/// decimal numeral whose value fits in a `u32`; any other suffix is rejected.
pub fn parse_decimal(s: &str, from: usize) -> (r: Option<u32>)
    requires
        from <= s@.len(),
    ensures
        r == (if is_canonical_decimal(s@.skip(from as int)) && dec_value(
            s@.skip(from as int),
        ) <= u32::MAX {
            Some(dec_value(s@.skip(from as int)) as u32)
        } else {
            None::<u32>
        }),
{
    let ghost digits: Seq<char> = s@.skip(from as int);
    let len: usize = s.unicode_len();
    if len == from {
        return None;
    }
    if len - from > 1 && s.get_char(from) == '0' {
        return None;
    }
    if len - from > 10 {
        proof {
            if is_canonical_decimal(digits) {
                lemma_canonical_lower_bound(digits);
                lemma_ten_pow_mono(10, (digits.len() - 1) as nat);
                reveal_with_fuel(ten_pow, 11);
                assert(ten_pow(10) == 10000000000);
            }
        }
        return None;
    }
    let mut i: usize = from;
    let mut acc: u64 = 0;
    while i < len
        invariant
            from <= i <= len,
            len == s@.len(),
            1 <= len - from <= 10,
            digits == s@.skip(from as int),
            all_digits(digits.take((i - from) as int)),
            acc == dec_value(digits.take((i - from) as int)),
            0 <= acc < ten_pow((i - from) as nat),
        decreases len - i,
    {
        let c = s.get_char(i);
        let ghost k: int = i - from;
        proof {
            lemma_ten_pow_mono((i - from) as nat, 9);
            reveal_with_fuel(ten_pow, 11);
            assert(ten_pow(9) == 1000000000);
        }
        match char_digit(c) {
            None => {
                proof {
                    assert(digits[k] == c);
                    assert(!all_digits(digits));
                }
                return None;
            },
            Some(d) => {
                acc = acc * 10 + d as u64;
                proof {
                    let t = digits.take(k + 1);
                    assert(t.drop_last() =~= digits.take(k));
                    assert(t.last() == digits[k] == c);
                    assert(forall|j: int|
                        0 <= j < k ==> #[trigger] t[j] == digits.take(k)[j]);
                }
            },
        }
        i = i + 1;
    }
    proof {
        assert(digits.take((len - from) as int) =~= digits);
    }
    if acc > 0xffff_ffff {
        return None;
    }
    proof {
        assert(is_canonical_decimal(digits));
    }
    Some(acc as u32)
}

} // verus!
