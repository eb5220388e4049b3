//! Decimal integers: reading them from text as `i64::from_str` does, and
//! writing them as `Display` does.
use vstd::prelude::*;
use crate::text::push_one;

verus! {

/// An ASCII decimal digit.
pub open spec fn is_digit(c: char) -> bool {
    '0' <= c <= '9'
}

/// The value of an ASCII decimal digit.
pub open spec fn digit_value(c: char) -> int {
    (c as int) - 48
}

/// The character of a decimal digit `d < 10`.
pub open spec fn digit_char(d: int) -> char {
    (d + 48) as char
}

/// The value of a string of decimal digits, most significant first.
pub open spec fn digits_value(s: Seq<char>) -> int
    decreases s.len(),
{
    if s.len() == 0 {
        0
    } else {
        digits_value(s.drop_last()) * 10 + digit_value(s.last())
    }
}

pub open spec fn all_digits(s: Seq<char>) -> bool {
    forall|i: int| 0 <= i < s.len() ==> is_digit(#[trigger] s[i])
}

/// The integer that `s` spells: an optional `+` or `-`, then one or more
/// decimal digits, nothing else.
pub open spec fn signed_value(s: Seq<char>) -> Option<int> {
    let neg = s.len() > 0 && s[0] == '-';
    let body = if s.len() > 0 && (s[0] == '-' || s[0] == '+') {
        s.drop_first()
    } else {
        s
    };
    if body.len() > 0 && all_digits(body) {
        Some(
            if neg {
                -digits_value(body)
            } else {
                digits_value(body)
            },
        )
    } else {
        None
    }
}

/// What `s.parse::<i64>()` gives: the value that `s` spells, where it is
/// an `i64`.
pub open spec fn parse_i64_spec(s: Seq<char>) -> Option<i64> {
    match signed_value(s) {
        Some(v) => if i64::MIN <= v <= i64::MAX {
            Some(v as i64)
        } else {
            None
        },
        None => None,
    }
}

/// The decimal digits of `n`, without leading zeros.
pub open spec fn nat_decimal(n: nat) -> Seq<char>
    decreases n,
{
    if n < 10 {
        seq![digit_char(n as int)]
    } else {
        nat_decimal(n / 10).push(digit_char((n % 10) as int))
    }
}

/// How `Display` writes the integer `n`: a `-` for negative numbers, then
/// the decimal digits of its magnitude.
pub open spec fn int_decimal(n: int) -> Seq<char> {
    if n < 0 {
        seq!['-'] + nat_decimal((-n) as nat)
    } else {
        nat_decimal(n as nat)
    }
}

proof fn lemma_digits_value_monotone(s: Seq<char>, k: int)
    requires
        0 <= k <= s.len(),
        all_digits(s),
    ensures
        digits_value(s.take(k)) <= digits_value(s),
        0 <= digits_value(s),
    decreases s.len(),
{
    if s.len() > 0 {
        assert(all_digits(s.drop_last())) by {
            assert forall|i: int| 0 <= i < s.drop_last().len() implies is_digit(
                #[trigger] s.drop_last()[i],
            ) by {
                assert(s.drop_last()[i] == s[i]);
            }
        }
        assert(is_digit(s[s.len() - 1]));
        if k == s.len() {
            assert(s.take(k) =~= s);
            lemma_digits_value_monotone(s.drop_last(), 0);
        } else {
            lemma_digits_value_monotone(s.drop_last(), k);
            assert(s.drop_last().take(k) =~= s.take(k));
        }
    }
}

/// Reads an `i64` as `str::parse::<i64>` does.
pub fn parse_i64(s: &[char]) -> (r: Option<i64>)
    ensures
        r == parse_i64_spec(s@),
{
    let n = s.len();
    if n == 0 {
        return None;
    }
    let neg = s[0] == '-';
    let start: usize = if s[0] == '-' || s[0] == '+' {
        1
    } else {
        0
    };
    let ghost body = if s@.len() > 0 && (s@[0] == '-' || s@[0] == '+') {
        s@.drop_first()
    } else {
        s@
    };
    assert(body =~= s@.subrange(start as int, n as int));
    if start == n {
        return None;
    }
    let mut acc: u64 = 0;
    let mut i: usize = start;
    assert(body.take(0) =~= Seq::<char>::empty());
    while i < n
        invariant
            start <= i <= n,
            n == s@.len(),
            start < n,
            body == s@.subrange(start as int, n as int),
            body == (if s@.len() > 0 && (s@[0] == '-' || s@[0] == '+') {
                s@.drop_first()
            } else {
                s@
            }),
            neg == (s@[0] == '-'),
            acc as int == digits_value(body.take(i - start)),
            acc <= 0x8000_0000_0000_0000u64,
            all_digits(body.take(i - start)),
        decreases n - i,
    {
        let c = s[i];
        let ghost k = i - start;
        assert(body[k] == c);
        if !('0' <= c && c <= '9') {
            assert(!all_digits(body));
            return None;
        }
        let d: u64 = (c as u64) - 48;
        assert(body.take(k + 1).drop_last() =~= body.take(k));
        assert(body.take(k + 1).last() == c);
        assert(all_digits(body.take(k + 1))) by {
            assert forall|j: int| 0 <= j < body.take(k + 1).len() implies is_digit(
                #[trigger] body.take(k + 1)[j],
            ) by {
                if j < k {
                    assert(body.take(k + 1)[j] == body.take(k)[j]);
                }
            }
        }
        assert(digits_value(body.take(k + 1)) == acc * 10 + d);
        if acc > (0x8000_0000_0000_0000u64 - d) / 10 {
            proof {
                if all_digits(body) {
                    lemma_digits_value_monotone(body, k + 1);
                }
            }
            return None;
        }
        acc = acc * 10 + d;
        i += 1;
    }
    assert(body.take(n - start) =~= body);
    if neg {
        if acc == 0x8000_0000_0000_0000u64 {
            Some(i64::MIN)
        } else {
            Some(-(acc as i64))
        }
    } else {
        if acc > 0x7fff_ffff_ffff_ffffu64 {
            None
        } else {
            Some(acc as i64)
        }
    }
}

/// The character of the decimal digit `d`.
fn digit_of(d: u64) -> (c: char)
    requires
        d < 10,
    ensures
        c == digit_char(d as int),
{
    ((d as u8) + 48) as char
}

fn push_nat_decimal(out: &mut String, n: u64)
    ensures
        final(out)@ == old(out)@ + nat_decimal(n as nat),
    decreases n,
{
    if n >= 10 {
        push_nat_decimal(out, n / 10);
    }
    let ghost mid = out@;
    push_one(out, digit_of(n % 10));
    proof {
        if n >= 10 {
            assert(out@ =~= old(out)@ + nat_decimal(n as nat));
        } else {
            assert(out@ =~= old(out)@ + nat_decimal(n as nat));
        }
    }
}

/// Appends the decimal form of `n` to `out`.
pub fn push_decimal(out: &mut String, n: i64)
    ensures
        final(out)@ == old(out)@ + int_decimal(n as int),
{
    if n < 0 {
        push_one(out, '-');
        let m: u64 = if n == i64::MIN {
            0x8000_0000_0000_0000u64
        } else {
            (-n) as u64
        };
        push_nat_decimal(out, m);
        assert(out@ =~= old(out)@ + int_decimal(n as int));
    } else {
        push_nat_decimal(out, n as u64);
    }
}

/// Appends the decimal form of `n` to `out`.
pub fn push_count(out: &mut String, n: usize)
    ensures
        final(out)@ == old(out)@ + int_decimal(n as int),
{
    push_nat_decimal(out, n as u64);
}

/// The decimal form of `n`, as `n.to_string()` gives it.
pub fn decimal(n: i64) -> (s: String)
    ensures
        s@ == int_decimal(n as int),
{
    let mut s = String::new();
    push_decimal(&mut s, n);
    assert(s@ =~= int_decimal(n as int));
    s
}

pub proof fn lemma_nat_decimal_digits(n: nat)
    ensures
        nat_decimal(n).len() > 0,
        all_digits(nat_decimal(n)),
        digits_value(nat_decimal(n)) == n,
    decreases n,
{
    if n >= 10 {
        lemma_nat_decimal_digits(n / 10);
        let s = nat_decimal(n);
        assert(s.drop_last() =~= nat_decimal(n / 10));
        assert forall|i: int| 0 <= i < s.len() implies is_digit(#[trigger] s[i]) by {
            if i < s.len() - 1 {
                assert(s[i] == nat_decimal(n / 10)[i]);
            }
        }
        assert(digits_value(s) == digits_value(s.drop_last()) * 10 + digit_value(s.last()));
        assert(digit_value(digit_char((n % 10) as int)) == n % 10);
    } else {
        let s = nat_decimal(n);
        assert(s.drop_last() =~= Seq::<char>::empty());
        assert(digits_value(s.drop_last()) == 0);
        assert(digit_value(digit_char(n as int)) == n);
    }
}

/// Reading back what `Display` writes gives the number again: for every
/// `i64`, parsing its decimal form yields it.
pub proof fn lemma_decimal_round_trip(n: i64)
    ensures
        parse_i64_spec(int_decimal(n as int)) == Some(n),
{
    if n < 0 {
        let m = (-n) as nat;
        lemma_nat_decimal_digits(m);
        let s = int_decimal(n as int);
        assert(s.drop_first() =~= nat_decimal(m));
    } else {
        lemma_nat_decimal_digits(n as nat);
        let s = int_decimal(n as int);
        assert(is_digit(s[0]));
    }
}

} // verus!

verus! {

/// The decimal form of an integer is not empty, and holds only digits
/// after a possible leading `-`.
pub proof fn lemma_decimal_shape(n: int)
    ensures
        int_decimal(n).len() > 0,
        forall|i: int|
            0 <= i < int_decimal(n).len() ==> is_digit(#[trigger] int_decimal(n)[i]) || (i == 0
                && int_decimal(n)[i] == '-'),
{
    if n < 0 {
        lemma_nat_decimal_digits((-n) as nat);
        let s = int_decimal(n);
        assert forall|i: int| 0 <= i < s.len() implies is_digit(#[trigger] s[i]) || (i == 0
            && s[i] == '-') by {
            if i > 0 {
                assert(s[i] == nat_decimal((-n) as nat)[i - 1]);
            }
        }
    } else {
        lemma_nat_decimal_digits(n as nat);
    }
}

} // verus!

verus! {

/// A leading zero does not change the value of a string of digits.
proof fn lemma_leading_zero(s: Seq<char>)
    ensures
        digits_value(seq!['0'] + s) == digits_value(s),
    decreases s.len(),
{
    let t = seq!['0'] + s;
    if s.len() == 0 {
        assert(t.drop_last() =~= Seq::<char>::empty());
        assert(digits_value(t.drop_last()) == 0);
        assert(digit_value('0') == 0);
        assert(t =~= seq!['0']);
        assert(t.last() == '0');
    } else {
        lemma_leading_zero(s.drop_last());
        assert(t.drop_last() =~= seq!['0'] + s.drop_last());
        assert(t.last() == s.last());
        assert(digits_value(t) == digits_value(t.drop_last()) * 10 + digit_value(t.last()));
    }
}

/// A number read with a leading `+` or leading zeros is the same number:
/// for every `i64` `n` that is not negative, `+n` and `0n` read as `n`,
/// and for every negative one, `-0|n|` reads as `n`.
pub proof fn law_sign_and_zeros(n: i64)
    ensures
        n >= 0 ==> parse_i64_spec(seq!['+'] + int_decimal(n as int)) == Some(n),
        n >= 0 ==> parse_i64_spec(seq!['0'] + int_decimal(n as int)) == Some(n),
        n < 0 ==> parse_i64_spec(seq!['-', '0'] + nat_decimal((-n) as nat)) == Some(n),
{
    if n >= 0 {
        let d = nat_decimal(n as nat);
        lemma_nat_decimal_digits(n as nat);
        assert((seq!['+'] + d).drop_first() =~= d);
        lemma_leading_zero(d);
        let z = seq!['0'] + d;
        assert(all_digits(z)) by {
            assert forall|i: int| 0 <= i < z.len() implies is_digit(#[trigger] z[i]) by {
                if i > 0 {
                    assert(z[i] == d[i - 1]);
                }
            }
        }
        assert(is_digit(z[0]));
    } else {
        let m = (-n) as nat;
        let d = nat_decimal(m);
        lemma_nat_decimal_digits(m);
        lemma_leading_zero(d);
        let s = seq!['-', '0'] + d;
        let z = seq!['0'] + d;
        assert(s.drop_first() =~= z);
        assert(all_digits(z)) by {
            assert forall|i: int| 0 <= i < z.len() implies is_digit(#[trigger] z[i]) by {
                if i > 0 {
                    assert(z[i] == d[i - 1]);
                }
            }
        }
    }
}

} // verus!
