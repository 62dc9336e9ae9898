//! Decimal text of integers, as held in expiry records.
use vstd::prelude::*;

verus! {

/// Bytes `'0'` to `'9'`.
pub open spec fn is_digit(b: u8) -> bool {
    48 <= b && b <= 57
}

pub open spec fn all_digits(s: Seq<u8>) -> bool {
    forall|i: int| 0 <= i < s.len() ==> is_digit(#[trigger] s[i])
}

/// The decimal digits of `n`, most significant first, with no leading zero.
pub open spec fn digits_of(n: nat) -> Seq<u8>
    decreases n,
{
    if n < 10 {
        seq![(48 + n) as u8]
    } else {
        digits_of(n / 10).push((48 + n % 10) as u8)
    }
}

/// The number that a string of digits denotes.
pub open spec fn value_of(s: Seq<u8>) -> nat
    decreases s.len(),
{
    if s.len() == 0 {
        0
    } else {
        10 * value_of(s.drop_last()) + (s.last() - 48) as nat
    }
}

/// The text of a signed integer: a minus sign for a negative one, then its digits.
pub open spec fn signed_text(t: int) -> Seq<u8> {
    if t < 0 {
        seq![45u8] + digits_of((-t) as nat)
    } else {
        digits_of(t as nat)
    }
}

/// The integer that `s` denotes under the grammar: an optional `-` or `+`,
/// then one or more decimal digits.
pub open spec fn signed_value(s: Seq<u8>) -> Option<int> {
    if s.len() > 0 && (s[0] == 45 || s[0] == 43) {
        let body = s.subrange(1, s.len() as int);
        if body.len() > 0 && all_digits(body) {
            if s[0] == 45 {
                Some(-value_of(body))
            } else {
                Some(value_of(body) as int)
            }
        } else {
            None
        }
    } else if s.len() > 0 && all_digits(s) {
        Some(value_of(s) as int)
    } else {
        None
    }
}

/// What an expiry record parses to: the integer it denotes, where that fits in `i64`.
pub open spec fn parsed_timestamp(s: Seq<u8>) -> Option<i64> {
    match signed_value(s) {
        Some(v) => if i64::MIN <= v <= i64::MAX {
            Some(v as i64)
        } else {
            None
        },
        None => None,
    }
}

pub proof fn lemma_digits_of(n: nat)
    ensures
        digits_of(n).len() >= 1,
        all_digits(digits_of(n)),
        value_of(digits_of(n)) == n,
    decreases n,
{
    if n >= 10 {
        lemma_digits_of(n / 10);
        let d = digits_of(n);
        assert(d.drop_last() =~= digits_of(n / 10));
        assert(d.last() == (48 + n % 10) as u8);
        assert(value_of(d) == 10 * (n / 10) + n % 10);
    } else {
        let d = digits_of(n);
        assert(d.drop_last() =~= Seq::<u8>::empty());
        assert(value_of(d) == 10 * value_of(Seq::<u8>::empty()) + (d.last() - 48) as nat);
    }
}

/// Parsing the text of an `i64` gives it back.
pub proof fn lemma_timestamp_round_trip(t: i64)
    ensures
        parsed_timestamp(signed_text(t as int)) == Some(t),
{
    let s = signed_text(t as int);
    if t < 0 {
        let m = (-t) as nat;
        lemma_digits_of(m);
        assert(s.subrange(1, s.len() as int) =~= digits_of(m));
    } else {
        lemma_digits_of(t as nat);
        assert(is_digit(s[0]));
    }
}

/// Writes the decimal digits of `n`.
pub fn format_u64(n: u64) -> (r: Vec<u8>)
    ensures
        r@ == digits_of(n as nat),
    decreases n,
{
    if n < 10 {
        let d: u8 = 48u8 + n as u8;
        vec![d]
    } else {
        let mut v = format_u64(n / 10);
        let d: u8 = 48u8 + (n % 10) as u8;
        v.push(d);
        v
    }
}

/// Writes the text of a timestamp: `-` for a negative one, then its digits.
pub fn format_timestamp(t: i64) -> (r: Vec<u8>)
    ensures
        r@ == signed_text(t as int),
{
    if t < 0 {
        let m: u64 = (-(t as i128)) as u64;
        let mut digits = format_u64(m);
        let mut v: Vec<u8> = vec![45u8];
        v.append(&mut digits);
        assert(v@ =~= signed_text(t as int));
        v
    } else {
        format_u64(t as u64)
    }
}

/// One more than the largest magnitude an `i64` can have.
pub open spec fn cap() -> nat {
    9223372036854775809
}

pub open spec fn saturated(v: nat) -> nat {
    if v < cap() {
        v
    } else {
        cap()
    }
}

/// Reads an expiry record: an optional sign, then one or more digits, whose
/// value fits in `i64`. Anything else gives `None`.
pub fn parse_timestamp(s: &[u8]) -> (r: Option<i64>)
    ensures
        r == parsed_timestamp(s@),
{
    let n = s.len();
    if n == 0 {
        return None;
    }
    let signed = s[0] == 45u8 || s[0] == 43u8;
    let negative = s[0] == 45u8;
    let start: usize = if signed { 1 } else { 0 };
    if start == n {
        return None;
    }
    let mut acc: u128 = 0;
    let mut i: usize = start;
    while i < n
        invariant
            n == s@.len(),
            start <= i <= n,
            start == (if signed { 1usize } else { 0usize }),
            signed == (s@[0] == 45 || s@[0] == 43),
            all_digits(s@.subrange(start as int, i as int)),
            acc == saturated(value_of(s@.subrange(start as int, i as int))),
        decreases n - i,
    {
        let b = s[i];
        let ghost prev = s@.subrange(start as int, i as int);
        let ghost next = s@.subrange(start as int, i + 1);
        if b < 48u8 || b > 57u8 {
            proof {
                let body = s@.subrange(start as int, n as int);
                assert(body[i - start] == b);
                if signed {
                    assert(body =~= s@.subrange(1, s@.len() as int));
                } else {
                    assert(body =~= s@);
                }
            }
            return None;
        }
        assert(next.drop_last() =~= prev);
        assert(value_of(next) == 10 * value_of(prev) + (b - 48) as nat);
        let step = acc * 10 + (b - 48u8) as u128;
        acc = if step > 9223372036854775809u128 {
            9223372036854775809u128
        } else {
            step
        };
        i = i + 1;
    }
    proof {
        let body = s@.subrange(start as int, n as int);
        if signed {
            assert(body =~= s@.subrange(1, s@.len() as int));
        } else {
            assert(body =~= s@);
        }
    }
    if negative {
        if acc <= 9223372036854775808u128 {
            Some((-(acc as i128)) as i64)
        } else {
            None
        }
    } else if acc <= 9223372036854775807u128 {
        Some(acc as i64)
    } else {
        None
    }
}

} // verus!
