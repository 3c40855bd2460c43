//! Decimal text for 128-bit unsigned balances.
use vstd::prelude::*;

verus! {

pub open spec fn is_digit(c: char) -> bool {
    '0' <= c && c <= '9'
}

pub open spec fn digit_value(c: char) -> int {
    (c as int) - ('0' as int)
}

/// The number written by a string of decimal digits, most significant first.
pub open spec fn digits_value(s: Seq<char>) -> int
    decreases s.len(),
{
    if s.len() == 0 {
        0
    } else {
        10 * digits_value(s.drop_last()) + digit_value(s.last())
    }
}

pub open spec fn all_digits(s: Seq<char>) -> bool {
    forall|i: int| 0 <= i < s.len() ==> is_digit(#[trigger] s[i])
}

/// The digits of a decimal literal: what follows an optional leading `+`.
pub open spec fn literal_digits(s: Seq<char>) -> Seq<char> {
    if s.len() > 0 && s[0] == '+' {
        s.drop_first()
    } else {
        s
    }
}

/// The value of `s` read as an unsigned 128-bit decimal literal: one or more
/// digits after an optional `+`, with a value that fits in 128 bits.
pub open spec fn decimal_u128(s: Seq<char>) -> Option<u128> {
    let d = literal_digits(s);
    if d.len() > 0 && all_digits(d) && digits_value(d) <= u128::MAX {
        Some(digits_value(d) as u128)
    } else {
        None
    }
}

proof fn lemma_digits_value_nonneg(s: Seq<char>)
    requires
        all_digits(s),
    ensures
        digits_value(s) >= 0,
    decreases s.len(),
{
    if s.len() > 0 {
        lemma_digits_value_nonneg(s.drop_last());
    }
}

/// Once the value of a prefix of digits exceeds a bound, every longer
/// prefix exceeds it too.
proof fn lemma_digits_value_grows(s: Seq<char>, n: int)
    requires
        all_digits(s),
        0 <= n <= s.len(),
    ensures
        digits_value(s.subrange(0, n)) <= digits_value(s),
    decreases s.len() - n,
{
    if n < s.len() {
        let t = s.subrange(0, n + 1);
        assert(t.drop_last() =~= s.subrange(0, n));
        lemma_digits_value_nonneg(s.subrange(0, n));
        lemma_digits_value_grows(s, n + 1);
    } else {
        assert(s.subrange(0, n) =~= s);
    }
}

/// Reads an unsigned 128-bit decimal literal; `None` where `s` is not one.
pub fn parse_u128(s: &str) -> (r: Option<u128>)
    ensures
        r == decimal_u128(s@),
{
    broadcast use vstd::string::axiom_spec_iter;

    let ghost d = literal_digits(s@);
    let mut value: u128 = 0;
    let ghost mut seen: int = 0;
    let mut any_digit = false;
    let mut first = true;
    let mut skipped = false;
    for c in it: s.chars()
        invariant
            it.seq() == s@,
            d == literal_digits(s@),
            first == (it.index() == 0),
            skipped == (s@.len() > 0 && s@[0] == '+' && it.index() > 0),
            seen == it.index() - (if skipped { 1int } else { 0int }),
            0 <= seen <= d.len(),
            any_digit == (seen > 0),
            all_digits(d.subrange(0, seen)),
            value as int == digits_value(d.subrange(0, seen)),
    {
        if first && c == '+' {
            first = false;
            skipped = true;
            assert(d.subrange(0, 0) =~= Seq::<char>::empty());
        } else {
            first = false;
            assert(d[seen] == c);
            if c < '0' || c > '9' {
                return None;
            }
            let ghost pre = d.subrange(0, seen);
            let ghost next = d.subrange(0, seen + 1);
            assert(next.drop_last() =~= pre);
            let dv = (c as u32 - '0' as u32) as u128;
            match value.checked_mul(10) {
                Some(v10) => match v10.checked_add(dv) {
                    Some(v) => {
                        value = v;
                    },
                    None => {
                        proof {
                            if all_digits(d) {
                                lemma_digits_value_grows(d, seen + 1);
                            }
                        }
                        return None;
                    },
                },
                None => {
                    proof {
                        lemma_digits_value_nonneg(pre);
                        if all_digits(d) {
                            lemma_digits_value_grows(d, seen + 1);
                        }
                    }
                    return None;
                },
            }
            proof {
                seen = seen + 1;
            }
            any_digit = true;
        }
    }
    assert(d.subrange(0, seen) =~= d);
    if !any_digit {
        None
    } else {
        Some(value)
    }
}

} // verus!
