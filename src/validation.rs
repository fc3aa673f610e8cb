//! Checking what the user typed into the purchase form.

use vstd::prelude::*;
use vstd::string::StringSliceAdditionalSpecFns;
use crate::fixed::MAX_FIELD;
use crate::text::{trim, trimmed};

verus! {

/// Digits of the fraction kept in fixed-point.
pub const FRACTION_DIGITS: i64 = 6;

/// A rejected purchase form.
#[derive(Debug, PartialEq, Eq)]
pub enum ValidationError {
    DateRequired,
    QuantityRequired,
    /// The quantity is no decimal number (the text as typed).
    InvalidQuantity(String),
    /// The quantity is zero or negative (fixed-point).
    NonPositiveQuantity(i64),
    /// The price is no decimal number (the text as typed).
    InvalidPrice(String),
    /// The price is negative (fixed-point).
    NegativePrice(i64),
}

pub open spec fn is_digit(b: u8) -> bool {
    48 <= b <= 57
}

/// State after reading some bytes of a decimal: the digits read so far as
/// one integer (capped just above the largest field), whether the point was
/// seen, how many fraction digits were kept, and whether any digit came.
pub struct DecimalScan {
    pub value: int,
    pub seen_point: bool,
    pub fraction: int,
    pub any_digit: bool,
}

/// Reads the unsigned part of a decimal; `None` on a byte that is neither a
/// digit nor a first point. Fraction digits past the sixth are dropped.
pub open spec fn scan_decimal(b: Seq<u8>) -> Option<DecimalScan>
    decreases b.len(),
{
    if b.len() == 0 {
        Some(DecimalScan { value: 0, seen_point: false, fraction: 0, any_digit: false })
    } else {
        match scan_decimal(b.drop_last()) {
            None => None,
            Some(st) => {
                let c = b.last();
                if is_digit(c) {
                    if st.seen_point && st.fraction >= FRACTION_DIGITS {
                        Some(DecimalScan { any_digit: true, ..st })
                    } else {
                        let v = st.value * 10 + (c - 48);
                        Some(DecimalScan {
                            value: if v > MAX_FIELD { MAX_FIELD + 1 } else { v },
                            fraction: if st.seen_point { st.fraction + 1 } else { st.fraction },
                            any_digit: true,
                            ..st
                        })
                    }
                } else if c == 46 && !st.seen_point {
                    Some(DecimalScan { seen_point: true, ..st })
                } else {
                    None
                }
            },
        }
    }
}

pub open spec fn pow10(n: nat) -> int
    decreases n,
{
    if n == 0 {
        1
    } else {
        10 * pow10((n - 1) as nat)
    }
}

/// Fixed-point value of unsigned decimal text, if it is one and in range.
pub open spec fn unsigned_decimal(b: Seq<u8>) -> Option<int> {
    match scan_decimal(b) {
        Some(st) => if st.any_digit && st.value <= MAX_FIELD {
            let v = st.value * pow10((FRACTION_DIGITS - st.fraction) as nat);
            if v <= MAX_FIELD {
                Some(v)
            } else {
                None
            }
        } else {
            None
        },
        None => None,
    }
}

/// Fixed-point value of decimal text with an optional sign, e.g. `-12.5`.
pub open spec fn decimal_value(b: Seq<u8>) -> Option<int> {
    if b.len() > 0 && b[0] == 45 {
        match unsigned_decimal(b.drop_first()) {
            Some(v) => Some(-v),
            None => None,
        }
    } else if b.len() > 0 && b[0] == 43 {
        unsigned_decimal(b.drop_first())
    } else {
        unsigned_decimal(b)
    }
}

proof fn lemma_pow10_bound(n: nat)
    requires
        n <= 6,
    ensures
        1 <= pow10(n) <= 1_000_000,
{
    reveal_with_fuel(pow10, 7);
    assert(n == 0 || n == 1 || n == 2 || n == 3 || n == 4 || n == 5 || n == 6);
}

fn unsigned_from(b: &[u8], from: usize) -> (r: Option<i64>)
    requires
        from <= b@.len(),
    ensures
        r matches Some(v) ==> unsigned_decimal(b@.subrange(from as int, b@.len() as int)) == Some(v as int),
        r matches Some(v) ==> 0 <= v <= MAX_FIELD,
        r is None ==> unsigned_decimal(b@.subrange(from as int, b@.len() as int)) is None,
{
    let ghost s = b@.subrange(from as int, b@.len() as int);
    let mut value: i64 = 0;
    let mut seen_point = false;
    let mut fraction: i64 = 0;
    let mut any_digit = false;
    let mut i: usize = from;
    while i < b.len()
        invariant
            from <= i <= b@.len(),
            s == b@.subrange(from as int, b@.len() as int),
            scan_decimal(b@.subrange(from as int, i as int)) == Some(DecimalScan {
                value: value as int,
                seen_point,
                fraction: fraction as int,
                any_digit,
            }),
            0 <= value <= MAX_FIELD + 1,
            0 <= fraction <= FRACTION_DIGITS,
        decreases b@.len() - i,
    {
        let c = b[i];
        proof {
            assert(b@.subrange(from as int, i as int + 1).drop_last() =~= b@.subrange(from as int, i as int));
            assert(b@.subrange(from as int, i as int + 1).last() == c);
        }
        if 48 <= c && c <= 57 {
            if !(seen_point && fraction >= 6) {
                let v = value * 10 + (c - 48) as i64;
                value = if v > MAX_FIELD { MAX_FIELD + 1 } else { v };
                if seen_point {
                    fraction = fraction + 1;
                }
            }
            any_digit = true;
        } else if c == 46 && !seen_point {
            seen_point = true;
        } else {
            proof {
                assert(scan_decimal(b@.subrange(from as int, i as int + 1)) is None);
                assert(s.subrange(0, (i - from) as int + 1) =~= b@.subrange(from as int, i as int + 1));
                lemma_scan_fails_after(s, (i - from) as int);
            }
            return None;
        }
        i = i + 1;
    }
    assert(b@.subrange(from as int, i as int) =~= s);
    if !any_digit || value > MAX_FIELD {
        return None;
    }
    let mut scaled: i64 = value;
    let mut k: i64 = fraction;
    proof {
        lemma_pow10_bound((FRACTION_DIGITS - fraction) as nat);
    }
    while k < 6
        invariant
            s == b@.subrange(from as int, b@.len() as int),
            scan_decimal(s) == Some(DecimalScan {
                value: value as int,
                seen_point,
                fraction: fraction as int,
                any_digit,
            }),
            any_digit,
            fraction <= k <= 6,
            0 <= value <= MAX_FIELD,
            scaled == value * pow10((k - fraction) as nat),
            0 <= fraction <= 6,
        decreases 6 - k,
    {
        proof {
            lemma_pow10_bound((k - fraction) as nat);
            lemma_pow10_bound((k + 1 - fraction) as nat);
            assert(pow10((k + 1 - fraction) as nat) == 10 * pow10((k - fraction) as nat));
        }
        if scaled > MAX_FIELD {
            proof {
                lemma_pow10_grows((k - fraction) as nat, (FRACTION_DIGITS - fraction) as nat);
                assert(value * pow10((k - fraction) as nat) <= value * pow10((FRACTION_DIGITS - fraction) as nat)) by (nonlinear_arith)
                    requires pow10((k - fraction) as nat) <= pow10((FRACTION_DIGITS - fraction) as nat), value >= 0;
            }
            return None;
        }
        assert(scaled * 10 == value * pow10((k + 1 - fraction) as nat)) by (nonlinear_arith)
            requires scaled == value * pow10((k - fraction) as nat),
                pow10((k + 1 - fraction) as nat) == 10 * pow10((k - fraction) as nat);
        scaled = scaled * 10;
        k = k + 1;
    }
    if scaled > MAX_FIELD {
        None
    } else {
        Some(scaled)
    }
}

proof fn lemma_pow10_grows(a: nat, b: nat)
    requires
        a <= b,
    ensures
        pow10(a) <= pow10(b),
    decreases b,
{
    if a < b {
        lemma_pow10_grows(a, (b - 1) as nat);
        lemma_pow10_positive((b - 1) as nat);
    }
}

proof fn lemma_pow10_positive(n: nat)
    ensures
        pow10(n) >= 1,
    decreases n,
{
    if n > 0 {
        lemma_pow10_positive((n - 1) as nat);
    }
}

/// Once a prefix fails to scan, every longer text fails.
proof fn lemma_scan_fails_after(b: Seq<u8>, k: int)
    requires
        0 <= k < b.len(),
        scan_decimal(b.subrange(0, k + 1)) is None,
    ensures
        scan_decimal(b) is None,
    decreases b.len() - k,
{
    if k + 1 < b.len() {
        assert(b.subrange(0, k + 2).drop_last() =~= b.subrange(0, k + 1));
        lemma_scan_fails_after(b, k + 1);
    } else {
        assert(b.subrange(0, k + 1) =~= b);
    }
}

/// Reads decimal text with an optional sign into fixed-point.
pub fn parse_decimal(s: &str) -> (r: Option<i64>)
    ensures
        r matches Some(v) ==> decimal_value(s.spec_bytes()) == Some(v as int),
        r is None ==> decimal_value(s.spec_bytes()) is None,
{
    let b = s.as_bytes();
    if b.len() > 0 && b[0] == 45 {
        assert(b@.subrange(1, b@.len() as int) =~= b@.drop_first());
        match unsigned_from(b, 1) {
            Some(v) => Some(-v),
            None => None,
        }
    } else if b.len() > 0 && b[0] == 43 {
        assert(b@.subrange(1, b@.len() as int) =~= b@.drop_first());
        unsigned_from(b, 1)
    } else {
        assert(b@.subrange(0, b@.len() as int) =~= b@);
        unsigned_from(b, 0)
    }
}

/// Price typed into the form: zero when left empty (to be filled from the
/// provider), else the decimal typed.
pub open spec fn entered_price(text: Seq<char>, bytes: Seq<u8>) -> Option<int> {
    if trimmed(text).len() == 0 {
        Some(0)
    } else {
        decimal_value(bytes)
    }
}

/// Checks a purchase form: a date and a positive quantity are required, a
/// price may be left empty and must not be negative. Returns the quantity
/// and price in fixed-point.
pub fn validate_purchase(date: &str, quantity: &str, price: &str) -> (r: Result<(i64, i64), ValidationError>)
    ensures
        trimmed(date@).len() == 0 ==> r == Err::<(i64, i64), ValidationError>(ValidationError::DateRequired),
        trimmed(date@).len() > 0 && trimmed(quantity@).len() == 0
            ==> r == Err::<(i64, i64), ValidationError>(ValidationError::QuantityRequired),
        trimmed(date@).len() > 0 && trimmed(quantity@).len() > 0 ==> match decimal_value(quantity.spec_bytes()) {
            None => r matches Err(ValidationError::InvalidQuantity(t)) && t@ == quantity@,
            Some(q) => if q <= 0 {
                r == Err::<(i64, i64), ValidationError>(ValidationError::NonPositiveQuantity(q as i64))
            } else {
                match entered_price(price@, price.spec_bytes()) {
                    None => r matches Err(ValidationError::InvalidPrice(t)) && t@ == price@,
                    Some(p) => if p < 0 {
                        r == Err::<(i64, i64), ValidationError>(ValidationError::NegativePrice(p as i64))
                    } else {
                        r == Ok::<(i64, i64), ValidationError>((q as i64, p as i64))
                    },
                }
            },
        },
{
    if trim(date).is_empty() {
        return Err(ValidationError::DateRequired);
    }
    if trim(quantity).is_empty() {
        return Err(ValidationError::QuantityRequired);
    }
    let q = match parse_decimal(quantity) {
        Some(q) => q,
        None => return Err(ValidationError::InvalidQuantity(quantity.to_owned())),
    };
    if q <= 0 {
        return Err(ValidationError::NonPositiveQuantity(q));
    }
    let p = if trim(price).is_empty() {
        0
    } else {
        match parse_decimal(price) {
            Some(p) => p,
            None => return Err(ValidationError::InvalidPrice(price.to_owned())),
        }
    };
    if p < 0 {
        return Err(ValidationError::NegativePrice(p));
    }
    Ok((q, p))
}

} // verus!
