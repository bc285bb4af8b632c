//! Numbers written in decimal digits: reading them from text and writing
//! them as text.

use vstd::prelude::*;
use crate::lexer::{digit, is_digit};
use crate::text::copy;

verus! {

/// The byte of the digit zero.
pub const ZERO: u8 = 48;

/// The byte of a plus sign.
pub const PLUS_SIGN: u8 = 43;

/// The byte of a minus sign.
pub const MINUS_SIGN: u8 = 45;

/// The byte of a decimal point.
pub const POINT: u8 = 46;

/// The number of digits that a decimal number may have after its point.
pub const FRACTION_DIGITS: usize = 18;

/// The number of fractions that make up one: 10 to the power of 18.
pub const UNIT: u64 = 1_000_000_000_000_000_000;

/// Every byte is a digit.
pub open spec fn all_digits(s: Seq<u8>) -> bool {
    forall|i: int| 0 <= i < s.len() ==> is_digit(#[trigger] s[i])
}

/// The number that the digits write, the last digit counting least. No
/// digits write 0.
pub open spec fn digits_value(s: Seq<u8>) -> nat
    decreases s.len(),
{
    if s.len() == 0 {
        0
    } else {
        digits_value(s.drop_last()) * 10 + (s.last() - ZERO) as nat
    }
}

/// The number that digits write, where the text is digits and nothing
/// else and the number fits into 64 bits.
pub open spec fn digits_number(s: Seq<u8>) -> Option<u64> {
    if all_digits(s) && digits_value(s) <= u64::MAX {
        Some(digits_value(s) as u64)
    } else {
        None
    }
}

/// The number that a text writes: the text is one or more digits and
/// nothing else, and the number fits into 64 bits.
pub open spec fn number_value(s: Seq<u8>) -> Option<u64> {
    if s.len() > 0 {
        digits_number(s)
    } else {
        None
    }
}

/// The first digits of a number write a number that is not greater.
pub proof fn lemma_digits_value_prefix(s: Seq<u8>, i: int)
    requires
        all_digits(s),
        0 <= i <= s.len(),
    ensures
        digits_value(s.take(i)) <= digits_value(s),
    decreases s.len() - i,
{
    if i == s.len() {
        assert(s.take(i) =~= s);
    } else {
        let shorter = s.drop_last();
        assert(shorter.take(i) =~= s.take(i));
        assert(all_digits(shorter)) by {
            assert forall|k: int| 0 <= k < shorter.len() implies is_digit(#[trigger] shorter[k]) by {
                assert(shorter[k] == s[k]);
            }
        }
        lemma_digits_value_prefix(shorter, i);
    }
}

/// Reads the number that digits write. No digits write 0.
pub fn read_digits(s: &[u8]) -> (r: Option<u64>)
    ensures
        r == digits_number(s@),
{
    let mut acc: u64 = 0;
    let mut i: usize = 0;
    assert(s@.take(0) =~= Seq::<u8>::empty());
    while i < s.len()
        invariant
            i <= s.len(),
            all_digits(s@.take(i as int)),
            acc == digits_value(s@.take(i as int)),
        decreases s.len() - i,
    {
        let b = s[i];
        if !digit(b) {
            assert(!all_digits(s@)) by {
                assert(!is_digit(s@[i as int]));
            }
            return None;
        }
        let d: u64 = (b - ZERO) as u64;
        let ghost longer = s@.take(i + 1);
        proof {
            assert(longer.drop_last() =~= s@.take(i as int));
            assert(longer.last() == b);
            assert(all_digits(longer)) by {
                assert forall|k: int| 0 <= k < longer.len() implies is_digit(#[trigger] longer[k]) by {
                    if k < i {
                        assert(longer[k] == s@.take(i as int)[k]);
                    }
                }
            }
        }
        if acc > (u64::MAX - d) / 10 {
            proof {
                assert(digits_value(longer) > u64::MAX);
                if all_digits(s@) {
                    lemma_digits_value_prefix(s@, i + 1);
                }
            }
            return None;
        }
        acc = acc * 10 + d;
        i += 1;
    }
    assert(s@.take(s@.len() as int) =~= s@);
    Some(acc)
}

/// Reads a number from a text.
pub fn parse_number(s: &[u8]) -> (r: Option<u64>)
    ensures
        r == number_value(s@),
{
    if s.len() == 0 {
        None
    } else {
        read_digits(s)
    }
}

/// The digits that write a number, without leading zeros.
pub open spec fn digits_of(n: nat) -> Seq<u8>
    decreases n,
{
    if n < 10 {
        seq![(ZERO + n) as u8]
    } else {
        digits_of(n / 10).push((ZERO + n % 10) as u8)
    }
}

/// Writes a number in decimal digits.
pub fn decimal(n: u32) -> (r: Vec<u8>)
    ensures
        r@ == digits_of(n as nat),
    decreases n,
{
    if n < 10 {
        let mut v: Vec<u8> = Vec::new();
        v.push(ZERO + n as u8);
        assert(v@ =~= seq![(ZERO + n) as u8]);
        v
    } else {
        let mut v = decimal(n / 10);
        v.push(ZERO + (n % 10) as u8);
        v
    }
}

/// A number written in digits reads as the same number.
pub proof fn law_written_number_reads_back(n: nat)
    ensures
        all_digits(digits_of(n)),
        digits_of(n).len() > 0,
        digits_value(digits_of(n)) == n,
        n <= u64::MAX ==> number_value(digits_of(n)) == Some(n as u64),
    decreases n,
{
    if n < 10 {
        let s = digits_of(n);
        assert(s.drop_last() =~= Seq::<u8>::empty());
        assert(digits_value(s.drop_last()) == 0);
    } else {
        law_written_number_reads_back(n / 10);
        let s = digits_of(n);
        assert(s.drop_last() =~= digits_of(n / 10));
    }
}

/// 10 to the power of `n`.
pub open spec fn pow10(n: nat) -> nat
    decreases n,
{
    if n == 0 {
        1
    } else {
        10 * pow10((n - 1) as nat)
    }
}

/// Digits write a number below 10 to the power of their count.
pub proof fn lemma_digits_value_bound(s: Seq<u8>)
    requires
        all_digits(s),
    ensures
        digits_value(s) < pow10(s.len()),
    decreases s.len(),
{
    if s.len() > 0 {
        let shorter = s.drop_last();
        assert(all_digits(shorter)) by {
            assert forall|k: int| 0 <= k < shorter.len() implies is_digit(#[trigger] shorter[k]) by {
                assert(shorter[k] == s[k]);
            }
        }
        lemma_digits_value_bound(shorter);
        assert(is_digit(s[s.len() - 1]));
    }
}

/// A decimal number: whether it is below zero, its whole part, and its
/// fraction, counted in units of 10 to the power of -18.
#[derive(Debug, Clone, Copy, PartialEq, Eq)]
pub struct Decimal {
    pub negative: bool,
    pub whole: u64,
    pub fraction: u64,
}

impl Decimal {
    /// The fraction is less than one.
    pub open spec fn wf(self) -> bool {
        self.fraction < UNIT
    }

    /// The number, in units of 10 to the power of -18.
    pub open spec fn value(self) -> int {
        let size = self.whole * UNIT + self.fraction;
        if self.negative {
            -size
        } else {
            size
        }
    }

    /// Tells whether the number is less than `other`.
    pub fn less(&self, other: &Decimal) -> (r: bool)
        requires
            self.wf(),
            other.wf(),
        ensures
            r == (self.value() < other.value()),
    {
        let smaller = self.whole < other.whole || (self.whole == other.whole && self.fraction
            < other.fraction);
        let greater = self.whole > other.whole || (self.whole == other.whole && self.fraction
            > other.fraction);
        if self.negative {
            if other.negative {
                greater
            } else {
                self.whole > 0 || self.fraction > 0 || other.whole > 0 || other.fraction > 0
            }
        } else {
            if other.negative {
                false
            } else {
                smaller
            }
        }
    }
}

/// The position of the first decimal point at or after `k`, or the length
/// of the text where there is none.
pub open spec fn point_from(s: Seq<u8>, k: int) -> int
    decreases s.len() - k,
{
    if k < 0 || k >= s.len() {
        s.len() as int
    } else if s[k] == POINT {
        k
    } else {
        point_from(s, k + 1)
    }
}

/// As many zeros as the number says.
pub open spec fn zeros(n: int) -> Seq<u8> {
    Seq::new(
        if n > 0 {
            n as nat
        } else {
            0
        },
        |i: int| ZERO,
    )
}

/// What stands after the sign of a text, where it has one.
pub open spec fn unsigned_part(s: Seq<u8>) -> Seq<u8> {
    if s.len() > 0 && (s[0] == PLUS_SIGN || s[0] == MINUS_SIGN) {
        s.skip(1)
    } else {
        s
    }
}

/// The digits before the point of a text without sign.
pub open spec fn whole_digits(body: Seq<u8>) -> Seq<u8> {
    body.take(point_from(body, 0))
}

/// The digits after the point of a text without sign; none where it has
/// no point.
pub open spec fn fraction_digits(body: Seq<u8>) -> Seq<u8> {
    let point = point_from(body, 0);
    if point < body.len() {
        body.skip(point + 1)
    } else {
        Seq::empty()
    }
}

/// The decimal number that a text writes: a sign, if one likes; digits; and
/// a point with digits after it, if one likes. There is at least one digit
/// before or after the point, and there are at most 18 after it. The whole
/// part fits into 64 bits. Zero is never below zero.
pub open spec fn decimal_value(s: Seq<u8>) -> Option<Decimal> {
    let body = unsigned_part(s);
    let whole = whole_digits(body);
    let fraction = fraction_digits(body);
    if whole.len() + fraction.len() == 0 || fraction.len() > FRACTION_DIGITS || !all_digits(
        fraction,
    ) {
        None
    } else {
        match digits_number(whole) {
            Some(w) => {
                let f = digits_value(fraction + zeros(FRACTION_DIGITS - fraction.len())) as u64;
                Some(
                    Decimal {
                        negative: s[0] == MINUS_SIGN && (w != 0 || f != 0),
                        whole: w,
                        fraction: f,
                    },
                )
            },
            None => None,
        }
    }
}

/// Reads a decimal number from a text.
pub fn parse_decimal(s: &[u8]) -> (r: Option<Decimal>)
    ensures
        r == decimal_value(s@),
        r matches Some(d) ==> d.wf(),
{
    let signed = s.len() > 0 && (s[0] == PLUS_SIGN || s[0] == MINUS_SIGN);
    let minus = s.len() > 0 && s[0] == MINUS_SIGN;
    let body = if signed {
        &s[1..s.len()]
    } else {
        s
    };
    assert(body@ =~= unsigned_part(s@));
    let mut point: usize = 0;
    while point < body.len() && body[point] != POINT
        invariant
            point <= body.len(),
            point_from(body@, 0) == point_from(body@, point as int),
        decreases body.len() - point,
    {
        point += 1;
    }
    let whole_part = &body[0..point];
    let none = &body[0..0];
    let fraction_part = if point < body.len() {
        &body[point + 1..body.len()]
    } else {
        none
    };
    assert(whole_part@ =~= whole_digits(body@));
    assert(fraction_part@ =~= fraction_digits(body@));
    if whole_part.len() == 0 && fraction_part.len() == 0 {
        return None;
    }
    if fraction_part.len() > FRACTION_DIGITS {
        return None;
    }
    let mut padded = copy(fraction_part);
    assert(padded@ =~= fraction_part@ + zeros(0));
    while padded.len() < FRACTION_DIGITS
        invariant
            fraction_part@.len() <= padded@.len() <= FRACTION_DIGITS,
            padded@ == fraction_part@ + zeros(padded@.len() - fraction_part@.len()),
        decreases FRACTION_DIGITS - padded.len(),
    {
        let ghost before = padded@;
        padded.push(ZERO);
        assert(padded@ =~= fraction_part@ + zeros(padded@.len() - fraction_part@.len()));
    }
    proof {
        let all = fraction_part@ + zeros(FRACTION_DIGITS - fraction_part@.len());
        if all_digits(fraction_part@) {
            assert forall|k: int| 0 <= k < all.len() implies is_digit(#[trigger] all[k]) by {
                if k < fraction_part@.len() {
                    assert(all[k] == fraction_part@[k]);
                }
            }
            lemma_digits_value_bound(all);
            reveal_with_fuel(pow10, 19);
            assert(pow10(18) == UNIT);
        } else {
            let k = choose|k: int| 0 <= k < fraction_part@.len() && !is_digit(fraction_part@[k]);
            assert(all[k] == fraction_part@[k]);
        }
    }
    let fraction = match read_digits(padded.as_slice()) {
        Some(f) => f,
        None => {
            return None;
        },
    };
    match read_digits(whole_part) {
        Some(whole) => Some(
            Decimal { negative: minus && (whole != 0 || fraction != 0), whole, fraction },
        ),
        None => None,
    }
}

} // verus!
