//! Exact ratios written in decimal notation, such as the share of selected
//! pixels below which a level is solved sparsely.

use crate::error::RegistrationError;
use vstd::prelude::*;

verus! {

/// Most digits a ratio may be written with.
pub const MAX_DIGITS: usize = 18;

/// The ratio `num / den`.
#[derive(Debug, Clone, Copy, PartialEq, Eq, Structural)]
pub struct Ratio {
    pub num: u64,
    pub den: u64,
}

/// What reading a decimal number left to right has gathered: the digits as
/// one integer, the power of ten it is to be divided by, whether the point
/// was seen, how many digits were read, and whether everything so far was a
/// digit or a single point.
pub struct Scan {
    pub num: nat,
    pub den: nat,
    pub seen_point: bool,
    pub digits: nat,
    pub valid: bool,
}

/// The value of an ASCII decimal digit.
pub open spec fn digit_value(c: char) -> nat {
    (c as u32 - '0' as u32) as nat
}

pub open spec fn is_digit(c: char) -> bool {
    '0' <= c && c <= '9'
}

/// Reading of `s`, a string of digits with at most one decimal point.
pub open spec fn scan(s: Seq<char>) -> Scan
    decreases s.len(),
{
    if s.len() == 0 {
        Scan { num: 0, den: 1, seen_point: false, digits: 0, valid: true }
    } else {
        let prev = scan(s.drop_last());
        let c = s.last();
        if is_digit(c) {
            Scan {
                num: prev.num * 10 + digit_value(c),
                den: if prev.seen_point {
                    prev.den * 10
                } else {
                    prev.den
                },
                seen_point: prev.seen_point,
                digits: prev.digits + 1,
                valid: prev.valid,
            }
        } else if c == '.' && !prev.seen_point {
            Scan { seen_point: true, ..prev }
        } else {
            Scan { valid: false, ..prev }
        }
    }
}

/// `s` is a decimal number of one to `MAX_DIGITS` digits, with an optional
/// point, whose value lies in `[0, 1]`.
pub open spec fn is_unit_decimal(s: Seq<char>) -> bool {
    let sc = scan(s);
    sc.valid && 1 <= sc.digits <= MAX_DIGITS && sc.num <= sc.den
}

proof fn lemma_scan_bounds(s: Seq<char>)
    ensures
        scan(s).num < pow10(scan(s).digits),
        scan(s).den <= pow10(scan(s).digits),
        scan(s).den >= 1,
    decreases s.len(),
{
    if s.len() > 0 {
        lemma_scan_bounds(s.drop_last());
    }
}

/// `10^n`.
pub open spec fn pow10(n: nat) -> nat
    decreases n,
{
    if n == 0 {
        1
    } else {
        10 * pow10((n - 1) as nat)
    }
}

proof fn lemma_pow10_mono(a: nat, b: nat)
    requires
        a <= b,
    ensures
        pow10(a) <= pow10(b),
    decreases b,
{
    if a < b {
        lemma_pow10_mono(a, (b - 1) as nat);
    }
}

impl Ratio {
    /// Reads a ratio in `[0, 1]` written in decimal notation (`0.5`, `1`,
    /// `.25`). Anything else, or more than `MAX_DIGITS` digits, is
    /// `BadConfig`.
    pub fn parse_unit_decimal(s: &str) -> (r: Result<Ratio, RegistrationError>)
        ensures
            is_unit_decimal(s@) ==> r == Ok::<_, RegistrationError>(
                Ratio { num: scan(s@).num as u64, den: scan(s@).den as u64 },
            ),
            !is_unit_decimal(s@) ==> r == Err::<Ratio, _>(RegistrationError::BadConfig),
    {
        let n = s.unicode_len();
        let mut num: u64 = 0;
        let mut den: u64 = 1;
        let mut seen_point = false;
        let mut digits: usize = 0;
        let mut i: usize = 0;
        proof {
            assert(s@.subrange(0, 0) =~= Seq::<char>::empty());
        }
        while i < n
            invariant
                n == s@.len(),
                i <= n,
                digits <= MAX_DIGITS,
                ({
                    let sc = scan(s@.subrange(0, i as int));
                    &&& sc.valid
                    &&& sc.num == num
                    &&& sc.den == den
                    &&& sc.seen_point == seen_point
                    &&& sc.digits == digits
                }),
            decreases n - i,
        {
            let c = s.get_char(i);
            let ghost prefix = s@.subrange(0, i as int);
            proof {
                assert(s@.subrange(0, i + 1).drop_last() =~= prefix);
                lemma_scan_bounds(prefix);
                lemma_pow10_mono(digits as nat, MAX_DIGITS as nat);
                reveal_with_fuel(pow10, 19);
                assert(pow10(17) == 100000000000000000);
                assert(pow10(18) == 1000000000000000000);
            }
            if '0' <= c && c <= '9' {
                if digits == MAX_DIGITS {
                    proof {
                        lemma_scan_suffix_digits(s@, i as int);
                    }
                    return Err(RegistrationError::BadConfig);
                }
                proof {
                    lemma_pow10_mono(digits as nat, 17);
                }
                num = num * 10 + (c as u64 - '0' as u64);
                if seen_point {
                    den = den * 10;
                }
                digits = digits + 1;
            } else if c == '.' && !seen_point {
                seen_point = true;
            } else {
                proof {
                    lemma_scan_stays_invalid(s@, i as int + 1);
                }
                return Err(RegistrationError::BadConfig);
            }
            i = i + 1;
        }
        proof {
            assert(s@.subrange(0, n as int) =~= s@);
        }
        if digits == 0 || num > den {
            return Err(RegistrationError::BadConfig);
        }
        Ok(Ratio { num, den })
    }
}

/// Once a prefix is invalid, so is every longer prefix.
proof fn lemma_scan_stays_invalid(s: Seq<char>, k: int)
    requires
        0 <= k <= s.len(),
        !scan(s.subrange(0, k)).valid,
    ensures
        !scan(s).valid,
    decreases s.len() - k,
{
    if k < s.len() {
        assert(s.subrange(0, k + 1).drop_last() =~= s.subrange(0, k));
        lemma_scan_stays_invalid(s, k + 1);
    } else {
        assert(s.subrange(0, k) =~= s);
    }
}

/// Digits never decrease as the prefix grows; a digit at `k` adds one.
proof fn lemma_scan_suffix_digits(s: Seq<char>, k: int)
    requires
        0 <= k < s.len(),
        is_digit(s[k]),
    ensures
        scan(s).digits > scan(s.subrange(0, k)).digits || !scan(s).valid,
{
    assert(s.subrange(0, k + 1).drop_last() =~= s.subrange(0, k));
    lemma_scan_digits_grow(s, k + 1);
}

proof fn lemma_scan_digits_grow(s: Seq<char>, k: int)
    requires
        0 <= k <= s.len(),
    ensures
        scan(s).digits >= scan(s.subrange(0, k)).digits,
    decreases s.len() - k,
{
    if k < s.len() {
        assert(s.subrange(0, k + 1).drop_last() =~= s.subrange(0, k));
        lemma_scan_digits_grow(s, k + 1);
    } else {
        assert(s.subrange(0, k) =~= s);
    }
}

} // verus!
