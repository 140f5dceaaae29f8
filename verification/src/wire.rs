//! Wire-format types and parsing of decimal strings.
//!
//! The feeds deliver prices and quantities as decimal strings. A string
//! is an optional minus sign, a digit run, and optionally a dot followed
//! by one to nine fraction digits; anything else, or a magnitude beyond
//! the value limit, is rejected. Level lists keep exactly the pairs
//! whose two strings both parse.

use vstd::prelude::*;

use crate::dec::{Dec, SCALE_UNITS, VAL_LIMIT_UNITS};
use crate::trades::Trade;

verus! {

/// One order-book message: a full snapshot or an incremental delta,
/// each side a list of `(price, quantity)` strings.
pub enum LobMessage {
    Snapshot { bids: Vec<(String, String)>, asks: Vec<(String, String)> },
    Delta { bids: Vec<(String, String)>, asks: Vec<(String, String)> },
}

/// One trade message from the tape feed.
pub struct BinanceTradeUpdate {
    pub price: String,
    pub quantity: String,
    pub timestamp: u64,
    pub is_buyer_maker: bool,
}

/// Why a feed record could not be turned into a trade.
#[derive(Clone, Copy, Debug, PartialEq, Eq, Structural)]
pub enum FeedError {
    DecimalConversion,
}

/// Decimal digit.
pub open spec fn is_digit(c: char) -> bool {
    48 <= c as u32 <= 57
}

/// The value of a decimal digit.
pub open spec fn digit_val(c: char) -> int {
    c as u32 - 48
}

/// Every character is a digit.
pub open spec fn all_digits(s: Seq<char>) -> bool {
    forall|i: int| 0 <= i < s.len() ==> is_digit(#[trigger] s[i])
}

/// The number written by a digit run, most significant first.
pub open spec fn digits_val(s: Seq<char>) -> int
    decreases s.len(),
{
    if s.len() == 0 {
        0
    } else {
        digits_val(s.drop_last()) * 10 + digit_val(s.last())
    }
}

/// Length of the maximal digit prefix.
pub open spec fn digits_prefix_len(s: Seq<char>) -> int
    decreases s.len(),
{
    if s.len() > 0 && is_digit(s[0]) {
        1 + digits_prefix_len(s.skip(1))
    } else {
        0
    }
}

/// Ten to the `n`.
pub open spec fn pow10(n: int) -> int
    decreases n,
{
    if n <= 0 {
        1
    } else {
        10 * pow10(n - 1)
    }
}

/// The value, in units, written by an unsigned decimal string: a digit
/// run alone, or a digit run, a dot, and one to nine fraction digits.
/// `None` when the string is not of that shape.
pub open spec fn body_value(b: Seq<char>) -> Option<int> {
    let k = digits_prefix_len(b);
    if k == 0 {
        None
    } else if k == b.len() {
        Some(digits_val(b) * SCALE_UNITS as int)
    } else if b[k] == '.' {
        let f = b.skip(k + 1);
        if 1 <= f.len() <= 9 && all_digits(f) {
            Some(digits_val(b.take(k)) * SCALE_UNITS as int + digits_val(f) * pow10(9 - f.len()))
        } else {
            None
        }
    } else {
        None
    }
}

/// The value, in units, written by a decimal string with an optional
/// minus sign; `None` when malformed or out of range.
pub open spec fn parse_dec_spec(s: Seq<char>) -> Option<int> {
    let b = if s.len() > 0 && s[0] == '-' {
        s.skip(1)
    } else {
        s
    };
    match body_value(b) {
        None => None,
        Some(v) => if v <= VAL_LIMIT_UNITS as int {
            if s.len() > 0 && s[0] == '-' {
                Some(-v)
            } else {
                Some(v)
            }
        } else {
            None
        },
    }
}

/// A digit run's value is nonnegative.
pub proof fn lemma_digits_val_nonneg(s: Seq<char>)
    requires
        all_digits(s),
    ensures
        digits_val(s) >= 0,
    decreases s.len(),
{
    if s.len() > 0 {
        assert(forall|i: int|
            0 <= i < s.drop_last().len() ==> #[trigger] s.drop_last()[i] == s[i]);
        lemma_digits_val_nonneg(s.drop_last());
        assert(is_digit(s.last()));
    }
}

/// Extending a digit run never decreases its value.
pub proof fn lemma_digits_prefix_mono(s: Seq<char>, i: int)
    requires
        all_digits(s),
        0 <= i <= s.len(),
    ensures
        digits_val(s.take(i)) <= digits_val(s),
    decreases s.len() - i,
{
    if i == s.len() {
        assert(s.take(i) =~= s);
    } else {
        assert(s.take(i + 1).drop_last() =~= s.take(i));
        assert(s.take(i + 1).last() == s[i]);
        assert(all_digits(s.take(i))) by {
            assert(forall|j: int| 0 <= j < i ==> #[trigger] s.take(i)[j] == s[j]);
        }
        lemma_digits_val_nonneg(s.take(i));
        assert(is_digit(s[i]));
        assert(digits_val(s.take(i + 1)) >= digits_val(s.take(i)));
        lemma_digits_prefix_mono(s, i + 1);
    }
}

/// The maximal digit prefix is exactly the digits up to the first
/// non-digit.
pub proof fn lemma_dpl_is(s: Seq<char>, k: int)
    requires
        0 <= k <= s.len(),
        forall|j: int| 0 <= j < k ==> is_digit(#[trigger] s[j]),
        k < s.len() ==> !is_digit(s[k as int]),
    ensures
        digits_prefix_len(s) == k,
    decreases s.len(),
{
    if k == 0 {
    } else {
        assert(is_digit(s[0]));
        assert(forall|j: int| 0 <= j < s.skip(1).len() ==> #[trigger] s.skip(1)[j] == s[j + 1]);
        lemma_dpl_is(s.skip(1), k - 1);
    }
}

/// The small powers of ten.
pub proof fn lemma_pow10_small()
    ensures
        pow10(0) == 1,
        pow10(1) == 10,
        pow10(2) == 100,
        pow10(3) == 1000,
        pow10(4) == 10000,
        pow10(5) == 100000,
        pow10(6) == 1000000,
        pow10(7) == 10000000,
        pow10(8) == 100000000,
        pow10(9) == 1000000000,
{
    assert(pow10(0) == 1);
    assert(pow10(1) == 10);
    assert(pow10(2) == 100);
    assert(pow10(3) == 1000);
    assert(pow10(4) == 10000);
    assert(pow10(5) == 100000);
    assert(pow10(6) == 1000000);
    assert(pow10(7) == 10000000);
    assert(pow10(8) == 100000000);
    assert(pow10(9) == 1000000000);
}

/// Digit test on a character.
fn is_digit_char(c: char) -> (r: bool)
    ensures
        r == is_digit(c),
{
    let u = c as u32;
    48 <= u && u <= 57
}

/// Parse a decimal string into an exact decimal, rejecting malformed
/// strings, more than nine fraction digits, and magnitudes beyond the
/// value limit.
pub fn parse_dec(s: &str) -> (r: Option<Dec>)
    ensures
        crate::dec::opt_units(r) == parse_dec_spec(s@),
{
    let n = s.unicode_len();
    if n == 0 {
        return None;
    }
    let first = s.get_char(0);
    let neg = first == '-';
    let start: usize = if neg {
        1
    } else {
        0
    };
    let ghost b = if neg {
        s@.skip(1)
    } else {
        s@
    };
    proof {
        assert(forall|j: int| 0 <= j < b.len() ==> #[trigger] b[j] == s@[start + j]);
    }
    if start == n {
        proof {
            assert(digits_prefix_len(b) == 0);
        }
        return None;
    }
    // digit run before the dot
    let mut i: usize = start;
    let mut acc: i128 = 0;
    while i < n && is_digit_char(s.get_char(i))
        invariant
            start <= i <= n,
            n == s@.len(),
            n > 0,
            neg == (s@[0] == '-'),
            start == if neg {
                1int
            } else {
                0int
            },
            b == if neg {
                s@.skip(1)
            } else {
                s@
            },
            forall|j: int| 0 <= j < b.len() ==> #[trigger] b[j] == s@[start + j],
            forall|j: int| 0 <= j < i - start ==> is_digit(#[trigger] b[j]),
            acc == digits_val(b.take(i - start)),
            0 <= acc <= 10_000_000,
        decreases n - i,
    {
        let c = s.get_char(i);
        let d: i128 = (c as u32 - 48) as i128;
        proof {
            assert(b.take(i - start + 1).drop_last() =~= b.take(i - start));
            assert(b.take(i - start + 1).last() == b[i - start]);
        }
        acc = acc * 10 + d;
        i += 1;
        if acc > 10_000_000 {
            proof {
                lemma_bail_too_large(b, (i - start) as int, acc as int);
            }
            return None;
        }
    }
    let k = i - start;
    if k == 0 {
        proof {
            assert(!is_digit(b[0]));
            lemma_dpl_is(b, 0);
        }
        return None;
    }
    if i == n {
        proof {
            assert(b.take(k as int) =~= b);
            lemma_dpl_is(b, k as int);
        }
        let units = acc * SCALE_UNITS;
        return Some(
            if neg {
                Dec::from_units(-units)
            } else {
                Dec::from_units(units)
            },
        );
    }
    proof {
        assert(!is_digit(b[k as int]));
        lemma_dpl_is(b, k as int);
    }
    let c = s.get_char(i);
    if c != '.' {
        return None;
    }
    let frac_len = n - (i + 1);
    if frac_len == 0 || frac_len > 9 {
        proof {
            assert(b.skip(k as int + 1).len() == frac_len);
        }
        return None;
    }
    let ghost f = b.skip(k as int + 1);
    proof {
        assert(f.len() == frac_len);
        assert(forall|j: int| 0 <= j < f.len() ==> #[trigger] f[j] == s@[i + 1 + j]);
    }
    let mut j: usize = i + 1;
    let mut facc: i128 = 0;
    while j < n
        invariant
            i + 1 <= j <= n,
            n == s@.len(),
            n > 0,
            neg == (s@[0] == '-'),
            b == if neg {
                s@.skip(1)
            } else {
                s@
            },
            digits_prefix_len(b) == k,
            0 < k,
            k as int + 1 + frac_len == b.len(),
            b[k as int] == '.',
            frac_len == n - (i + 1),
            1 <= frac_len <= 9,
            f == b.skip(k as int + 1),
            f.len() == frac_len,
            forall|m: int| 0 <= m < f.len() ==> #[trigger] f[m] == s@[i + 1 + m],
            forall|m: int| 0 <= m < j - (i + 1) ==> is_digit(#[trigger] f[m]),
            facc == digits_val(f.take(j - (i + 1))),
            0 <= facc < 1_000_000_000,
            facc < pow10(j - (i + 1)),
        decreases n - j,
    {
        let c2 = s.get_char(j);
        if !is_digit_char(c2) {
            proof {
                assert(f[j - (i + 1)] == c2);
                assert(!all_digits(f));
                assert(body_value(b) is None);
            }
            return None;
        }
        let d: i128 = (c2 as u32 - 48) as i128;
        proof {
            assert(f.take(j - (i + 1) + 1).drop_last() =~= f.take(j - (i + 1)));
            assert(f.take(j - (i + 1) + 1).last() == f[j - (i + 1)]);
            lemma_pow10_small();
            lemma_pow10_within((j - i) as int, frac_len as int);
        }
        facc = facc * 10 + d;
        j += 1;
    }
    proof {
        assert(f.take(frac_len as int) =~= f);
    }
    let scale_pow: i128 = match frac_len {
        1 => 100_000_000,
        2 => 10_000_000,
        3 => 1_000_000,
        4 => 100_000,
        5 => 10_000,
        6 => 1_000,
        7 => 100,
        8 => 10,
        _ => 1,
    };
    proof {
        lemma_pow10_small();
        assert(scale_pow as int == pow10(9 - frac_len as int));
        lemma_digits_val_nonneg(f);
        assert(facc * scale_pow < 1_000_000_000) by (nonlinear_arith)
            requires
                0 <= facc,
                facc < pow10(frac_len as int),
                scale_pow as int == pow10(9 - frac_len as int),
                1 <= frac_len <= 9,
                pow10(0) == 1 && pow10(1) == 10 && pow10(2) == 100 && pow10(3) == 1000 && pow10(4)
                    == 10000 && pow10(5) == 100000 && pow10(6) == 1000000 && pow10(7) == 10000000
                    && pow10(8) == 100000000 && pow10(9) == 1000000000,
        ;
        assert(facc * scale_pow >= 0) by {
            vstd::arithmetic::mul::lemma_mul_nonnegative(facc as int, scale_pow as int);
        }
    }
    let units = acc * SCALE_UNITS + facc * scale_pow;
    let limit: i128 = VAL_LIMIT_UNITS;
    if units > limit {
        return None;
    }
    Some(
        if neg {
            Dec::from_units(-units)
        } else {
            Dec::from_units(units)
        },
    )
}

/// Once the digit run's value exceeds the integer-part limit, every
/// interpretation of the string exceeds the value limit.
proof fn lemma_bail_too_large(b: Seq<char>, i: int, acc: int)
    requires
        0 <= i <= b.len(),
        forall|j: int| 0 <= j < i ==> is_digit(#[trigger] b[j]),
        acc == digits_val(b.take(i)),
        acc > 10_000_000,
    ensures
        parse_dec_spec_of_body(b) is None,
{
    let k = digits_prefix_len(b);
    lemma_dpl_chars(b);
    lemma_dpl_ge(b, i);
    if k == b.len() {
        assert(all_digits(b)) by {
            lemma_dpl_chars(b);
        }
        lemma_digits_prefix_mono(b, i);
        assert(digits_val(b) > 10_000_000);
        assert(digits_val(b) * SCALE_UNITS as int > VAL_LIMIT_UNITS as int) by (nonlinear_arith)
            requires
                digits_val(b) > 10_000_000,
        ;
    } else if k > 0 && b[k] == '.' {
        let f = b.skip(k + 1);
        if 1 <= f.len() <= 9 && all_digits(f) {
            assert(all_digits(b.take(k))) by {
                lemma_dpl_chars(b);
                assert(forall|j: int| 0 <= j < k ==> #[trigger] b.take(k)[j] == b[j]);
            }
            assert(i <= k);
            assert(b.take(k).take(i) =~= b.take(i));
            lemma_digits_prefix_mono(b.take(k), i);
            assert(digits_val(b.take(k)) > 10_000_000);
            assert(digits_val(b.take(k)) * SCALE_UNITS as int > VAL_LIMIT_UNITS as int)
                by (nonlinear_arith)
                requires
                    digits_val(b.take(k)) > 10_000_000,
            ;
            lemma_digits_val_nonneg(f);
            lemma_pow10_pos(9 - f.len());
            assert(digits_val(f) * pow10(9 - f.len()) >= 0) by {
                vstd::arithmetic::mul::lemma_mul_nonnegative(digits_val(f), pow10(9 - f.len()));
            }
        }
    }
}

/// The guarded body value, as `parse_dec_spec` uses it.
pub open spec fn parse_dec_spec_of_body(b: Seq<char>) -> Option<int> {
    match body_value(b) {
        None => None,
        Some(v) => if v <= VAL_LIMIT_UNITS as int {
            Some(v)
        } else {
            None
        },
    }
}

/// A digit prefix of length `i` pushes the maximal digit prefix to at
/// least `i`.
proof fn lemma_dpl_ge(s: Seq<char>, i: int)
    requires
        0 <= i <= s.len(),
        forall|j: int| 0 <= j < i ==> is_digit(#[trigger] s[j]),
    ensures
        digits_prefix_len(s) >= i,
    decreases s.len(),
{
    if s.len() > 0 && is_digit(s[0]) {
        assert(forall|j: int| 0 <= j < s.skip(1).len() ==> #[trigger] s.skip(1)[j] == s[j + 1]);
        lemma_dpl_ge(
            s.skip(1),
            if i > 0 {
                i - 1
            } else {
                0
            },
        );
    }
}

/// The characters inside the maximal digit prefix are digits.
proof fn lemma_dpl_chars(s: Seq<char>)
    ensures
        0 <= digits_prefix_len(s) <= s.len(),
        forall|j: int| 0 <= j < digits_prefix_len(s) ==> is_digit(#[trigger] s[j]),
    decreases s.len(),
{
    if s.len() > 0 && is_digit(s[0]) {
        lemma_dpl_chars(s.skip(1));
        assert(forall|j: int| 0 <= j < s.skip(1).len() ==> #[trigger] s.skip(1)[j] == s[j + 1]);
        assert forall|j: int| 0 <= j < digits_prefix_len(s) implies is_digit(
            #[trigger] s[j],
        ) by {
            if j > 0 {
                assert(is_digit(s.skip(1)[j - 1]));
            }
        }
    }
}

/// Powers of ten are positive.
proof fn lemma_pow10_pos(n: int)
    ensures
        pow10(n) >= 1,
    decreases
            if n <= 0 {
                0int
            } else {
                n
            },
{
    if n > 0 {
        lemma_pow10_pos(n - 1);
    }
}

/// Within nine digits the partial fraction value stays under its power
/// bound.
proof fn lemma_pow10_within(c: int, frac_len: int)
    requires
        1 <= c <= frac_len <= 9,
    ensures
        pow10(c) <= pow10(9),
        pow10(c - 1) * 10 == pow10(c),
    decreases 9 - c,
{
    lemma_pow10_pos(c - 1);
    if c < 9 {
        lemma_pow10_pos(c);
        lemma_pow10_within(c + 1, 9);
    }
}

/// Keep the pairs whose two strings both parse as decimals.
pub fn parse_levels(levels: &Vec<(String, String)>) -> (r: Vec<(Dec, Dec)>)
    ensures
        r@ == spec_parse_levels(levels@),
{
    let n = levels.len();
    let mut out: Vec<(Dec, Dec)> = Vec::new();
    let mut i: usize = 0;
    while i < n
        invariant
            n == levels@.len(),
            0 <= i <= n,
            out@ == spec_parse_levels(levels@.take(i as int)),
        decreases n - i,
    {
        proof {
            assert(levels@.take(i as int + 1).drop_last() =~= levels@.take(i as int));
            assert(levels@.take(i as int + 1).last() == levels@[i as int]);
        }
        let (p, q) = (&levels[i].0, &levels[i].1);
        match (parse_dec(p.as_str()), parse_dec(q.as_str())) {
            (Some(price), Some(qty)) => {
                out.push((price, qty));
            },
            _ => {},
        }
        i += 1;
    }
    proof {
        assert(levels@.take(n as int) =~= levels@);
    }
    out
}

/// The level pairs whose two strings both parse, in order.
pub open spec fn spec_parse_levels(levels: Seq<(String, String)>) -> Seq<(Dec, Dec)>
    decreases levels.len(),
{
    if levels.len() == 0 {
        Seq::empty()
    } else {
        let prev = spec_parse_levels(levels.drop_last());
        let d = levels.last();
        match (parse_dec_spec(d.0@), parse_dec_spec(d.1@)) {
            (Some(p), Some(q)) => prev.push(
                (crate::dec::dec_of(p), crate::dec::dec_of(q)),
            ),
            _ => prev,
        }
    }
}

/// Convert one tape record into a trade; fails when either decimal
/// string does not parse.
pub fn trade_from_update(u: &BinanceTradeUpdate) -> (r: Result<Trade, FeedError>)
    ensures
        (r is Ok) == (parse_dec_spec(u.price@) is Some && parse_dec_spec(u.quantity@) is Some),
        r is Ok ==> {
            &&& r->Ok_0.price@ == parse_dec_spec(u.price@)->Some_0
            &&& r->Ok_0.quantity@ == parse_dec_spec(u.quantity@)->Some_0
            &&& r->Ok_0.timestamp == u.timestamp
            &&& r->Ok_0.is_buyer_maker == u.is_buyer_maker
        },
        r is Err ==> r->Err_0 == FeedError::DecimalConversion,
{
    let price = match parse_dec(u.price.as_str()) {
        Some(p) => p,
        None => {
            return Err(FeedError::DecimalConversion);
        },
    };
    let quantity = match parse_dec(u.quantity.as_str()) {
        Some(q) => q,
        None => {
            return Err(FeedError::DecimalConversion);
        },
    };
    Ok(Trade { price, quantity, timestamp: u.timestamp, is_buyer_maker: u.is_buyer_maker })
}

} // verus!
