//! Decimal notation of sequence numbers, as bytes.
//!
//! [`zero_padded`] writes a number with a fixed number of digits and
//! [`parse_u64`] reads one back. Both are stated over [`value`], the number
//! that a run of digits denotes.

use vstd::arithmetic::{div_mod, power};
use vstd::prelude::*;

verus! {

/// Number of digits in the name of a snapshot file: what the largest `u64`
/// needs.
pub const SEQ_WIDTH: usize = 20;

/// An ASCII decimal digit.
pub open spec fn is_digit(b: u8) -> bool {
    '0' as u8 <= b <= '9' as u8
}

/// Every byte is an ASCII decimal digit.
pub open spec fn all_digits(s: Seq<u8>) -> bool {
    forall|i: int| 0 <= i < s.len() ==> is_digit(#[trigger] s[i])
}

/// The number that a run of digits denotes, the most significant digit first.
pub open spec fn value(s: Seq<u8>) -> nat
    decreases s.len(),
{
    if s.len() == 0 {
        0
    } else {
        (value(s.drop_last()) * 10 + (s.last() - '0' as u8)) as nat
    }
}

/// The last `width` digits of `n`, with zeros in front where `n` has fewer.
pub open spec fn padded(n: nat, width: nat) -> Seq<u8>
    decreases width,
{
    if width == 0 {
        Seq::empty()
    } else {
        padded(n / 10, (width - 1) as nat).push(('0' as u8 + n % 10) as u8)
    }
}

/// Ten to the power `k`.
pub open spec fn pow10(k: nat) -> nat
    decreases k,
{
    if k == 0 {
        1
    } else {
        10 * pow10((k - 1) as nat)
    }
}

/// `s` without the plus sign that a number may start with.
pub open spec fn unsigned_part(s: Seq<u8>) -> Seq<u8> {
    if s.len() > 0 && s[0] == '+' as u8 {
        s.skip(1)
    } else {
        s
    }
}

/// What `s` denotes when read as a `u64`: an optional plus sign, then one or
/// more digits whose value fits.
pub open spec fn parsed(s: Seq<u8>) -> Option<u64> {
    let digits = unsigned_part(s);
    if digits.len() > 0 && all_digits(digits) && value(digits) <= u64::MAX {
        Some(value(digits) as u64)
    } else {
        None
    }
}

/// `a` comes before `b` in the order of their bytes.
pub open spec fn precedes(a: Seq<u8>, b: Seq<u8>) -> bool {
    exists|k: int| #[trigger] differ_first_at(a, b, k) && a[k] < b[k]
}

/// `a` and `b` agree on the first `k` bytes and both go on.
pub open spec fn differ_first_at(a: Seq<u8>, b: Seq<u8>, k: int) -> bool {
    &&& 0 <= k < a.len()
    &&& k < b.len()
    &&& forall|j: int| 0 <= j < k ==> a[j] == b[j]
}

/// Every `u64` has at most [`SEQ_WIDTH`] digits.
pub proof fn lemma_u64_fits(n: u64)
    ensures
        n < pow10(SEQ_WIDTH as nat),
{
    reveal_with_fuel(pow10, 21);
}

/// The padded form has the asked width, is made of digits, and denotes the
/// number that was written, if the number has no more digits than that.
pub proof fn lemma_padded_value(n: nat, width: nat)
    ensures
        padded(n, width).len() == width,
        all_digits(padded(n, width)),
        n < pow10(width) ==> value(padded(n, width)) == n,
    decreases width,
{
    if width > 0 {
        let w = (width - 1) as nat;
        lemma_padded_value(n / 10, w);
        assert(padded(n, width).drop_last() =~= padded(n / 10, w));
    }
}

/// The order of the padded forms is the order of the numbers.
pub proof fn lemma_padded_order(m: nat, n: nat, width: nat)
    requires
        m < n,
        n < pow10(width),
    ensures
        precedes(padded(m, width), padded(n, width)),
    decreases width,
{
    let w = (width - 1) as nat;
    let a = padded(m, width);
    let b = padded(n, width);
    lemma_padded_value(m, width);
    lemma_padded_value(n, width);
    lemma_padded_value(m / 10, w);
    lemma_padded_value(n / 10, w);
    if m / 10 < n / 10 {
        lemma_padded_order(m / 10, n / 10, w);
        let a0 = padded(m / 10, w);
        let b0 = padded(n / 10, w);
        let k = choose|k: int| #[trigger] differ_first_at(a0, b0, k) && a0[k] < b0[k];
        assert(differ_first_at(a, b, k) && a[k] < b[k]);
    } else {
        assert(m / 10 == n / 10);
        assert(differ_first_at(a, b, w as int) && a[w as int] < b[w as int]);
    }
}

/// More digits never make a number smaller.
proof fn lemma_value_of_prefix(s: Seq<u8>, k: int)
    requires
        0 <= k <= s.len(),
        all_digits(s),
    ensures
        value(s.take(k)) <= value(s),
    decreases s.len() - k,
{
    if k == s.len() {
        assert(s.take(k) =~= s);
    } else {
        lemma_value_of_prefix(s, k + 1);
        assert(s.take(k + 1).drop_last() =~= s.take(k));
    }
}

/// Reading back what was padded gives the number again.
pub proof fn lemma_parse_padded(n: u64)
    ensures
        parsed(padded(n as nat, SEQ_WIDTH as nat)) == Some(n),
{
    lemma_u64_fits(n);
    lemma_padded_value(n as nat, SEQ_WIDTH as nat);
    let s = padded(n as nat, SEQ_WIDTH as nat);
    assert(is_digit(s[0]));
}

/// The byte at each place is the digit that counts the power of ten of that
/// place.
pub proof fn lemma_padded_digits(n: nat, width: nat)
    ensures
        padded(n, width).len() == width,
        forall|i: int|
            0 <= i < width ==> #[trigger] padded(n, width)[i] == 0x30 + (n as int / power::pow(
                10,
                (width - 1 - i) as nat,
            )) % 10,
    decreases width,
{
    reveal(power::pow);
    if width > 0 {
        let w = (width - 1) as nat;
        lemma_padded_digits(n / 10, w);
        assert forall|i: int| 0 <= i < width implies #[trigger] padded(n, width)[i] == 0x30 + (
        n as int / power::pow(10, (width - 1 - i) as nat)) % 10 by {
            if i < w {
                let e = (w - 1 - i) as nat;
                assert(padded(n, width)[i] == padded(n / 10, w)[i]);
                power::lemma_pow_positive(10, e);
                div_mod::lemma_div_denominator(n as int, 10, power::pow(10, e));
                assert(power::pow(10, (e + 1) as nat) == 10 * power::pow(10, e));
            }
        }
    }
}

/// A number is written with twenty decimal digits: the last byte counts the
/// ones, the byte before it the tens, and so on.
pub proof fn law_written_in_decimal(n: u64, res: Vec<u8>)
    requires
        call_ensures(zero_padded, (n,), res),
    ensures
        res@.len() == 20,
        forall|i: int|
            0 <= i < 20 ==> #[trigger] res@[i] == 0x30 + (n as int / power::pow(10, (19 - i) as nat)) % 10,
        forall|i: int| 0 <= i < 20 ==> 0x30 <= #[trigger] res@[i] <= 0x39,
{
}

/// A byte that is no digit makes a byte string no number, unless it is a plus
/// sign in front.
pub proof fn lemma_other_bytes(s: Seq<u8>)
    ensures
        s.len() == 0 ==> parsed(s) is None,
        forall|i: int|
            0 <= i < s.len() && !(i == 0 && s[0] == 0x2b) && !(0x30 <= #[trigger] s[i] <= 0x39)
                ==> parsed(s) is None,
{
    let d = unsigned_part(s);
    assert forall|i: int|
        0 <= i < s.len() && !(i == 0 && s[0] == 0x2b) && !(0x30 <= #[trigger] s[i]
            <= 0x39) implies parsed(s) is None by {
        let k = i - (s.len() - d.len());
        assert(d[k] == s[i]);
        assert(!is_digit(d[k]));
    }
}

/// Only digits make a number: any other byte, but for a plus sign in front,
/// makes a byte string none, and so does having no digit at all.
pub proof fn law_only_digits_make_a_number(s: &[u8], i: int, res: Option<u64>)
    requires
        call_ensures(parse_u64, (s,), res),
    ensures
        s@.len() == 0 ==> res is None,
        s@ == seq![0x2bu8] ==> res is None,
        0 <= i < s@.len() && !(i == 0 && s@[0] == 0x2b) && !(0x30 <= s@[i] <= 0x39) ==> res is None,
{
    if s@ == seq![0x2bu8] {
        assert(unsigned_part(s@).len() == 0);
    }
}

/// What reading gives for a byte string and for the same with one byte more.
///
/// A single digit denotes itself, also behind a plus sign. Each further digit
/// multiplies by ten and adds itself. Whatever is not a number, or too large,
/// stays so, and so does a number after which another byte comes.
pub proof fn law_read_in_decimal(
    short: &[u8],
    long: &[u8],
    b: u8,
    before: Option<u64>,
    after: Option<u64>,
)
    requires
        call_ensures(parse_u64, (short,), before),
        call_ensures(parse_u64, (long,), after),
        long@ == short@.push(b),
    ensures
        short@.len() == 0 ==> before is None,
        short@ == seq![0x2bu8] ==> before is None,
        after is Some ==> 0x30 <= b <= 0x39,
        (short@.len() == 0 || short@ == seq![0x2bu8]) && 0x30 <= b <= 0x39 ==> after == Some(
            (b - 0x30) as u64,
        ),
        short@.len() > 0 && short@ != seq![0x2bu8] && before is None ==> after is None,
        0x30 <= b <= 0x39 ==> match before {
            Some(v) => after == if v * 10 + (b - 0x30) <= u64::MAX {
                Some((v * 10 + (b - 0x30)) as u64)
            } else {
                None
            },
            None => true,
        },
{
    let d = unsigned_part(short@);
    let e = unsigned_part(long@);
    if short@.len() > 0 {
        assert(long@[0] == short@[0]);
        assert(e =~= d.push(b));
    } else {
        assert(long@ =~= seq![b]);
    }
    if short@ == seq![0x2bu8] {
        assert(d.len() == 0);
    }
    if short@.len() > 0 && d.len() == 0 {
        assert(short@ =~= seq![0x2bu8]);
    }
    if e.len() > 0 {
        assert(e.last() == b || short@.len() == 0);
        if all_digits(e) {
            assert(is_digit(e.last()));
            assert(e.drop_last() =~= d || short@.len() == 0);
            lemma_value_of_prefix(e, e.len() - 1);
            assert(e.take(e.len() - 1) =~= e.drop_last());
            assert forall|i: int| 0 <= i < d.len() implies is_digit(#[trigger] d[i]) by {
                assert(d[i] == e[i]);
            }
        }
        if all_digits(d) && 0x30 <= b <= 0x39 {
            assert forall|i: int| 0 <= i < e.len() implies is_digit(#[trigger] e[i]) by {
                if i < d.len() {
                    assert(d[i] == e[i]);
                }
            }
        }
        reveal_with_fuel(value, 2);
    }
}

/// Writes `n` in decimal with [`SEQ_WIDTH`] digits.
pub fn zero_padded(n: u64) -> (res: Vec<u8>)
    ensures
        res@ == padded(n as nat, SEQ_WIDTH as nat),
        res@.len() == SEQ_WIDTH,
        all_digits(res@),
        value(res@) == n,
        res@.len() == 20,
        forall|i: int|
            0 <= i < 20 ==> #[trigger] res@[i] == 0x30 + (n as int / power::pow(10, (19 - i) as nat)) % 10,
{
    let mut digits: Vec<u8> = vec!['0' as u8; SEQ_WIDTH];
    let mut rest: u64 = n;
    let mut i: usize = SEQ_WIDTH;
    while i > 0
        invariant
            i <= SEQ_WIDTH,
            digits@.len() == SEQ_WIDTH,
            padded(n as nat, SEQ_WIDTH as nat) == padded(rest as nat, i as nat) + digits@.skip(
                i as int,
            ),
        decreases i,
    {
        let ghost before = digits@;
        let digit: u8 = '0' as u8 + (rest % 10) as u8;
        i = i - 1;
        digits.set(i, digit);
        proof {
            assert(digits@.skip(i as int) =~= seq![digit] + before.skip(i + 1));
            assert(padded(rest as nat, (i + 1) as nat) == padded(
                rest as nat / 10,
                i as nat,
            ).push(digit));
            assert(padded(rest as nat, (i + 1) as nat) + before.skip(i + 1) =~= padded(
                rest as nat / 10,
                i as nat,
            ) + digits@.skip(i as int));
        }
        rest = rest / 10;
    }
    proof {
        assert(digits@.skip(0) =~= digits@);
        assert(padded(rest as nat, 0) + digits@ =~= digits@);
        lemma_u64_fits(n);
        lemma_padded_value(n as nat, SEQ_WIDTH as nat);
        lemma_padded_digits(n as nat, SEQ_WIDTH as nat);
    }
    digits
}

/// Reads a `u64` in decimal, with an optional plus sign in front.
///
/// Gives `None` when there is no digit, when another byte occurs, and when the
/// number does not fit.
pub fn parse_u64(s: &[u8]) -> (res: Option<u64>)
    ensures
        res == parsed(s@),
        s@.len() == 0 ==> res is None,
        forall|i: int|
            0 <= i < s@.len() && !(i == 0 && s@[0] == 0x2b) && !(0x30 <= #[trigger] s@[i] <= 0x39)
                ==> res is None,
{
    proof {
        lemma_other_bytes(s@);
    }
    let mut i: usize = 0;
    if s.len() > 0 && s[0] == '+' as u8 {
        i = 1;
    }
    let start: usize = i;
    let ghost digits = unsigned_part(s@);
    assert(digits =~= s@.skip(start as int));
    if i == s.len() {
        return None;
    }
    let mut acc: u64 = 0;
    while i < s.len()
        invariant
            start <= i <= s@.len(),
            digits == s@.skip(start as int),
            digits == unsigned_part(s@),
            all_digits(digits.take(i - start)),
            acc == value(digits.take(i - start)),
        decreases s@.len() - i,
    {
        let b = s[i];
        let ghost k = i - start;
        assert(digits[k] == b);
        if b < '0' as u8 || b > '9' as u8 {
            assert(!is_digit(digits[k]));
            return None;
        }
        let d: u64 = (b - '0' as u8) as u64;
        proof {
            assert(digits.take(k + 1).drop_last() =~= digits.take(k));
            assert(value(digits.take(k + 1)) == acc * 10 + d);
            if all_digits(digits) {
                lemma_value_of_prefix(digits, k + 1);
            }
        }
        if acc > (u64::MAX - d) / 10 {
            assert(acc * 10 + d > u64::MAX);
            return None;
        }
        acc = acc * 10 + d;
        i = i + 1;
        assert forall|j: int| 0 <= j < k + 1 implies is_digit(
            #[trigger] digits.take(k + 1)[j],
        ) by {
            if j < k {
                assert(digits.take(k)[j] == digits.take(k + 1)[j]);
            }
        }
    }
    assert(digits.take(i - start) =~= digits);
    Some(acc)
}

} // verus!
