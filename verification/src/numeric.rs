//! The language's numeric domain: signed fixed-point decimals.
//!
//! A `NumValue` holds a signed count of millionths, so the domain is exact
//! decimal arithmetic with six fractional digits. Literals are parsed with
//! fractional digits beyond the sixth truncated; addition and subtraction are
//! exact; multiplication and division truncate toward zero at the sixth
//! fractional digit; a result outside the representable range is reported to
//! the caller rather than wrapped.

use crate::text::string_from_chars;
use vstd::prelude::*;

verus! {

/// Millionths per whole unit.
pub const SCALE: u64 = 1_000_000;

#[derive(Clone, Copy, PartialEq, Eq, Structural, Debug)]
pub struct NumValue {
    pub micros: i64,
}

impl View for NumValue {
    type V = int;

    open spec fn view(&self) -> int {
        self.micros as int
    }
}

/// The counts of millionths that fit in the representation.
pub open spec fn in_range(m: int) -> bool {
    i64::MIN <= m <= i64::MAX
}

pub open spec fn abs_i(m: int) -> int {
    if m < 0 {
        -m
    } else {
        m
    }
}

/// Truncating-toward-zero product of two counts of millionths.
pub open spec fn mul_micros(a: int, b: int) -> int {
    let p = (abs_i(a) * abs_i(b)) / (SCALE as int);
    if (a < 0) != (b < 0) {
        -p
    } else {
        p
    }
}

/// Truncating-toward-zero quotient of two counts of millionths.
pub open spec fn div_micros(a: int, b: int) -> int {
    let p = (abs_i(a) * (SCALE as int)) / abs_i(b);
    if (a < 0) != (b < 0) {
        -p
    } else {
        p
    }
}

// ---------------------------------------------------------------------------
// Decimal digits
// ---------------------------------------------------------------------------
pub open spec fn is_digit_char(c: char) -> bool {
    ('0' as u32) <= (c as u32) && (c as u32) <= ('9' as u32)
}

pub open spec fn digit_val(c: char) -> int {
    (c as u32) - ('0' as u32)
}

pub open spec fn digit_char(d: int) -> char {
    if d == 0 {
        '0'
    } else if d == 1 {
        '1'
    } else if d == 2 {
        '2'
    } else if d == 3 {
        '3'
    } else if d == 4 {
        '4'
    } else if d == 5 {
        '5'
    } else if d == 6 {
        '6'
    } else if d == 7 {
        '7'
    } else if d == 8 {
        '8'
    } else {
        '9'
    }
}

pub open spec fn is_dot_char(c: char) -> bool {
    (c as u32) == 46
}

pub open spec fn is_minus_char(c: char) -> bool {
    (c as u32) == 45
}

pub open spec fn pow10(k: nat) -> nat
    decreases k,
{
    if k == 0 {
        1
    } else {
        10 * pow10((k - 1) as nat)
    }
}

/// The value of a string of decimal digits, most significant first.
pub open spec fn digits_val(s: Seq<char>) -> nat
    decreases s.len(),
{
    if s.len() == 0 {
        0
    } else {
        digits_val(s.drop_last()) * 10 + (digit_val(s.last()) as nat)
    }
}

pub open spec fn all_digits(s: Seq<char>) -> bool {
    forall|i: int| 0 <= i < s.len() ==> is_digit_char(s[i])
}

proof fn lemma_digits_val_upper(s: Seq<char>)
    requires
        all_digits(s),
    ensures
        digits_val(s) < pow10(s.len()),
    decreases s.len(),
{
    if s.len() > 0 {
        lemma_digits_val_upper(s.drop_last());
        assert(digit_val(s.last()) <= 9);
    }
}

proof fn lemma_digits_val_lower(s: Seq<char>)
    requires
        all_digits(s),
        s.len() > 0,
        digit_val(s[0]) >= 1,
    ensures
        digits_val(s) >= pow10((s.len() - 1) as nat),
    decreases s.len(),
{
    if s.len() == 1 {
        assert(s.last() == s[0]);
        assert(pow10(0) == 1);
    } else {
        assert(s.drop_last()[0] == s[0]);
        lemma_digits_val_lower(s.drop_last());
        assert(digit_val(s.last()) >= 0);
    }
}

proof fn lemma_digits_val_skip_zero(s: Seq<char>)
    requires
        s.len() > 0,
        digit_val(s[0]) == 0,
    ensures
        digits_val(s) == digits_val(s.skip(1)),
    decreases s.len(),
{
    if s.len() == 1 {
        assert(s.skip(1).len() == 0);
        assert(s.last() == s[0]);
    } else {
        assert(s.drop_last()[0] == s[0]);
        lemma_digits_val_skip_zero(s.drop_last());
        assert(s.skip(1).drop_last() =~= s.drop_last().skip(1));
        assert(s.skip(1).last() == s.last());
        assert(digits_val(s.skip(1)) == digits_val(s.skip(1).drop_last()) * 10 + (digit_val(
            s.skip(1).last(),
        ) as nat));
        assert(digits_val(s) == digits_val(s.drop_last()) * 10 + (digit_val(s.last()) as nat));
    }
}

pub open spec fn zero_chars(k: nat) -> Seq<char> {
    Seq::new(k, |i: int| '0')
}

proof fn lemma_digits_val_append_zeros(s: Seq<char>, k: nat)
    ensures
        digits_val(s + zero_chars(k)) == digits_val(s) * pow10(k),
    decreases k,
{
    if k == 0 {
        assert(s + zero_chars(0) =~= s);
        assert(pow10(0) == 1);
        assert(digits_val(s + zero_chars(0)) == digits_val(s) * pow10(0));
    } else {
        lemma_digits_val_append_zeros(s, (k - 1) as nat);
        let t = s + zero_chars(k);
        assert(t.last() == '0');
        assert(digit_val('0') == 0);
        assert(t.drop_last() =~= s + zero_chars((k - 1) as nat));
        assert(digits_val(t) == digits_val(t.drop_last()) * 10 + (digit_val(t.last()) as nat));
        assert(digits_val(t.drop_last()) == digits_val(s) * pow10((k - 1) as nat));
        let a = digits_val(s) as int;
        let p = pow10((k - 1) as nat) as int;
        assert(digits_val(t) as int == a * p * 10);
        assert(pow10(k) as int == 10 * p);
        assert(a * p * 10 == a * (10 * p)) by (nonlinear_arith);
        assert(digits_val(t) as int == a * (pow10(k) as int));
        assert(digits_val(s + zero_chars(k)) == digits_val(s) * pow10(k));
    }
}

// ---------------------------------------------------------------------------
// Parsing
// ---------------------------------------------------------------------------
/// Index of the first `.` in `t`, or `t.len()` when there is none.
pub open spec fn first_dot(t: Seq<char>) -> int
    decreases t.len(),
{
    if t.len() == 0 {
        0
    } else if is_dot_char(t[0]) {
        0
    } else {
        1 + first_dot(t.skip(1))
    }
}

proof fn lemma_first_dot(t: Seq<char>)
    ensures
        0 <= first_dot(t) <= t.len(),
        forall|k: int| 0 <= k < first_dot(t) ==> !is_dot_char(t[k]),
        first_dot(t) < t.len() ==> is_dot_char(t[first_dot(t)]),
    decreases t.len(),
{
    if t.len() > 0 && !is_dot_char(t[0]) {
        lemma_first_dot(t.skip(1));
        assert forall|k: int| 0 <= k < first_dot(t) implies !is_dot_char(t[k]) by {
            if k > 0 {
                assert(!is_dot_char(t.skip(1)[k - 1]));
            }
        }
    }
}

pub open spec fn dot_count(t: Seq<char>) -> nat
    decreases t.len(),
{
    if t.len() == 0 {
        0
    } else {
        dot_count(t.drop_last()) + (if is_dot_char(t.last()) {
            1nat
        } else {
            0nat
        })
    }
}

pub open spec fn digit_count(t: Seq<char>) -> nat
    decreases t.len(),
{
    if t.len() == 0 {
        0
    } else {
        digit_count(t.drop_last()) + (if is_digit_char(t.last()) {
            1nat
        } else {
            0nat
        })
    }
}

/// The digits-and-dot part of a numeric literal: everything after an optional
/// leading minus sign.
pub open spec fn num_body(s: Seq<char>) -> Seq<char> {
    if s.len() > 0 && is_minus_char(s[0]) {
        s.skip(1)
    } else {
        s
    }
}

pub open spec fn num_is_neg(s: Seq<char>) -> bool {
    s.len() > 0 && is_minus_char(s[0])
}

/// A well-formed numeric literal: an optional minus sign, then digits with at
/// most one decimal point and at least one digit.
pub open spec fn num_shape_ok(s: Seq<char>) -> bool {
    let t = num_body(s);
    &&& t.len() > 0
    &&& forall|i: int| 0 <= i < t.len() ==> is_digit_char(t[i]) || is_dot_char(t[i])
    &&& dot_count(t) <= 1
    &&& digit_count(t) >= 1
}

/// The integer-part digits of a literal body.
pub open spec fn int_part(t: Seq<char>) -> Seq<char> {
    t.take(first_dot(t))
}

/// The fractional-part digits of a literal body.
pub open spec fn frac_part(t: Seq<char>) -> Seq<char> {
    if first_dot(t) < t.len() {
        t.skip(first_dot(t) + 1)
    } else {
        Seq::empty()
    }
}

/// The fractional digits cut or zero-padded to exactly six places.
pub open spec fn pad6(f: Seq<char>) -> Seq<char> {
    if f.len() >= 6 {
        f.take(6)
    } else {
        f + zero_chars((6 - f.len()) as nat)
    }
}

/// The magnitude, in millionths, named by a literal body.
pub open spec fn num_mag(t: Seq<char>) -> nat {
    digits_val(int_part(t)) * (SCALE as nat) + digits_val(pad6(frac_part(t)))
}

/// The count of millionths named by a numeric literal, before the range check.
pub open spec fn num_value_of(s: Seq<char>) -> int {
    if num_is_neg(s) {
        -(num_mag(num_body(s)) as int)
    } else {
        num_mag(num_body(s)) as int
    }
}

/// What parsing a numeric literal yields: its value in millionths, or nothing
/// when the text is not a well-formed literal or the value does not fit.
pub open spec fn parse_num(s: Seq<char>) -> Option<int> {
    if num_shape_ok(s) && in_range(num_value_of(s)) {
        Some(num_value_of(s))
    } else {
        None
    }
}


// ---------------------------------------------------------------------------
// Small executable helpers
// ---------------------------------------------------------------------------
fn digit_to_char(d: u64) -> (c: char)
    requires
        d <= 9,
    ensures
        c == digit_char(d as int),
{
    match d {
        0 => '0',
        1 => '1',
        2 => '2',
        3 => '3',
        4 => '4',
        5 => '5',
        6 => '6',
        7 => '7',
        8 => '8',
        _ => '9',
    }
}

fn digit_of_char(c: char) -> (d: u64)
    requires
        is_digit_char(c),
    ensures
        d as int == digit_val(c),
        d <= 9,
{
    (c as u32 - 48) as u64
}

fn pow10_u64(k: u64) -> (r: u64)
    requires
        k <= 13,
    ensures
        r as nat == pow10(k as nat),
{
    proof {
        reveal_with_fuel(pow10, 15);
    }
    match k {
        0 => 1,
        1 => 10,
        2 => 100,
        3 => 1_000,
        4 => 10_000,
        5 => 100_000,
        6 => 1_000_000,
        7 => 10_000_000,
        8 => 100_000_000,
        9 => 1_000_000_000,
        10 => 10_000_000_000,
        11 => 100_000_000_000,
        12 => 1_000_000_000_000,
        _ => 10_000_000_000_000,
    }
}

proof fn lemma_pow10_mono(a: nat, b: nat)
    requires
        a <= b,
    ensures
        pow10(a) <= pow10(b),
    decreases b,
{
    if a < b {
        lemma_pow10_mono(a, (b - 1) as nat);
        assert(pow10(b) == 10 * pow10((b - 1) as nat));
    }
}

proof fn lemma_dot_count_pos(t: Seq<char>, a: int)
    requires
        0 <= a < t.len(),
        is_dot_char(t[a]),
    ensures
        dot_count(t) >= 1,
    decreases t.len(),
{
    if a < t.len() - 1 {
        lemma_dot_count_pos(t.drop_last(), a);
    }
}

proof fn lemma_dot_count_two(t: Seq<char>, a: int, b: int)
    requires
        0 <= a < b < t.len(),
        is_dot_char(t[a]),
        is_dot_char(t[b]),
    ensures
        dot_count(t) >= 2,
    decreases t.len(),
{
    if b == t.len() - 1 {
        lemma_dot_count_pos(t.drop_last(), a);
    } else {
        lemma_dot_count_two(t.drop_last(), a, b);
    }
}

// ---------------------------------------------------------------------------
// Arithmetic
// ---------------------------------------------------------------------------
impl NumValue {
    pub fn from_micros(micros: i64) -> (r: NumValue)
        ensures
            r@ == micros as int,
    {
        NumValue { micros }
    }

    /// The value `units`, a whole number of units.
    pub fn from_units(units: i64) -> (r: NumValue)
        requires
            in_range(units * (SCALE as int)),
        ensures
            r@ == units * (SCALE as int),
    {
        NumValue { micros: units * (SCALE as i64) }
    }

    pub open spec fn is_zero_spec(&self) -> bool {
        self@ == 0
    }

    #[verifier::when_used_as_spec(is_zero_spec)]
    pub fn is_zero(&self) -> (r: bool)
        ensures
            r == (self@ == 0),
    {
        self.micros == 0
    }

    /// The magnitude of the value, as a count of millionths.
    fn magnitude(&self) -> (m: u64)
        ensures
            m as int == abs_i(self@),
    {
        if self.micros >= 0 {
            self.micros as u64
        } else {
            (-(self.micros as i128)) as u64
        }
    }

    /// Rebuild a value from a sign and a magnitude in millionths, refusing a
    /// magnitude outside the representable range.
    fn from_sign_magnitude(neg: bool, mag: u128) -> (r: Option<NumValue>)
        ensures
            match r {
                Some(v) => {
                    &&& v@ == if neg { -(mag as int) } else { mag as int }
                    &&& in_range(if neg { -(mag as int) } else { mag as int })
                },
                None => !in_range(if neg { -(mag as int) } else { mag as int }),
            },
    {
        if neg {
            if mag <= 9_223_372_036_854_775_808u128 {
                Some(NumValue { micros: (-(mag as i128)) as i64 })
            } else {
                None
            }
        } else {
            if mag <= 9_223_372_036_854_775_807u128 {
                Some(NumValue { micros: mag as i64 })
            } else {
                None
            }
        }
    }

    /// Exact sum; `None` when the result does not fit.
    pub fn checked_add(self, rhs: NumValue) -> (r: Option<NumValue>)
        ensures
            match r {
                Some(v) => in_range(self@ + rhs@) && v@ == self@ + rhs@,
                None => !in_range(self@ + rhs@),
            },
    {
        let sum: i128 = self.micros as i128 + rhs.micros as i128;
        if i64::MIN as i128 <= sum && sum <= i64::MAX as i128 {
            Some(NumValue { micros: sum as i64 })
        } else {
            None
        }
    }

    /// Exact difference; `None` when the result does not fit.
    pub fn checked_sub(self, rhs: NumValue) -> (r: Option<NumValue>)
        ensures
            match r {
                Some(v) => in_range(self@ - rhs@) && v@ == self@ - rhs@,
                None => !in_range(self@ - rhs@),
            },
    {
        let diff: i128 = self.micros as i128 - rhs.micros as i128;
        if i64::MIN as i128 <= diff && diff <= i64::MAX as i128 {
            Some(NumValue { micros: diff as i64 })
        } else {
            None
        }
    }

    /// Product, truncated toward zero at the sixth fractional digit; `None`
    /// when the result does not fit.
    pub fn checked_mul(self, rhs: NumValue) -> (r: Option<NumValue>)
        ensures
            match r {
                Some(v) => in_range(mul_micros(self@, rhs@)) && v@ == mul_micros(self@, rhs@),
                None => !in_range(mul_micros(self@, rhs@)),
            },
    {
        let am: u128 = self.magnitude() as u128;
        let bm: u128 = rhs.magnitude() as u128;
        proof {
            assert(am * bm <= 0x8000_0000_0000_0000u128 * 0x8000_0000_0000_0000u128)
                by (nonlinear_arith)
                requires
                    am <= 0x8000_0000_0000_0000u128,
                    bm <= 0x8000_0000_0000_0000u128,
            ;
        }
        let prod: u128 = am * bm;
        let q: u128 = prod / (SCALE as u128);
        let neg: bool = (self.micros < 0) != (rhs.micros < 0);
        Self::from_sign_magnitude(neg, q)
    }

    /// Quotient, truncated toward zero at the sixth fractional digit; `None`
    /// when the result does not fit. The divisor must not be zero.
    pub fn checked_div(self, rhs: NumValue) -> (r: Option<NumValue>)
        requires
            rhs@ != 0,
        ensures
            match r {
                Some(v) => in_range(div_micros(self@, rhs@)) && v@ == div_micros(self@, rhs@),
                None => !in_range(div_micros(self@, rhs@)),
            },
    {
        let am: u128 = self.magnitude() as u128;
        let bm: u128 = rhs.magnitude() as u128;
        proof {
            assert(am * (SCALE as u128) <= 0x8000_0000_0000_0000u128 * 1_000_000)
                by (nonlinear_arith)
                requires
                    am <= 0x8000_0000_0000_0000u128,
            ;
        }
        let num: u128 = am * (SCALE as u128);
        let q: u128 = num / bm;
        let neg: bool = (self.micros < 0) != (rhs.micros < 0);
        Self::from_sign_magnitude(neg, q)
    }
}


proof fn lemma_pow10_add(a: nat, b: nat)
    ensures
        pow10(a + b) == pow10(a) * pow10(b),
    decreases b,
{
    if b == 0 {
        assert(pow10(a + 0) == pow10(a) * 1);
    } else {
        lemma_pow10_add(a, (b - 1) as nat);
        assert(pow10(a + b) == 10 * pow10((a + b - 1) as nat));
        assert(pow10(b) == 10 * pow10((b - 1) as nat));
        assert(10 * (pow10(a) * pow10((b - 1) as nat)) == pow10(a) * (10 * pow10(
            (b - 1) as nat,
        ))) by (nonlinear_arith);
    }
}

/// Parse the characters of a numeric literal.
#[verifier::rlimit(100)]
pub fn parse_num_value(chars: &Vec<char>) -> (r: Option<NumValue>)
    ensures
        match r {
            Some(v) => parse_num(chars@) == Some(v@),
            None => parse_num(chars@) is None,
        },
{
    let ghost s = chars@;
    let n: usize = chars.len();
    let neg: bool = n > 0 && (chars[0] as u32) == 45;
    proof {
        assert(neg == num_is_neg(s));
    }
    let b: usize = if neg {
        1
    } else {
        0
    };
    let ghost t = num_body(s);
    proof {
        assert(t =~= s.skip(b as int));
    }
    if n == b {
        return None;
    }
    // First pass: every character must be a digit or a dot; find the first
    // dot and count digits and dots.
    let mut i: usize = b;
    let mut fd: usize = n;
    let mut ndots: u64 = 0;
    let mut ndigits: u64 = 0;
    while i < n
        invariant
            s == chars@,
            n == s.len(),
            b <= i <= n,
            b == if num_is_neg(s) {
                1int
            } else {
                0int
            },
            t == num_body(s),
            t =~= s.skip(b as int),
            ndots as nat == dot_count(t.take((i - b) as int)),
            ndigits as nat == digit_count(t.take((i - b) as int)),
            ndots <= i,
            ndigits <= i,
            forall|k: int| 0 <= k < i - b ==> is_digit_char(t[k]) || is_dot_char(t[k]),
            (fd == n && (forall|k: int| 0 <= k < i - b ==> !is_dot_char(t[k]))) || (b <= fd && fd
                < i && is_dot_char(t[fd - b]) && (forall|k: int|
                0 <= k < fd - b ==> !is_dot_char(t[k]))),
        decreases n - i,
    {
        let c: char = chars[i];
        let cc: u32 = c as u32;
        proof {
            assert(t[(i - b) as int] == s[i as int]);
            assert(t.take((i - b + 1) as int).drop_last() =~= t.take((i - b) as int));
            assert(t.take((i - b + 1) as int).last() == t[(i - b) as int]);
        }
        if 48 <= cc && cc <= 57 {
            ndigits = ndigits + 1;
        } else if cc == 46 {
            if fd == n {
                fd = i;
            }
            ndots = ndots + 1;
        } else {
            proof {
                assert(!is_digit_char(t[(i - b) as int]) && !is_dot_char(t[(i - b) as int]));
                assert(!num_shape_ok(s));
            }
            return None;
        }
        i = i + 1;
    }
    proof {
        assert(t.take((n - b) as int) =~= t);
    }
    if ndots > 1 {
        proof {
            assert(dot_count(t) > 1);
            assert(!num_shape_ok(s));
        }
        return None;
    }
    if ndigits == 0 {
        proof {
            assert(digit_count(t) == 0);
            assert(!num_shape_ok(s));
        }
        return None;
    }
    proof {
        assert(num_shape_ok(s));
        lemma_first_dot(t);
        if fd == n {
            assert(first_dot(t) == t.len()) by {
                if first_dot(t) < t.len() {
                    assert(is_dot_char(t[first_dot(t)]));
                }
            }
        } else {
            assert(first_dot(t) == fd - b) by {
                if first_dot(t) < fd - b {
                    assert(!is_dot_char(t[first_dot(t)]));
                } else if first_dot(t) > fd - b {
                    assert(!is_dot_char(t[fd - b]));
                }
            }
        }
        // With at most one dot, everything after the first dot is a digit.
        assert forall|k: int| 0 <= k < t.len() && k != first_dot(t) implies !is_dot_char(
            t[k],
        ) by {
            if is_dot_char(t[k]) && first_dot(t) < t.len() {
                if k < first_dot(t) {
                    lemma_dot_count_two(t, k, first_dot(t));
                } else {
                    lemma_dot_count_two(t, first_dot(t), k);
                }
            } else if is_dot_char(t[k]) {
                assert(false);
            }
        }
    }
    let fdt: usize = if fd == n {
        n - b
    } else {
        fd - b
    };
    proof {
        assert(fdt as int == first_dot(t));
    }
    let ghost ipart = int_part(t);
    proof {
        assert(ipart =~= t.take(fdt as int));
        assert(all_digits(ipart));
    }
    // Skip leading zeros of the integer part.
    proof {
        assert(ipart.skip(0) =~= ipart);
    }
    let mut z: usize = 0;
    while z < fdt && (chars[b + z] as u32) == 48
        invariant
            s == chars@,
            n == s.len(),
            b + fdt <= n,
            0 <= z <= fdt,
            t == num_body(s),
            t =~= s.skip(b as int),
            ipart == int_part(t),
            ipart =~= t.take(fdt as int),
            all_digits(ipart),
            digits_val(ipart.skip(z as int)) == digits_val(ipart),
        decreases fdt - z,
    {
        proof {
            assert(ipart.skip(z as int)[0] == s[(b + z) as int]);
            assert(digit_val(ipart.skip(z as int)[0]) == 0);
            lemma_digits_val_skip_zero(ipart.skip(z as int));
            assert(ipart.skip(z as int).skip(1) =~= ipart.skip((z + 1) as int));
        }
        z = z + 1;
    }
    let ghost core = ipart.skip(z as int);
    let core_len: usize = fdt - z;
    proof {
        assert(core.len() == core_len);
        assert(all_digits(core)) by {
            assert(forall|k: int|
                0 <= k < core.len() ==> core[k] == ipart[k + z] && is_digit_char(ipart[k + z]));
        }
    }
    if core_len > 13 {
        proof {
            assert(core[0] == ipart[z as int] == s[(b + z) as int]);
            assert(digit_val(core[0]) >= 1);
            lemma_digits_val_lower(core);
            lemma_pow10_mono(13, (core_len - 1) as nat);
            reveal_with_fuel(pow10, 15);
            assert(digits_val(ipart) >= 10_000_000_000_000);
            assert(num_mag(t) >= digits_val(ipart) * (SCALE as nat));
            assert(digits_val(ipart) * (SCALE as nat) >= 10_000_000_000_000 * 1_000_000);
            assert(!in_range(num_value_of(s)));
        }
        return None;
    }
    // Accumulate the integer part.
    let mut acc: u64 = 0;
    let mut j: usize = 0;
    while j < core_len
        invariant
            s == chars@,
            n == s.len(),
            b + z + core_len <= b + fdt <= n,
            0 <= j <= core_len <= 13,
            t == num_body(s),
            t =~= s.skip(b as int),
            ipart == int_part(t),
            ipart =~= t.take(fdt as int),
            core == ipart.skip(z as int),
            core.len() == core_len,
            all_digits(core),
            acc as nat == digits_val(core.take(j as int)),
            (acc as nat) < pow10(j as nat),
        decreases core_len - j,
    {
        proof {
            assert(core[j as int] == ipart[(z + j) as int] == s[(b + z + j) as int]);
        }
        let c: char = chars[b + z + j];
        let d: u64 = digit_of_char(c);
        proof {
            assert(core.take((j + 1) as int).drop_last() =~= core.take(j as int));
            assert(core.take((j + 1) as int).last() == core[j as int]);
            lemma_pow10_mono((j + 1) as nat, 13);
            reveal_with_fuel(pow10, 15);
            assert(pow10((j + 1) as nat) == 10 * pow10(j as nat));
        }
        acc = acc * 10 + d;
        j = j + 1;
    }
    proof {
        assert(core.take(core_len as int) =~= core);
        assert(acc as nat == digits_val(core));
        assert(digits_val(ipart) == acc as nat);
        lemma_pow10_mono(core_len as nat, 13);
        reveal_with_fuel(pow10, 15);
        assert(acc < 10_000_000_000_000);
    }
    // Accumulate the fractional part, truncated to six digits.
    let ghost fpart = frac_part(t);
    let mut frac6: u64 = 0;
    if fd < n {
        let fstart: usize = b + fdt + 1;
        let flen: usize = n - fstart;
        proof {
            assert(fpart =~= s.skip(fstart as int));
            assert(fpart.len() == flen);
            assert(all_digits(fpart)) by {
                assert(forall|k: int|
                    0 <= k < fpart.len() ==> fpart[k] == t[k + fdt + 1] && !is_dot_char(t[k + fdt
                        + 1]));
            }
        }
        let mtot: usize = if flen >= 6 {
            6
        } else {
            flen
        };
        let mut facc: u64 = 0;
        let mut m: usize = 0;
        while m < mtot
            invariant
                s == chars@,
                n == s.len(),
                fstart + flen == n,
                0 <= m <= mtot <= 6,
                mtot <= flen,
                t == num_body(s),
                t =~= s.skip(b as int),
                fpart == frac_part(t),
                fpart =~= s.skip(fstart as int),
                fpart.len() == flen,
                all_digits(fpart),
                facc as nat == digits_val(fpart.take(m as int)),
                (facc as nat) < pow10(m as nat),
            decreases mtot - m,
        {
            proof {
                assert(fpart[m as int] == s[(fstart + m) as int]);
            }
            let c: char = chars[fstart + m];
            let d: u64 = digit_of_char(c);
            proof {
                assert(fpart.take((m + 1) as int).drop_last() =~= fpart.take(m as int));
                assert(fpart.take((m + 1) as int).last() == fpart[m as int]);
                lemma_pow10_mono((m + 1) as nat, 6);
                reveal_with_fuel(pow10, 8);
                assert(pow10((m + 1) as nat) == 10 * pow10(m as nat));
            }
            facc = facc * 10 + d;
            m = m + 1;
        }
        if flen >= 6 {
            proof {
                assert(fpart.take(6) =~= pad6(fpart));
                reveal_with_fuel(pow10, 8);
            }
            frac6 = facc;
        } else {
            proof {
                assert(fpart.take(mtot as int) =~= fpart);
                lemma_digits_val_append_zeros(fpart, (6 - flen) as nat);
                assert(pad6(fpart) =~= fpart + zero_chars((6 - flen) as nat));
                lemma_pow10_add(flen as nat, (6 - flen) as nat);
                reveal_with_fuel(pow10, 8);
                assert((facc as nat) * pow10((6 - flen) as nat) < pow10(flen as nat) * pow10(
                    (6 - flen) as nat,
                )) by (nonlinear_arith)
                    requires
                        (facc as nat) < pow10(flen as nat),
                        pow10((6 - flen) as nat) >= 1,
                ;
            }
            frac6 = facc * pow10_u64((6 - flen) as u64);
        }
        proof {
            assert(frac6 as nat == digits_val(pad6(fpart)));
            reveal_with_fuel(pow10, 8);
            assert(frac6 < 1_000_000);
        }
    } else {
        proof {
            assert(fpart =~= Seq::<char>::empty());
            lemma_digits_val_append_zeros(fpart, 6);
            assert(pad6(fpart) =~= fpart + zero_chars(6));
            assert(digits_val(pad6(fpart)) == 0);
        }
    }
    let mag: u64 = acc * 1_000_000 + frac6;
    proof {
        assert(mag as nat == num_mag(t));
        assert(num_value_of(s) == if neg {
            -(mag as int)
        } else {
            mag as int
        });
    }
    NumValue::from_sign_magnitude(neg, mag as u128)
}


// ---------------------------------------------------------------------------
// Rendering
// ---------------------------------------------------------------------------
/// The decimal digits of `n`, most significant first.
pub open spec fn dec_digits(n: nat) -> Seq<char>
    decreases n,
{
    if n < 10 {
        seq![digit_char(n as int)]
    } else {
        dec_digits(n / 10).push(digit_char((n % 10) as int))
    }
}

/// The six fractional digit characters of `fp` millionths.
pub open spec fn frac_digit_chars(fp: nat) -> Seq<char> {
    Seq::new(6, |i: int| digit_char(((fp / pow10((5 - i) as nat)) % 10) as int))
}

/// `s` with its trailing zero characters removed.
pub open spec fn strip_zeros(s: Seq<char>) -> Seq<char>
    decreases s.len(),
{
    if s.len() > 0 && s.last() == '0' {
        strip_zeros(s.drop_last())
    } else {
        s
    }
}

/// The canonical rendering of a count of millionths: an optional minus sign,
/// the integer digits, and, when the fraction is nonzero, a dot followed by
/// the fractional digits with trailing zeros removed.
pub open spec fn num_chars(m: int) -> Seq<char> {
    let mag = abs_i(m) as nat;
    let sign: Seq<char> = if m < 0 {
        seq!['-']
    } else {
        Seq::empty()
    };
    let ip = mag / (SCALE as nat);
    let fp = mag % (SCALE as nat);
    if fp == 0 {
        sign + dec_digits(ip)
    } else {
        sign + dec_digits(ip) + seq!['.'] + strip_zeros(frac_digit_chars(fp))
    }
}

proof fn lemma_strip_zeros_take(s: Seq<char>, j: int)
    requires
        0 <= j <= s.len(),
        forall|k: int| j <= k < s.len() ==> s[k] == '0',
        j > 0 ==> s[j - 1] != '0',
    ensures
        strip_zeros(s) == s.take(j),
    decreases s.len(),
{
    if s.len() > j {
        assert(s.last() == '0');
        lemma_strip_zeros_take(s.drop_last(), j);
        assert(s.drop_last().take(j) =~= s.take(j));
    } else {
        assert(s.take(j) =~= s);
    }
}

/// The decimal digit characters of `x`, most significant first.
pub fn dec_chars_u128(x: u128) -> (r: Vec<char>)
    ensures
        r@ == dec_digits(x as nat),
{
    let mut rev: Vec<char> = Vec::new();
    let mut v: u128 = x;
    loop
        invariant_except_break
            (rev@.len() == 0 && v == x) || (v > 0 && dec_digits(x as nat) == dec_digits(v as nat)
                + rev@.reverse()),
        ensures
            rev@.reverse() == dec_digits(x as nat),
        decreases v,
    {
        let ghost rev0 = rev@;
        let ghost v0 = v;
        let d: u64 = (v % 10) as u64;
        rev.push(digit_to_char(d));
        proof {
            assert(rev@.reverse() =~= seq![digit_char(d as int)] + rev0.reverse());
        }
        v = v / 10;
        if v == 0 {
            proof {
                assert(v0 < 10);
                assert(dec_digits(v0 as nat) == seq![digit_char(d as int)]);
                if rev0.len() == 0 {
                    assert(rev@.reverse() =~= dec_digits(x as nat));
                } else {
                    assert(dec_digits(x as nat) =~= dec_digits(v0 as nat) + rev0.reverse());
                    assert(rev@.reverse() =~= dec_digits(x as nat));
                }
            }
            break ;
        }
        proof {
            assert(v0 >= 10);
            assert(dec_digits(v0 as nat) == dec_digits((v0 as nat) / 10).push(
                digit_char(((v0 as nat) % 10) as int),
            ));
            assert(dec_digits(v0 as nat) =~= dec_digits(v as nat) + seq![digit_char(d as int)]);
            assert(dec_digits(x as nat) =~= dec_digits(v as nat) + rev@.reverse());
        }
    }
    let mut out: Vec<char> = Vec::new();
    let mut j: usize = rev.len();
    while j > 0
        invariant
            0 <= j <= rev@.len(),
            rev@.reverse() == dec_digits(x as nat),
            out@ == rev@.reverse().take((rev@.len() - j) as int),
        decreases j,
    {
        j = j - 1;
        out.push(rev[j]);
        proof {
            assert(rev@.reverse()[(rev@.len() - 1 - j) as int] == rev@[j as int]);
            assert(out@ =~= rev@.reverse().take((rev@.len() - j) as int));
        }
    }
    proof {
        assert(rev@.reverse().take(rev@.len() as int) =~= rev@.reverse());
    }
    out
}

impl NumValue {
    /// The canonical textual rendering of the value.
    pub fn render(&self) -> (r: String)
        ensures
            r@ == num_chars(self@),
    {
        let neg: bool = self.micros < 0;
        let mag: u64 = self.magnitude();
        let ip: u64 = mag / 1_000_000;
        let fp: u64 = mag % 1_000_000;
        let mut out: Vec<char> = Vec::new();
        if neg {
            out.push('-');
        }
        let ghost sign: Seq<char> = if self@ < 0 {
            seq!['-']
        } else {
            Seq::<char>::empty()
        };
        proof {
            assert(out@ =~= sign);
        }
        // Integer digits.
        let ip_digits = dec_chars_u128(ip as u128);
        let ghost out1 = out@;
        let mut j: usize = 0;
        while j < ip_digits.len()
            invariant
                0 <= j <= ip_digits@.len(),
                ip_digits@ == dec_digits(ip as nat),
                out@ == out1 + ip_digits@.take(j as int),
            decreases ip_digits@.len() - j,
        {
            out.push(ip_digits[j]);
            proof {
                assert(out@ =~= out1 + ip_digits@.take((j + 1) as int));
            }
            j = j + 1;
        }
        proof {
            assert(ip_digits@.take(ip_digits@.len() as int) =~= ip_digits@);
            assert(out@ == sign + dec_digits((mag as nat) / (SCALE as nat)));
        }
        if fp > 0 {
            out.push('.');
            // The six fractional digits.
            let mut digs: Vec<char> = Vec::new();
            let mut i: usize = 0;
            while i < 6
                invariant
                    0 <= i <= 6,
                    fp < 1_000_000,
                    digs@.len() == i,
                    forall|k: int|
                        0 <= k < i ==> digs@[k] == digit_char(
                            (((fp as nat) / pow10((5 - k) as nat)) % 10) as int,
                        ),
                decreases 6 - i,
            {
                let p: u64 = pow10_u64((5 - i) as u64);
                proof {
                    reveal_with_fuel(pow10, 8);
                    assert(p >= 1);
                }
                let d: u64 = (fp / p) % 10;
                digs.push(digit_to_char(d));
                i = i + 1;
            }
            proof {
                assert(digs@ =~= frac_digit_chars(fp as nat));
            }
            // Strip trailing zeros.
            let mut j: usize = 6;
            while j > 0 && digs[j - 1] == '0'
                invariant
                    0 <= j <= 6,
                    digs@.len() == 6,
                    digs@ == frac_digit_chars(fp as nat),
                    forall|k: int| j <= k < 6 ==> digs@[k] == '0',
                decreases j,
            {
                j = j - 1;
            }
            proof {
                lemma_strip_zeros_take(digs@, j as int);
            }
            let ghost out2 = out@;
            let mut k: usize = 0;
            while k < j
                invariant
                    0 <= k <= j <= 6,
                    digs@.len() == 6,
                    digs@ == frac_digit_chars(fp as nat),
                    out@ == out2 + digs@.take(k as int),
                decreases j - k,
            {
                out.push(digs[k]);
                proof {
                    assert(out@ =~= out2 + digs@.take((k + 1) as int));
                }
                k = k + 1;
            }
            proof {
                assert(digs@.take(j as int) == strip_zeros(frac_digit_chars(fp as nat)));
                assert(out@ =~= num_chars(self@));
            }
        } else {
            proof {
                assert(out@ =~= num_chars(self@));
            }
        }
        string_from_chars(&out)
    }
}

} // verus!
