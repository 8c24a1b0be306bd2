//! Fixed-precision decimal coordinates.
//!
//! Latitude and longitude are carried as a scaled integer (`mantissa` over
//! `10^scale`) rather than as floating point, so that a value read from a
//! table cell can be written back exactly. Parsing and formatting of the
//! decimal text are verified against a grammar stated over character
//! sequences; converting a pair of coordinates into a great-circle distance
//! is the one step left to an outside crate, behind a trusted wrapper.

use vstd::prelude::*;
use vstd::arithmetic::div_mod::{lemma_fundamental_div_mod, lemma_fundamental_div_mod_converse};
use vstd::arithmetic::mul::lemma_mul_is_associative;
use geoutils::Location;
use rust_decimal::Decimal;
use num_traits::ToPrimitive;

verus! {

/// Largest admitted scale (digits after the decimal point).
pub const MAX_SCALE: u32 = 18;

/// Largest admitted magnitude of the mantissa: eighteen nines, so that any
/// admitted decimal fits comfortably in an `i64`.
pub const MAX_ABS_MANTISSA: i64 = 999_999_999_999_999_999;

/// A decimal number `mantissa / 10^scale`, exact and free of floating point.
#[derive(Clone, Copy, Debug, PartialEq, Eq, Structural)]
pub struct FixedDecimal {
    /// Signed digits of the number.
    pub mantissa: i64,
    /// How many of the low digits of `mantissa` lie behind the decimal point.
    pub scale: u32,
}

impl View for FixedDecimal {
    type V = FixedDecimal;

    open spec fn view(&self) -> FixedDecimal {
        *self
    }
}

impl FixedDecimal {
    /// The bounds every decimal of this library obeys.
    pub open spec fn wf(self) -> bool {
        &&& self.scale <= MAX_SCALE
        &&& -MAX_ABS_MANTISSA <= self.mantissa <= MAX_ABS_MANTISSA
    }

    /// Magnitude of the mantissa.
    pub open spec fn abs_nat(self) -> nat {
        if self.mantissa < 0 {
            (-self.mantissa) as nat
        } else {
            self.mantissa as nat
        }
    }

}

// ---------------------------------------------------------------------------
// The mathematical vocabulary: powers of ten, digit characters, digit strings.
// ---------------------------------------------------------------------------

/// `10^n`.
pub open spec fn pow10(n: nat) -> nat
    decreases n,
{
    if n == 0 {
        1
    } else {
        10 * pow10((n - 1) as nat)
    }
}

/// Is `c` one of `'0'` to `'9'`?
pub open spec fn is_digit_char(c: char) -> bool {
    48 <= c as u32 <= 57
}

/// Numeric value of a digit character.
pub open spec fn digit_val(c: char) -> nat {
    (c as u32 - 48) as nat
}

/// Digit character of a value below ten.
pub open spec fn digit_char(d: nat) -> char {
    if d == 0 {
        '0'
    } else if d == 1 {
        '1'
    } else if d == 2 {
        '2'
    } else if d == 3 {
        '3'
    } else if d == 4 {
        '4'
    } else if d == 5 {
        '5'
    } else if d == 6 {
        '6'
    } else if d == 7 {
        '7'
    } else if d == 8 {
        '8'
    } else {
        '9'
    }
}

/// Every character of `s` is a digit.
pub open spec fn all_digits(s: Seq<char>) -> bool {
    forall|i: int| 0 <= i < s.len() ==> is_digit_char(#[trigger] s[i])
}

/// The number a digit string denotes.
pub open spec fn seq_val(s: Seq<char>) -> nat
    decreases s.len(),
{
    if s.len() == 0 {
        0
    } else {
        seq_val(s.drop_last()) * 10 + digit_val(s.last())
    }
}

/// The digit string of `n`, without leading zeros (a lone zero for zero).
pub open spec fn digit_string(n: nat) -> Seq<char>
    decreases n,
{
    if n < 10 {
        seq![digit_char(n)]
    } else {
        digit_string(n / 10).push(digit_char(n % 10))
    }
}

/// The lowest `width` digits of `n`, zero-padded to exactly `width`
/// characters.
pub open spec fn padded_digit_string(n: nat, width: nat) -> Seq<char>
    decreases width,
{
    if width == 0 {
        Seq::empty()
    } else {
        padded_digit_string(n / 10, (width - 1) as nat).push(digit_char(n % 10))
    }
}

/// The canonical text of a decimal: optional minus sign, the integer digits,
/// and, for a positive scale, a point followed by exactly `scale` fraction
/// digits.
pub open spec fn spec_format(d: FixedDecimal) -> Seq<char> {
    let sign: Seq<char> = if d.mantissa < 0 {
        seq!['-']
    } else {
        Seq::empty()
    };
    let a = d.abs_nat();
    if d.scale == 0 {
        sign + digit_string(a)
    } else {
        sign + digit_string(a / pow10(d.scale as nat)) + seq!['.'] + padded_digit_string(
            a,
            d.scale as nat,
        )
    }
}

// ---------------------------------------------------------------------------
// The grammar of accepted decimal text.
// ---------------------------------------------------------------------------

/// Does the text open with a minus sign?
pub open spec fn text_negative(s: Seq<char>) -> bool {
    s.len() > 0 && s[0] == '-'
}

/// The text with the sign stripped.
pub open spec fn body_of(s: Seq<char>) -> Seq<char> {
    if text_negative(s) {
        s.drop_first()
    } else {
        s
    }
}

/// `p` splits the sign-stripped body into a nonempty run of integer digits
/// and, when `p` lies inside the body, a point at `p` followed by a nonempty
/// run of fraction digits.
pub open spec fn valid_body_split(b: Seq<char>, p: int) -> bool {
    &&& 1 <= p <= b.len()
    &&& all_digits(b.subrange(0, p))
    &&& (p < b.len() ==> b[p] == '.' && p + 1 < b.len() && all_digits(
        b.subrange(p + 1, b.len() as int),
    ))
}

/// The text is a decimal: a sign-stripped body with some valid split.
pub open spec fn valid_dec_string(s: Seq<char>) -> bool {
    exists|p: int| valid_body_split(body_of(s), p)
}

/// The (unique) split of a valid decimal text.
pub open spec fn split_of(s: Seq<char>) -> int {
    choose|p: int| valid_body_split(body_of(s), p)
}

/// Number of fraction digits of the text.
pub open spec fn scale_of(s: Seq<char>) -> nat {
    let b = body_of(s);
    let p = split_of(s);
    if p == b.len() {
        0
    } else {
        (b.len() - p - 1) as nat
    }
}

/// All digit characters of the text, the point dropped.
pub open spec fn digits_of(s: Seq<char>) -> Seq<char> {
    let b = body_of(s);
    let p = split_of(s);
    if p == b.len() {
        b
    } else {
        b.subrange(0, p) + b.subrange(p + 1, b.len() as int)
    }
}

/// Magnitude the text denotes.
pub open spec fn mantissa_nat_of(s: Seq<char>) -> nat {
    seq_val(digits_of(s))
}

/// Signed value the text denotes, in units of `10^-scale_of(s)`.
pub open spec fn dec_val_of(s: Seq<char>) -> int {
    if text_negative(s) {
        -(mantissa_nat_of(s) as int)
    } else {
        mantissa_nat_of(s) as int
    }
}

/// The text's value stays within the bounds of `FixedDecimal::wf`.
pub open spec fn fits(s: Seq<char>) -> bool {
    &&& scale_of(s) <= MAX_SCALE
    &&& mantissa_nat_of(s) <= MAX_ABS_MANTISSA
}

// ---------------------------------------------------------------------------
// Lemmas about the vocabulary.
// ---------------------------------------------------------------------------

/// Powers of ten are positive.
pub proof fn lemma_pow10_pos(n: nat)
    ensures
        pow10(n) >= 1,
    decreases n,
{
    if n > 0 {
        lemma_pow10_pos((n - 1) as nat);
    }
}

/// Powers of ten grow with the exponent.
pub proof fn lemma_pow10_mono(a: nat, b: nat)
    requires
        a <= b,
    ensures
        pow10(a) <= pow10(b),
    decreases b,
{
    if a < b {
        lemma_pow10_mono(a, (b - 1) as nat);
        lemma_pow10_pos((b - 1) as nat);
    }
}

/// A digit's character carries the digit's value.
pub proof fn lemma_digit_char_val(d: nat)
    requires
        d < 10,
    ensures
        is_digit_char(digit_char(d)),
        digit_val(digit_char(d)) == d,
{
}

/// The digit string of a number is made of digits and is never empty.
pub proof fn lemma_digit_string_digits(n: nat)
    ensures
        all_digits(digit_string(n)),
        digit_string(n).len() >= 1,
    decreases n,
{
    if n < 10 {
        lemma_digit_char_val(n);
    } else {
        lemma_digit_string_digits(n / 10);
        lemma_digit_char_val(n % 10);
    }
}

/// A padded digit string is made of digits and has exactly its width.
pub proof fn lemma_padded_digits(n: nat, width: nat)
    ensures
        all_digits(padded_digit_string(n, width)),
        padded_digit_string(n, width).len() == width,
    decreases width,
{
    if width > 0 {
        lemma_padded_digits(n / 10, (width - 1) as nat);
        lemma_digit_char_val(n % 10);
    }
}

/// The value of concatenated digit text: the left part is shifted by one
/// power of ten per right-hand character.
pub proof fn lemma_seq_val_concat(x: Seq<char>, y: Seq<char>)
    ensures
        seq_val(x + y) == seq_val(x) * pow10(y.len()) + seq_val(y),
    decreases y.len(),
{
    if y.len() == 0 {
        assert(x + y =~= x);
        assert(pow10(0) == 1);
    } else {
        lemma_seq_val_concat(x, y.drop_last());
        assert((x + y).drop_last() =~= x + y.drop_last());
        assert((x + y).last() == y.last());
        let l1 = (y.len() - 1) as nat;
        assert(pow10(y.len()) == 10 * pow10(l1));
        assert(seq_val(x + y) == seq_val((x + y).drop_last()) * 10 + digit_val((x + y).last()));
        assert(seq_val(y) == seq_val(y.drop_last()) * 10 + digit_val(y.last()));
        assert(seq_val(x + y) == (seq_val(x) * pow10(l1) + seq_val(y.drop_last())) * 10 + digit_val(
            y.last(),
        ));
        assert(seq_val(x) * pow10(l1) * 10 == seq_val(x) * (pow10(l1) * 10)) by {
            lemma_mul_is_associative(seq_val(x) as int, pow10(l1) as int, 10);
        }
        assert((seq_val(x) * pow10(l1) + seq_val(y.drop_last())) * 10 == seq_val(x) * pow10(l1) * 10
            + seq_val(y.drop_last()) * 10);
        assert(pow10(l1) * 10 == pow10(y.len()));
    }
}

/// Appending digits never lowers the value.
pub proof fn lemma_seq_val_prefix_le(x: Seq<char>, y: Seq<char>)
    ensures
        seq_val(x) <= seq_val(x + y),
{
    lemma_seq_val_concat(x, y);
    lemma_pow10_pos(y.len());
    vstd::arithmetic::mul::lemma_mul_inequality(1, pow10(y.len()) as int, seq_val(x) as int);
}

/// The digit string of `n` denotes `n`.
pub proof fn lemma_seq_val_digit_string(n: nat)
    ensures
        seq_val(digit_string(n)) == n,
    decreases n,
{
    if n < 10 {
        lemma_digit_char_val(n);
        let ds = digit_string(n);
        assert(ds == seq![digit_char(n)]);
        assert(ds.drop_last() =~= Seq::<char>::empty());
        assert(ds.last() == digit_char(n));
        assert(seq_val(ds.drop_last()) == 0);
        assert(seq_val(ds) == seq_val(ds.drop_last()) * 10 + digit_val(ds.last()));
    } else {
        lemma_seq_val_digit_string(n / 10);
        lemma_digit_char_val(n % 10);
        let ds = digit_string(n);
        assert(ds == digit_string(n / 10).push(digit_char(n % 10)));
        assert(ds.drop_last() =~= digit_string(n / 10));
        assert(ds.last() == digit_char(n % 10));
        assert(seq_val(ds) == seq_val(ds.drop_last()) * 10 + digit_val(ds.last()));
        assert(seq_val(ds) == (n / 10) * 10 + (n % 10));
        lemma_fundamental_div_mod(n as int, 10);
    }
}

/// The padded digit string of `n` denotes `n` modulo its width's power of
/// ten.
pub proof fn lemma_seq_val_padded(n: nat, width: nat)
    ensures
        seq_val(padded_digit_string(n, width)) == n % pow10(width),
    decreases width,
{
    if width == 0 {
        assert(n % 1 == 0) by {
            lemma_fundamental_div_mod_converse(n as int, 1, n as int, 0);
        }
    } else {
        let w1 = (width - 1) as nat;
        lemma_seq_val_padded(n / 10, w1);
        assert(padded_digit_string(n, width).drop_last() =~= padded_digit_string(n / 10, w1));
        lemma_digit_char_val(n % 10);
        // n % 10^width == ((n / 10) % 10^(width-1)) * 10 + n % 10
        let m = pow10(w1) as int;
        let q = n as int / 10;
        let r = n as int % 10;
        lemma_pow10_pos(w1);
        lemma_fundamental_div_mod(n as int, 10);
        lemma_fundamental_div_mod(q, m);
        let qm = q % m;
        let qq = q / m;
        assert(n as int == 10 * (m * qq + qm) + r);
        assert(10 * (m * qq + qm) == 10 * (m * qq) + 10 * qm) by (nonlinear_arith);
        assert(10 * (m * qq) == (10 * m) * qq) by (nonlinear_arith);
        assert(0 <= 10 * qm + r < 10 * m) by (nonlinear_arith)
            requires
                0 <= qm < m,
                0 <= r < 10,
        ;
        lemma_fundamental_div_mod_converse(n as int, 10 * m, qq, 10 * qm + r);
        assert(pow10(width) == 10 * m);
    }
}

// ---------------------------------------------------------------------------
// Formatting a decimal to text.
// ---------------------------------------------------------------------------

/// `10^18` written out, for overflow bounds.
pub proof fn lemma_pow10_18()
    ensures
        pow10(18) == 1_000_000_000_000_000_000,
{
    assert(pow10(0) == 1);
    assert(pow10(1) == 10);
    assert(pow10(2) == 100);
    assert(pow10(3) == 1_000);
    assert(pow10(4) == 10_000);
    assert(pow10(5) == 100_000);
    assert(pow10(6) == 1_000_000);
    assert(pow10(7) == 10_000_000);
    assert(pow10(8) == 100_000_000);
    assert(pow10(9) == 1_000_000_000);
    assert(pow10(10) == 10_000_000_000);
    assert(pow10(11) == 100_000_000_000);
    assert(pow10(12) == 1_000_000_000_000);
    assert(pow10(13) == 10_000_000_000_000);
    assert(pow10(14) == 100_000_000_000_000);
    assert(pow10(15) == 1_000_000_000_000_000);
    assert(pow10(16) == 10_000_000_000_000_000);
    assert(pow10(17) == 100_000_000_000_000_000);
    assert(pow10(18) == 1_000_000_000_000_000_000);
}

/// Digit character of a value below ten, executably.
fn digit_to_char(d: u64) -> (c: char)
    requires
        d < 10,
    ensures
        c == digit_char(d as nat),
{
    if d == 0 {
        '0'
    } else if d == 1 {
        '1'
    } else if d == 2 {
        '2'
    } else if d == 3 {
        '3'
    } else if d == 4 {
        '4'
    } else if d == 5 {
        '5'
    } else if d == 6 {
        '6'
    } else if d == 7 {
        '7'
    } else if d == 8 {
        '8'
    } else {
        '9'
    }
}

/// Appends the digit string of `n` to `buf`.
fn push_digit_string(n: u64, buf: &mut Vec<char>)
    ensures
        final(buf)@ == old(buf)@ + digit_string(n as nat),
    decreases n,
{
    if n < 10 {
        buf.push(digit_to_char(n));
        proof {
            assert(final(buf)@ =~= old(buf)@ + digit_string(n as nat));
        }
    } else {
        push_digit_string(n / 10, buf);
        buf.push(digit_to_char(n % 10));
        proof {
            assert(final(buf)@ =~= old(buf)@ + digit_string(n as nat));
        }
    }
}

/// Appends the lowest `width` digits of `n` to `buf`, zero-padded.
fn push_padded_digits(n: u64, width: u32, buf: &mut Vec<char>)
    ensures
        final(buf)@ == old(buf)@ + padded_digit_string(n as nat, width as nat),
    decreases width,
{
    if width > 0 {
        push_padded_digits(n / 10, width - 1, buf);
        buf.push(digit_to_char(n % 10));
    }
    proof {
        assert(final(buf)@ =~= old(buf)@ + padded_digit_string(n as nat, width as nat));
    }
}

/// `10^n` as a `u64`, for scales this library admits.
fn pow10_u64(n: u32) -> (r: u64)
    requires
        n <= 18,
    ensures
        r as nat == pow10(n as nat),
{
    let mut r: u64 = 1;
    let mut i: u32 = 0;
    while i < n
        invariant
            i <= n <= 18,
            r as nat == pow10(i as nat),
        decreases n - i,
    {
        proof {
            lemma_pow10_mono((i + 1) as nat, 18);
            lemma_pow10_18();
            assert(pow10((i + 1) as nat) == 10 * pow10(i as nat));
        }
        r = r * 10;
        i = i + 1;
    }
    r
}

/// Formats a whole number as its digit string.
pub fn format_u64(n: u64) -> (r: String)
    ensures
        r@ == digit_string(n as nat),
{
    let mut buf: Vec<char> = Vec::new();
    push_digit_string(n, &mut buf);
    proof {
        assert(buf@ =~= digit_string(n as nat));
    }
    crate::text::string_from_chars(buf)
}

/// Formats a decimal as its canonical text.
pub fn format_decimal(d: &FixedDecimal) -> (r: String)
    requires
        d.wf(),
    ensures
        r@ == spec_format(*d),
{
    let mut buf: Vec<char> = Vec::new();
    if d.mantissa < 0 {
        buf.push('-');
    }
    let ghost sign: Seq<char> = if d.mantissa < 0 {
        seq!['-']
    } else {
        Seq::empty()
    };
    proof {
        assert(buf@ =~= sign);
    }
    let a: u64 = if d.mantissa < 0 {
        (-d.mantissa) as u64
    } else {
        d.mantissa as u64
    };
    proof {
        assert(a as nat == d.abs_nat());
    }
    if d.scale == 0 {
        push_digit_string(a, &mut buf);
        proof {
            assert(buf@ =~= spec_format(*d));
        }
    } else {
        let p = pow10_u64(d.scale);
        proof {
            lemma_pow10_pos(d.scale as nat);
        }
        push_digit_string(a / p, &mut buf);
        buf.push('.');
        push_padded_digits(a, d.scale, &mut buf);
        proof {
            assert(buf@ =~= sign + digit_string(d.abs_nat() / pow10(d.scale as nat)) + seq!['.']
                + padded_digit_string(d.abs_nat(), d.scale as nat));
        }
    }
    crate::text::string_from_chars(buf)
}

// ---------------------------------------------------------------------------
// Parsing decimal text.
// ---------------------------------------------------------------------------

/// The digit characters among the first `q` positions of the body `b` with
/// split `p`, the point dropped.
pub open spec fn scanned_digits(b: Seq<char>, p: int, q: int) -> Seq<char> {
    if q <= p {
        b.subrange(0, q)
    } else {
        b.subrange(0, p) + b.subrange(p + 1, q)
    }
}

/// Parses decimal text into a `FixedDecimal`. Returns `Some` exactly for
/// grammar-valid text whose value fits this library's bounds, and then
/// carries the text's value and scale.
pub fn parse_decimal(s: &str) -> (r: Option<FixedDecimal>)
    ensures
        match r {
            Some(d) => {
                &&& d.wf()
                &&& valid_dec_string(s@)
                &&& fits(s@)
                &&& d.mantissa as int == dec_val_of(s@)
                &&& d.scale as nat == scale_of(s@)
            },
            None => !(valid_dec_string(s@) && fits(s@)),
        },
{
    let n = s.unicode_len();
    let neg = n > 0 && s.get_char(0) == '-';
    let start: usize = if neg {
        1
    } else {
        0
    };
    let ghost b = body_of(s@);
    proof {
        assert(neg == text_negative(s@));
        assert(b =~= s@.subrange(start as int, n as int));
    }
    if start == n {
        proof {
            if valid_dec_string(s@) {
                let p = choose|p: int| valid_body_split(b, p);
                assert(1 <= p <= b.len());
                assert(false);
            }
        }
        return None;
    }
    // First pass: find the point and check that every other character is a
    // digit.
    let mut has_dot = false;
    let mut dotpos: usize = 0;
    let mut j = start;
    while j < n
        invariant
            start <= j <= n,
            n as nat == s@.len(),
            start as int == if text_negative(s@) {
                1int
            } else {
                0int
            },
            start < n,
            b == s@.subrange(start as int, n as int),
            b == body_of(s@),
            !has_dot ==> all_digits(b.subrange(0, j as int - start as int)),
            has_dot ==> {
                &&& start < dotpos
                &&& dotpos as int + 1 < n as int
                &&& (dotpos as int) < j as int
                &&& b[dotpos as int - start as int] == '.'
                &&& all_digits(b.subrange(0, dotpos as int - start as int))
                &&& all_digits(
                    b.subrange(dotpos as int - start as int + 1, j as int - start as int),
                )
            },
        decreases n - j,
    {
        let c = s.get_char(j);
        let u = c as u32;
        let ghost q = j as int - start as int;
        proof {
            assert(b[q] == s@[j as int]);
        }
        if 48 <= u && u <= 57 {
            proof {
                if !has_dot {
                    assert(b.subrange(0, q + 1) =~= b.subrange(0, q).push(b[q]));
                } else {
                    let pd = dotpos as int - start as int;
                    assert(b.subrange(pd + 1, q + 1) =~= b.subrange(pd + 1, q).push(b[q]));
                }
            }
        } else if c == '.' {
            if has_dot || j == start || j + 1 == n {
                proof {
                    if valid_dec_string(s@) {
                        let p = choose|p: int| valid_body_split(b, p);
                        if q < p {
                            assert(b.subrange(0, p)[q] == b[q]);
                            assert(is_digit_char(b[q]));
                        } else if q > p {
                            assert(b.subrange(p + 1, b.len() as int)[q - p - 1] == b[q]);
                            assert(is_digit_char(b[q]));
                        } else {
                            // q == p: the point of the split sits here.
                            if has_dot {
                                let pd = dotpos as int - start as int;
                                assert(b.subrange(0, p)[pd] == b[pd]);
                                assert(is_digit_char(b[pd]));
                            } else if j == start {
                                assert(p >= 1);
                            } else {
                                assert(p + 1 < b.len());
                            }
                        }
                        assert(false);
                    }
                }
                return None;
            }
            has_dot = true;
            dotpos = j;
            proof {
                assert(b.subrange(q + 1, q + 1) =~= Seq::<char>::empty());
            }
        } else {
            proof {
                if valid_dec_string(s@) {
                    let p = choose|p: int| valid_body_split(b, p);
                    if q < p {
                        assert(b.subrange(0, p)[q] == b[q]);
                        assert(is_digit_char(b[q]));
                    } else if q > p {
                        assert(b.subrange(p + 1, b.len() as int)[q - p - 1] == b[q]);
                        assert(is_digit_char(b[q]));
                    } else {
                        assert(b[p] == '.');
                    }
                    assert(false);
                }
            }
            return None;
        }
        j = j + 1;
    }
    // The scan succeeded: the body has the (unique) split we found.
    let ghost pbody: int = if has_dot {
        dotpos as int - start as int
    } else {
        b.len() as int
    };
    proof {
        if has_dot {
            assert(b.subrange(pbody + 1, b.len() as int) =~= b.subrange(
                pbody + 1,
                n as int - start as int,
            ));
        } else {
            assert(b.subrange(0, b.len() as int) =~= b.subrange(0, n as int - start as int));
        }
        assert(valid_body_split(b, pbody));
        lemma_split_unique(b, split_of(s@), pbody);
        assert(split_of(s@) == pbody);
    }
    // Second pass: accumulate the digits' value, watching the bound.
    let mabs_max: u64 = MAX_ABS_MANTISSA as u64;
    let mut m: u64 = 0;
    let mut k = start;
    while k < n
        invariant
            start <= k <= n,
            start < n,
            n as nat == s@.len(),
            start as int == if text_negative(s@) {
                1int
            } else {
                0int
            },
            b == s@.subrange(start as int, n as int),
            b == body_of(s@),
            valid_body_split(b, pbody),
            split_of(s@) == pbody,
            pbody == if has_dot {
                dotpos as int - start as int
            } else {
                b.len() as int
            },
            has_dot ==> start < dotpos && dotpos as int + 1 < n as int,
            mabs_max == MAX_ABS_MANTISSA as u64,
            m as nat == seq_val(scanned_digits(b, pbody, k as int - start as int)),
            m <= mabs_max,
        decreases n - k,
    {
        let c = s.get_char(k);
        let ghost q = k as int - start as int;
        proof {
            assert(b[q] == s@[k as int]);
        }
        if c == '.' {
            proof {
                // Only the split position carries the point.
                if q < pbody {
                    assert(b.subrange(0, pbody)[q] == b[q]);
                    assert(is_digit_char(b[q]));
                    assert(false);
                } else if q > pbody {
                    assert(b.subrange(pbody + 1, b.len() as int)[q - pbody - 1] == b[q]);
                    assert(is_digit_char(b[q]));
                    assert(false);
                }
                assert(scanned_digits(b, pbody, q + 1) =~= scanned_digits(b, pbody, q));
            }
        } else {
            let u = c as u32;
            proof {
                if q < pbody {
                    assert(b.subrange(0, pbody)[q] == b[q]);
                    assert(is_digit_char(b[q]));
                } else if q > pbody {
                    assert(b.subrange(pbody + 1, b.len() as int)[q - pbody - 1] == b[q]);
                    assert(is_digit_char(b[q]));
                } else {
                    assert(pbody < b.len());
                    assert(b[pbody] == '.');
                    assert(false);
                }
            }
            let d64: u64 = (u - 48) as u64;
            let ghost scanned = scanned_digits(b, pbody, q);
            let ghost extended = scanned_digits(b, pbody, q + 1);
            proof {
                if q < pbody {
                    assert(extended =~= scanned.push(b[q]));
                } else {
                    assert(extended =~= scanned.push(b[q]));
                }
                assert(extended.drop_last() =~= scanned);
                assert(seq_val(extended) == seq_val(scanned) * 10 + digit_val(b[q]));
                assert(digit_val(b[q]) == d64 as nat);
            }
            if m > (mabs_max - d64) / 10 {
                proof {
                    let md = (mabs_max - d64) as int;
                    lemma_fundamental_div_mod(md, 10);
                    assert(m as int * 10 + d64 as int > mabs_max as int);
                    // The full digit string only extends what is scanned, so
                    // the text's value is at least as large.
                    let full = scanned_digits(b, pbody, b.len() as int);
                    let rest = if q + 1 <= pbody {
                        if pbody == b.len() {
                            b.subrange(q + 1, b.len() as int)
                        } else {
                            b.subrange(q + 1, pbody) + b.subrange(pbody + 1, b.len() as int)
                        }
                    } else {
                        b.subrange(q + 1, b.len() as int)
                    };
                    assert(full =~= extended + rest);
                    lemma_seq_val_prefix_le(extended, rest);
                    assert(digits_of(s@) =~= full);
                    assert(mantissa_nat_of(s@) > MAX_ABS_MANTISSA);
                }
                return None;
            }
            proof {
                let md = (mabs_max - d64) as int;
                lemma_fundamental_div_mod(md, 10);
                assert(m as int * 10 + d64 as int <= mabs_max as int);
            }
            m = m * 10 + d64;
        }
        k = k + 1;
    }
    proof {
        let full = scanned_digits(b, pbody, b.len() as int);
        assert(scanned_digits(b, pbody, n as int - start as int) =~= full);
        assert(digits_of(s@) =~= full);
        assert(m as nat == mantissa_nat_of(s@));
    }
    let sc: u32;
    if has_dot {
        let fr = n - 1 - dotpos;
        proof {
            assert(scale_of(s@) == fr as nat);
        }
        if fr > 18 {
            return None;
        }
        sc = fr as u32;
    } else {
        sc = 0;
        proof {
            assert(scale_of(s@) == 0nat);
        }
    }
    let man: i64 = if neg {
        -(m as i64)
    } else {
        m as i64
    };
    Some(FixedDecimal { mantissa: man, scale: sc })
}

/// Two valid splits of one body agree: the smaller one would put the other
/// split's point among its integer digits, and '.' is no digit.
pub proof fn lemma_split_unique(b: Seq<char>, p1: int, p2: int)
    requires
        valid_body_split(b, p1),
        valid_body_split(b, p2),
    ensures
        p1 == p2,
{
    if p1 < p2 {
        assert(b.subrange(0, p2)[p1] == b[p1]);
        assert(is_digit_char(b[p1]));
        assert(b[p1] == '.');
        assert(false);
    } else if p2 < p1 {
        assert(b.subrange(0, p1)[p2] == b[p2]);
        assert(is_digit_char(b[p2]));
        assert(b[p2] == '.');
        assert(false);
    }
}

// ---------------------------------------------------------------------------
// The canonical text of a decimal reads back as that decimal.
// ---------------------------------------------------------------------------

/// The canonical text of a well-formed decimal is grammar-valid, fits the
/// library's bounds, and denotes exactly the decimal's value and scale — so
/// formatting and re-parsing a coordinate loses nothing.
pub proof fn lemma_format_parses_back(d: FixedDecimal)
    requires
        d.wf(),
    ensures
        valid_dec_string(spec_format(d)),
        fits(spec_format(d)),
        dec_val_of(spec_format(d)) == d.mantissa as int,
        scale_of(spec_format(d)) == d.scale as nat,
{
    let s = spec_format(d);
    let a = d.abs_nat();
    lemma_digit_string_digits(a);
    lemma_seq_val_digit_string(a);
    if d.scale == 0 {
        let ds = digit_string(a);
        if d.mantissa < 0 {
            assert(s == seq!['-'] + ds);
            assert(s[0] == '-');
            assert(text_negative(s));
            assert(body_of(s) =~= ds);
        } else {
            assert(s =~= ds);
            assert(is_digit_char(s[0]));
            assert(!text_negative(s));
            assert(body_of(s) == s);
        }
        let b = body_of(s);
        assert(b == ds);
        let p = b.len() as int;
        assert(b.subrange(0, p) =~= b);
        assert(valid_body_split(b, p));
        lemma_split_unique(b, split_of(s), p);
        assert(scale_of(s) == 0nat);
        assert(digits_of(s) == b);
        assert(mantissa_nat_of(s) == a);
    } else {
        let w = d.scale as nat;
        let q = a / pow10(w);
        let ds = digit_string(q);
        let ps = padded_digit_string(a, w);
        lemma_digit_string_digits(q);
        lemma_seq_val_digit_string(q);
        lemma_padded_digits(a, w);
        lemma_seq_val_padded(a, w);
        lemma_pow10_pos(w);
        let tail = ds + seq!['.'] + ps;
        if d.mantissa < 0 {
            assert(s == seq!['-'] + ds + seq!['.'] + ps);
            assert(s[0] == '-');
            assert(text_negative(s));
            assert(body_of(s) =~= tail);
        } else {
            assert(s =~= tail);
            assert(s[0] == ds[0]);
            assert(is_digit_char(s[0]));
            assert(!text_negative(s));
            assert(body_of(s) == s);
        }
        let b = body_of(s);
        assert(b =~= tail);
        let p = ds.len() as int;
        assert(b.subrange(0, p) =~= ds);
        assert(b[p] == '.');
        assert(b.subrange(p + 1, b.len() as int) =~= ps);
        assert(valid_body_split(b, p));
        lemma_split_unique(b, split_of(s), p);
        assert(scale_of(s) == w);
        assert(digits_of(s) =~= ds + ps);
        lemma_seq_val_concat(ds, ps);
        assert(ps.len() == w);
        assert(seq_val(ds + ps) == q * pow10(w) + a % pow10(w));
        lemma_fundamental_div_mod(a as int, pow10(w) as int);
        assert(pow10(w) * (a as int / pow10(w) as int) == (a as int / pow10(w) as int) * pow10(
            w,
        )) by (nonlinear_arith);
        assert(mantissa_nat_of(s) == a);
    }
    if d.mantissa < 0 {
        assert(dec_val_of(s) == -(a as int) == d.mantissa as int);
    } else {
        assert(dec_val_of(s) == a as int == d.mantissa as int);
    }
}

// ---------------------------------------------------------------------------
// Great-circle distance between two coordinates.
// ---------------------------------------------------------------------------

/// Whole-meter great-circle distance between the points
/// `(lat1, lng1)` and `(lat2, lng2)`, each coordinate given as a decimal's
/// mantissa and scale. Left without a definition: the value is fixed by the
/// outside routine the trusted wrapper below names.
pub uninterp spec fn haversine_meters(
    lat1_m: int,
    lat1_s: nat,
    lng1_m: int,
    lng1_s: nat,
    lat2_m: int,
    lat2_s: nat,
    lng2_m: int,
    lng2_s: nat,
) -> u64;

/// Relies on `geoutils::Location::haversine_distance_to` for the great-circle
/// distance in meters between two coordinates, and on
/// `rust_decimal::Decimal::from_i128_with_scale` together with
/// `num_traits::ToPrimitive::to_f64` (total on every 96-bit decimal, per the
/// crate's source) to realise each fixed-precision coordinate as a float on
/// the way in. The whole-meter result depends on the coordinate values alone.
#[verifier::external_body]
pub(crate) fn distance_meters(
    lat1: &FixedDecimal,
    lng1: &FixedDecimal,
    lat2: &FixedDecimal,
    lng2: &FixedDecimal,
) -> (r: u64)
    requires
        lat1.wf(),
        lng1.wf(),
        lat2.wf(),
        lng2.wf(),
    ensures
        r == haversine_meters(
            lat1.mantissa as int,
            lat1.scale as nat,
            lng1.mantissa as int,
            lng1.scale as nat,
            lat2.mantissa as int,
            lat2.scale as nat,
            lng2.mantissa as int,
            lng2.scale as nat,
        ),
{
    let from = Location::new(
        Decimal::from_i128_with_scale(lat1.mantissa as i128, lat1.scale).to_f64().unwrap(),
        Decimal::from_i128_with_scale(lng1.mantissa as i128, lng1.scale).to_f64().unwrap(),
    );
    let to = Location::new(
        Decimal::from_i128_with_scale(lat2.mantissa as i128, lat2.scale).to_f64().unwrap(),
        Decimal::from_i128_with_scale(lng2.mantissa as i128, lng2.scale).to_f64().unwrap(),
    );
    from.haversine_distance_to(&to).meters() as u64
}

} // verus!
