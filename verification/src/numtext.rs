//! Exact parsing of decimal number text.
//!
//! The wire format writes every numeric value as plain decimal text: an
//! optional sign, digits, and for fractional quantities a dot and more
//! digits.  Integers are decoded to `i64`; fractional quantities are decoded
//! to fixed-point `i64` values scaled by `10^4` (the wire's own tick unit),
//! truncating fraction digits beyond the fourth.  A value whose exact scaled
//! magnitude does not fit the machine range fails to parse.

use vstd::prelude::*;

verus! {

/// One fixed-point unit is `1 / FIXED_SCALE` of the quantity's natural unit;
/// the representation keeps four fraction digits.
pub const FIXED_SCALE: i64 = 10000;

pub open spec fn is_digit_byte(b: u8) -> bool {
    48 <= b && b <= 57
}

pub open spec fn all_digits(s: Seq<u8>) -> bool {
    forall|i: int| 0 <= i < s.len() ==> is_digit_byte(#[trigger] s[i])
}

/// The value of a string of decimal digits, most significant first.
pub open spec fn spec_digits_val(s: Seq<u8>) -> int
    decreases s.len(),
{
    if s.len() == 0 {
        0
    } else {
        spec_digits_val(s.drop_last()) * 10 + (s.last() - 48)
    }
}

pub open spec fn spec_pow10(n: nat) -> int
    decreases n,
{
    if n == 0 {
        1
    } else {
        10 * spec_pow10((n - 1) as nat)
    }
}

/// Splits an optional leading sign from the rest: the sign is negative only
/// for a leading `-`; a leading `+` is accepted and positive.
pub open spec fn spec_sign_split(s: Seq<u8>) -> (bool, Seq<u8>) {
    if s.len() > 0 && s[0] == 45u8 {
        (true, s.subrange(1, s.len() as int))
    } else if s.len() > 0 && s[0] == 43u8 {
        (false, s.subrange(1, s.len() as int))
    } else {
        (false, s)
    }
}

/// What integer text denotes: an optional sign and at least one digit, whose
/// signed value fits `i64`.  Anything else denotes nothing.
pub open spec fn spec_parse_i64(s: Seq<u8>) -> Option<i64> {
    let (neg, ds) = spec_sign_split(s);
    if ds.len() == 0 || !all_digits(ds) {
        None
    } else {
        let v = if neg { -spec_digits_val(ds) } else { spec_digits_val(ds) };
        if i64::MIN <= v <= i64::MAX {
            Some(v as i64)
        } else {
            None
        }
    }
}

/// The fraction part as a count of `10^-4` units: the first four fraction
/// digits, padded with zeros on the right if fewer are given.
pub open spec fn spec_frac_units(frac: Seq<u8>) -> int {
    if frac.len() >= 4 {
        spec_digits_val(frac.take(4))
    } else {
        spec_digits_val(frac) * spec_pow10((4 - frac.len()) as nat)
    }
}

/// The exact fixed-point magnitude, in `10^-4` units, of unsigned decimal
/// text split at its first dot.
pub open spec fn spec_fixed_mag(intpart: Seq<u8>, frac: Seq<u8>) -> int {
    spec_digits_val(intpart) * (FIXED_SCALE as int) + spec_frac_units(frac)
}

/// Splits unsigned decimal text at its first dot; text without a dot has an
/// empty fraction part.
pub open spec fn spec_dot_split(s: Seq<u8>) -> (Seq<u8>, Seq<u8>) {
    if exists|i: int| 0 <= i < s.len() && s[i] == 46u8 {
        let i = choose|i: int| 0 <= i < s.len() && #[trigger] s[i] == 46u8
            && forall|j: int| 0 <= j < i ==> s[j] != 46u8;
        (s.take(i), s.subrange(i + 1, s.len() as int))
    } else {
        (s, Seq::empty())
    }
}

/// What fixed-point text denotes: an optional sign, digits, an optional dot
/// and more digits, with at least one digit in all, whose exact scaled value
/// fits `i64`.  Anything else denotes nothing.
pub open spec fn spec_parse_fixed4(s: Seq<u8>) -> Option<i64> {
    let (neg, body) = spec_sign_split(s);
    let (ip, fp) = spec_dot_split(body);
    if !all_digits(ip) || !all_digits(fp) || ip.len() + fp.len() == 0 {
        None
    } else {
        let v = if neg { -spec_fixed_mag(ip, fp) } else { spec_fixed_mag(ip, fp) };
        if i64::MIN <= v <= i64::MAX {
            Some(v as i64)
        } else {
            None
        }
    }
}

pub proof fn lemma_digits_val_nonneg(s: Seq<u8>)
    requires
        all_digits(s),
    ensures
        spec_digits_val(s) >= 0,
    decreases s.len(),
{
    if s.len() > 0 {
        assert(all_digits(s.drop_last()));
        lemma_digits_val_nonneg(s.drop_last());
    }
}

pub proof fn lemma_pow10_pos(n: nat)
    ensures
        spec_pow10(n) >= 1,
    decreases n,
{
    if n > 0 {
        lemma_pow10_pos((n - 1) as nat);
    }
}

/// Concatenating digit strings shifts the left part by the length of the
/// right part.
pub proof fn lemma_digits_val_append(s: Seq<u8>, t: Seq<u8>)
    ensures
        spec_digits_val(s + t) == spec_digits_val(s) * spec_pow10(t.len()) + spec_digits_val(t),
    decreases t.len(),
{
    if t.len() == 0 {
        assert(s + t =~= s);
    } else {
        assert((s + t).drop_last() =~= s + t.drop_last());
        assert((s + t).last() == t.last());
        lemma_digits_val_append(s, t.drop_last());
        let m = t.drop_last().len();
        assert((spec_digits_val(s) * spec_pow10(m)) * 10 == spec_digits_val(s) * (10 * spec_pow10(m)))
            by (nonlinear_arith);
        assert(spec_pow10(t.len()) == 10 * spec_pow10(m));
    }
}

pub proof fn lemma_pow10_append(a: nat, b: nat)
    ensures
        spec_pow10(a + b) == spec_pow10(a) * spec_pow10(b),
    decreases a,
{
    if a == 0 {
    } else {
        lemma_pow10_append((a - 1) as nat, b);
        assert(spec_pow10(a + b) == 10 * spec_pow10((a + b - 1) as nat));
        assert(spec_pow10((a - 1) as nat + b) == spec_pow10((a - 1) as nat) * spec_pow10(b));
        assert(10 * (spec_pow10((a - 1) as nat) * spec_pow10(b))
            == (10 * spec_pow10((a - 1) as nat)) * spec_pow10(b)) by (nonlinear_arith);
    }
}

/// Decodes signed decimal integer text exactly as `spec_parse_i64` reads it.
pub fn parse_i64_text(s: &[u8]) -> (r: Option<i64>)
    ensures
        r == spec_parse_i64(s@),
{
    let ghost neg_g = spec_sign_split(s@).0;
    let ghost ds_g = spec_sign_split(s@).1;
    let mut start: usize = 0;
    let mut neg = false;
    if s.len() > 0 && s[0] == 45 {
        neg = true;
        start = 1;
    } else if s.len() > 0 && s[0] == 43 {
        start = 1;
    }
    proof {
        assert(ds_g =~= s@.subrange(start as int, s@.len() as int));
        assert(neg == neg_g);
    }
    if start == s.len() {
        // No digits at all.
        return None;
    }
    let mag = match accumulate_digits_range(s, start, s.len(), 0) {
        Some(m) => m,
        None => {
            // Either a non-digit byte, or a magnitude beyond `u64`, which is
            // beyond `i64` in either sign.
            proof {
                if all_digits(ds_g) {
                    lemma_digits_val_nonneg(ds_g);
                }
            }
            return None;
        },
    };
    proof {
        lemma_digits_val_nonneg(ds_g);
    }
    if neg {
        if mag <= 9223372036854775807u64 {
            Some(-(mag as i64))
        } else if mag == 9223372036854775808u64 {
            Some(i64::MIN)
        } else {
            None
        }
    } else {
        if mag <= 9223372036854775807u64 {
            Some(mag as i64)
        } else {
            None
        }
    }
}

/// `spec_pow10` for the paddings the fixed-point parser needs.
fn small_pow10(n: usize) -> (r: u64)
    requires
        n <= 4,
    ensures
        r as int == spec_pow10(n as nat),
        r <= 10000,
{
    proof {
        lemma_pow10_small();
    }
    if n == 0 {
        1
    } else if n == 1 {
        10
    } else if n == 2 {
        100
    } else if n == 3 {
        1000
    } else {
        proof {
            lemma_pow10_small();
        }
        10000
    }
}

/// Finds the first dot in `s[from..]`, mirroring `spec_dot_split` on that
/// suffix.
fn find_dot(s: &[u8], from: usize) -> (r: Option<usize>)
    requires
        from <= s@.len(),
    ensures
        ({
            let body = s@.subrange(from as int, s@.len() as int);
            match r {
                Some(i) => from <= i < s@.len() && s@[i as int] == 46u8
                    && (forall|j: int| from <= j < i ==> s@[j] != 46u8),
                None => forall|j: int| from <= j < s@.len() ==> s@[j] != 46u8,
            }
        }),
{
    let mut i: usize = from;
    while i < s.len()
        invariant
            from <= i <= s@.len(),
            forall|j: int| from <= j < i ==> s@[j] != 46u8,
        decreases s@.len() - i,
    {
        if s[i] == 46 {
            return Some(i);
        }
        i = i + 1;
    }
    None
}

/// Proves digit-ness of a subrange from digit-ness of the whole.
pub proof fn lemma_all_digits_subrange(s: Seq<u8>, a: int, b: int)
    requires
        all_digits(s),
        0 <= a <= b <= s.len(),
    ensures
        all_digits(s.subrange(a, b)),
{
    let t = s.subrange(a, b);
    assert forall|i: int| 0 <= i < t.len() implies is_digit_byte(#[trigger] t[i]) by {
        assert(t[i] == s[i + a]);
    }
}

/// Decodes the fraction part `s[from..]` to its count of `10^-4` units:
/// exactly the first four digits, zero-padded on the right, with every byte
/// past the fourth still required to be a digit.
fn frac_units_of(s: &[u8], from: usize) -> (r: Option<u64>)
    requires
        from <= s@.len(),
    ensures
        ({
            let fp = s@.subrange(from as int, s@.len() as int);
            if all_digits(fp) {
                r == Some(spec_frac_units(fp) as u64) && 0 <= spec_frac_units(fp) <= 9999
            } else {
                r == None::<u64>
            }
        }),
{
    let ghost fp = s@.subrange(from as int, s@.len() as int);
    let take: usize = if s.len() - from < 4 { s.len() - from } else { 4 };
    let head = match accumulate_digits_range(s, from, from + take, 0) {
        Some(m) => m,
        None => {
            proof {
                assert(s@.subrange(from as int, (from + take) as int)
                    =~= fp.take(take as int));
                if all_digits(fp) {
                    lemma_all_digits_subrange(fp, 0, take as int);
                    assert(fp.subrange(0, take as int) =~= fp.take(take as int));
                    four_digit_bound(fp.take(take as int));
                    lemma_digits_val_nonneg(fp.take(take as int));
                }
            }
            return None;
        },
    };
    if !check_digits_range(s, from + take, s.len()) {
        proof {
            assert(s@.subrange((from + take) as int, s@.len() as int)
                =~= fp.subrange(take as int, fp.len() as int));
            if all_digits(fp) {
                lemma_all_digits_subrange(fp, take as int, fp.len() as int);
            }
        }
        return None;
    }
    proof {
        assert(s@.subrange(from as int, (from + take) as int) =~= fp.take(take as int));
        assert(all_digits(fp)) by {
            let hd = fp.take(take as int);
            let tl = fp.subrange(take as int, fp.len() as int);
            assert(s@.subrange((from + take) as int, s@.len() as int) =~= tl);
            assert forall|i: int| 0 <= i < fp.len() implies is_digit_byte(#[trigger] fp[i]) by {
                if i < take {
                    assert(fp[i] == hd[i]);
                } else {
                    assert(fp[i] == tl[i - take]);
                }
            }
        }
        lemma_all_digits_subrange(fp, 0, take as int);
        assert(fp.subrange(0, take as int) =~= fp.take(take as int));
        four_digit_bound(fp.take(take as int));
        lemma_digits_val_nonneg(fp.take(take as int));
        assert(head as int == spec_digits_val(fp.take(take as int)));
        if fp.len() < 4 {
            assert(fp.take(take as int) =~= fp);
        }
        frac_units_bounds(fp);
    }
    let units: u64 = head * small_pow10(4 - take);
    proof {
        assert(units as int == spec_frac_units(fp)) by {
            if fp.len() >= 4 {
                assert(take == 4);
                assert(spec_pow10(0) == 1);
            }
        }
    }
    Some(units)
}

/// Decodes signed fixed-point decimal text exactly as `spec_parse_fixed4`
/// reads it: the result counts `10^-4` units, fraction digits beyond the
/// fourth are dropped, and a magnitude outside `i64` fails.
pub fn parse_fixed4(s: &[u8]) -> (r: Option<i64>)
    ensures
        r == spec_parse_fixed4(s@),
{
    let ghost neg_g = spec_sign_split(s@).0;
    let ghost body_g = spec_sign_split(s@).1;
    let ghost ip_g = spec_dot_split(body_g).0;
    let ghost fp_g = spec_dot_split(body_g).1;
    let mut start: usize = 0;
    let mut neg = false;
    if s.len() > 0 && s[0] == 45 {
        neg = true;
        start = 1;
    } else if s.len() > 0 && s[0] == 43 {
        start = 1;
    }
    proof {
        assert(body_g =~= s@.subrange(start as int, s@.len() as int));
        assert(neg == neg_g);
    }
    let dot = find_dot(s, start);
    let int_end: usize = match dot {
        Some(i) => i,
        None => s.len(),
    };
    let frac_start: usize = match dot {
        Some(i) => i + 1,
        None => s.len(),
    };
    proof {
        let body = body_g;
        match dot {
            Some(i) => {
                let bi = i - start;
                assert(body[bi] == 46u8 && forall|j: int| 0 <= j < bi ==> body[j] != 46u8);
                assert(exists|x: int| 0 <= x < body.len() && #[trigger] body[x] == 46u8
                    && forall|j: int| 0 <= j < x ==> body[j] != 46u8);
                let c = choose|x: int| 0 <= x < body.len() && #[trigger] body[x] == 46u8
                    && forall|j: int| 0 <= j < x ==> body[j] != 46u8;
                assert(c == bi) by {
                    if c < bi {
                        assert(body[c] == 46u8);
                    }
                    if c > bi {
                        assert(body[bi] != 46u8);
                    }
                }
                assert(ip_g =~= s@.subrange(start as int, int_end as int));
                assert(fp_g =~= s@.subrange(frac_start as int, s@.len() as int));
            },
            None => {
                assert(forall|x: int| 0 <= x < body.len() ==> body[x] != 46u8);
                assert(ip_g =~= s@.subrange(start as int, int_end as int));
                assert(fp_g =~= Seq::<u8>::empty());
                assert(fp_g =~= s@.subrange(frac_start as int, s@.len() as int));
            },
        }
    }
    if int_end - start == 0 && frac_start == s.len() {
        // Not a single digit anywhere.
        return None;
    }
    // Integer part.
    let int_mag = match accumulate_digits_range(s, start, int_end, 0) {
        Some(m) => m,
        None => {
            proof {
                if all_digits(ip_g) && all_digits(fp_g) {
                    lemma_digits_val_nonneg(ip_g);
                    frac_units_bounds(fp_g);
                    assert((u64::MAX as int + 1) * 10000 + 0 > i64::MAX);
                    assert(spec_digits_val(ip_g) * 10000 >= (u64::MAX as int + 1) * 10000)
                        by (nonlinear_arith)
                        requires
                            spec_digits_val(ip_g) > u64::MAX,
                    ;
                }
            }
            return None;
        },
    };
    // Fraction part.
    let frac_units = match frac_units_of(s, frac_start) {
        Some(u) => u,
        None => {
            return None;
        },
    };
    proof {
        assert(all_digits(ip_g));
        assert(all_digits(fp_g));
        lemma_digits_val_nonneg(ip_g);
        assert(int_mag as int == spec_digits_val(ip_g));
        assert(frac_units as int == spec_frac_units(fp_g));
    }
    // The exact magnitude in 10^-4 units.
    let total: u128 = (int_mag as u128) * 10000 + (frac_units as u128);
    proof {
        assert(total as int == spec_fixed_mag(ip_g, fp_g));
        assert((int_mag as u128) * 10000 <= (u64::MAX as u128) * 10000) by (nonlinear_arith)
            requires
                int_mag as u128 <= u64::MAX as u128,
        ;
    }
    if neg {
        if total <= 9223372036854775807u128 {
            Some(-(total as i64))
        } else if total == 9223372036854775808u128 {
            Some(i64::MIN)
        } else {
            None
        }
    } else {
        if total <= 9223372036854775807u128 {
            Some(total as i64)
        } else {
            None
        }
    }
}

proof fn lemma_pow10_small()
    ensures
        spec_pow10(0) == 1,
        spec_pow10(1) == 10,
        spec_pow10(2) == 100,
        spec_pow10(3) == 1000,
        spec_pow10(4) == 10000,
{
    assert(spec_pow10(0) == 1);
    assert(spec_pow10(1) == 10);
    assert(spec_pow10(2) == 100);
    assert(spec_pow10(3) == 1000);
    assert(spec_pow10(4) == 10000);
}

/// A digit string's value is below `10^len`.
pub proof fn lemma_digits_val_upper(s: Seq<u8>)
    requires
        all_digits(s),
    ensures
        spec_digits_val(s) < spec_pow10(s.len()),
    decreases s.len(),
{
    if s.len() == 0 {
    } else {
        let d = s.drop_last();
        assert(all_digits(d));
        lemma_digits_val_upper(d);
        lemma_digits_val_nonneg(d);
        assert(is_digit_byte(s[s.len() - 1]));
        assert(s.last() == s[s.len() - 1]);
        assert(spec_digits_val(d) * 10 <= (spec_pow10(d.len()) - 1) * 10) by (nonlinear_arith)
            requires
                spec_digits_val(d) <= spec_pow10(d.len()) - 1,
        ;
        assert(spec_pow10(s.len()) == 10 * spec_pow10(d.len()));
    }
}

/// A string of at most four digits is worth at most 9999.
proof fn four_digit_bound(s: Seq<u8>)
    requires
        s.len() <= 4,
        all_digits(s),
    ensures
        spec_digits_val(s) <= 9999,
{
    lemma_digits_val_upper(s);
    lemma_digits_val_nonneg(s);
    lemma_pow10_small();
    if s.len() < 4 {
        lemma_pow10_mono(s.len(), 4);
    }
}

/// `spec_pow10` grows with its exponent.
proof fn lemma_pow10_mono(a: nat, b: nat)
    requires
        a <= b,
    ensures
        spec_pow10(a) <= spec_pow10(b),
    decreases b,
{
    if a < b {
        lemma_pow10_mono(a, (b - 1) as nat);
        lemma_pow10_pos((b - 1) as nat);
    }
}

proof fn frac_units_bounds(frac: Seq<u8>)
    requires
        all_digits(frac),
    ensures
        0 <= spec_frac_units(frac) <= 9999,
{
    lemma_pow10_small();
    if frac.len() >= 4 {
        lemma_all_digits_subrange(frac, 0, 4);
        assert(frac.subrange(0, 4) =~= frac.take(4));
        four_digit_bound(frac.take(4));
        lemma_digits_val_nonneg(frac.take(4));
    } else {
        lemma_digits_val_upper(frac);
        lemma_digits_val_nonneg(frac);
        let v = spec_digits_val(frac);
        let p = spec_pow10((4 - frac.len()) as nat);
        lemma_pow10_pos((4 - frac.len()) as nat);
        lemma_pow10_append(frac.len(), (4 - frac.len()) as nat);
        assert(spec_pow10(frac.len()) * p == spec_pow10(4));
        assert(v * p <= (spec_pow10(frac.len()) - 1) * p) by (nonlinear_arith)
            requires
                v <= spec_pow10(frac.len()) - 1,
                p >= 1,
        ;
        assert((spec_pow10(frac.len()) - 1) * p == spec_pow10(frac.len()) * p - p) by (nonlinear_arith);
        assert(v * p >= 0) by (nonlinear_arith)
            requires
                v >= 0,
                p >= 1,
        ;
    }
}

/// Reports whether every byte of `s[from..to]` is a decimal digit.
fn check_digits_range(s: &[u8], from: usize, to: usize) -> (r: bool)
    requires
        from <= to <= s@.len(),
    ensures
        r == all_digits(s@.subrange(from as int, to as int)),
{
    let ghost ds = s@.subrange(from as int, to as int);
    let mut i: usize = from;
    while i < to
        invariant
            from <= i <= to <= s@.len(),
            ds == s@.subrange(from as int, to as int),
            all_digits(ds.take(i - from)),
        decreases to - i,
    {
        let b = s[i];
        if b < 48 || b > 57 {
            proof {
                assert(ds[i - from] == b);
            }
            return false;
        }
        proof {
            let k = (i - from) as int;
            assert(forall|j: int| 0 <= j < k + 1
                ==> is_digit_byte(#[trigger] ds.take(k + 1)[j]));
        }
        i = i + 1;
    }
    proof {
        assert(ds.take((i - from) as int) =~= ds);
    }
    true
}

/// Accumulates the value of the digit run `s[from..to]` into `acc`, failing
/// exactly on a non-digit byte in the run or a value beyond `u64`.
fn accumulate_digits_range(s: &[u8], from: usize, to: usize, acc: u64) -> (r: Option<u64>)
    requires
        from <= to <= s@.len(),
    ensures
        ({
            let ds = s@.subrange(from as int, to as int);
            if !all_digits(ds) {
                r == None::<u64>
            } else {
                let total = (acc as int) * spec_pow10(ds.len()) + spec_digits_val(ds);
                if total <= u64::MAX {
                    r == Some(total as u64)
                } else {
                    r == None::<u64>
                }
            }
        }),
{
    let ghost ds = s@.subrange(from as int, to as int);
    let mut i: usize = from;
    let mut mag: u64 = acc;
    proof {
        assert(ds.take(0) =~= Seq::<u8>::empty());
    }
    while i < to
        invariant
            from <= i <= to <= s@.len(),
            ds == s@.subrange(from as int, to as int),
            all_digits(ds.take(i - from)),
            mag as int == (acc as int) * spec_pow10((i - from) as nat)
                + spec_digits_val(ds.take(i - from)),
        decreases to - i,
    {
        let b = s[i];
        if b < 48 || b > 57 {
            proof {
                assert(ds[i - from] == b);
                assert(!all_digits(ds));
            }
            return None;
        }
        let step = match mag.checked_mul(10) {
            Some(m) => m.checked_add((b - 48) as u64),
            None => None,
        };
        proof {
            let k = (i - from) as int;
            assert(ds.take(k + 1).drop_last() =~= ds.take(k));
            assert(ds.take(k + 1).last() == b);
            assert(spec_digits_val(ds.take(k + 1))
                == spec_digits_val(ds.take(k)) * 10 + (b - 48));
            assert((acc as int) * spec_pow10((k + 1) as nat)
                == ((acc as int) * spec_pow10(k as nat)) * 10) by (nonlinear_arith)
                requires
                    spec_pow10((k + 1) as nat) == 10 * spec_pow10(k as nat),
            ;
        }
        match step {
            Some(m) => {
                mag = m;
            },
            None => {
                proof {
                    let k = (i - from) as int;
                    let pre = ds.take(k + 1);
                    if all_digits(ds) {
                        let post = ds.subrange(k + 1, ds.len() as int);
                        assert(ds =~= pre + post);
                        lemma_digits_val_append(pre, post);
                        lemma_digits_val_nonneg(post);
                        lemma_pow10_pos(post.len());
                        assert(spec_pow10(ds.len()) == spec_pow10((k + 1) as nat) * spec_pow10((ds.len() - k - 1) as nat)) by {
                            lemma_pow10_append((k + 1) as nat, (ds.len() - k - 1) as nat);
                        }
                        let pv = (acc as int) * spec_pow10((k + 1) as nat) + spec_digits_val(pre);
                        let rest = spec_pow10(post.len());
                        assert(pv > u64::MAX);
                        assert((acc as int) * spec_pow10(ds.len()) + spec_digits_val(ds)
                            == pv * rest + spec_digits_val(post)) by (nonlinear_arith)
                            requires
                                spec_digits_val(ds) == spec_digits_val(pre) * rest + spec_digits_val(post),
                                spec_pow10(ds.len()) == spec_pow10((k + 1) as nat) * rest,
                                pv == (acc as int) * spec_pow10((k + 1) as nat) + spec_digits_val(pre),
                        ;
                        assert(pv * rest >= pv) by (nonlinear_arith)
                            requires
                                pv > 0,
                                rest >= 1,
                        ;
                    }
                }
                return None;
            },
        }
        i = i + 1;
    }
    proof {
        assert(ds.take((i - from) as int) =~= ds);
    }
    Some(mag)
}

} // verus!
