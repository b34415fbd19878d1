//! Byte-level parsing of comma-separated scene rows.
//!
//! A row names a primitive by a one-letter tag and gives its numbers as
//! plain decimals (an optional minus, up to twelve whole digits, and up to
//! six fraction digits — exactly the fixed-point precision). The grammar is
//! the library's own and is parsed here, on bytes, with exact contracts.

use vstd::prelude::*;

use crate::fixed::ONE;

verus! {

/// ASCII decimal digit.
pub open spec fn is_digit(b: u8) -> bool {
    48 <= b <= 57
}

pub open spec fn all_digits(s: Seq<u8>) -> bool {
    forall|i: int| 0 <= i < s.len() ==> is_digit(#[trigger] s[i])
}

/// The value of a digit string, most significant first.
pub open spec fn digits_val(s: Seq<u8>) -> int
    decreases s.len(),
{
    if s.len() == 0 {
        0
    } else {
        digits_val(s.drop_last()) * 10 + (s.last() - 48)
    }
}

/// First position of `b` at or after `i`, or the length.
pub open spec fn find_byte(s: Seq<u8>, b: u8, i: int) -> int
    recommends
        0 <= i <= s.len(),
    decreases s.len() - i,
{
    if i < 0 || i >= s.len() {
        s.len() as int
    } else if s[i] == b {
        i
    } else {
        find_byte(s, b, i + 1)
    }
}

pub open spec fn pow10(k: int) -> int
    decreases k,
{
    if k <= 0 {
        1
    } else {
        10 * pow10(k - 1)
    }
}

/// An unsigned decimal: digits, optionally a point and fraction digits, at
/// the fixed-point scale.
pub open spec fn spec_parse_unsigned(s: Seq<u8>) -> Option<int> {
    let d = find_byte(s, 46, 0);
    if d == s.len() {
        if 1 <= s.len() <= 12 && all_digits(s) {
            Some(digits_val(s) * (ONE as int))
        } else {
            None
        }
    } else {
        let whole = s.subrange(0, d);
        let frac = s.subrange(d + 1, s.len() as int);
        if 1 <= whole.len() <= 12 && all_digits(whole) && 1 <= frac.len() <= 6 && all_digits(frac) {
            Some(digits_val(whole) * (ONE as int) + digits_val(frac) * pow10(6 - frac.len()))
        } else {
            None
        }
    }
}

/// A decimal with an optional leading minus.
pub open spec fn spec_parse_fixed(s: Seq<u8>) -> Option<int> {
    if s.len() >= 1 && s[0] == 45 {
        match spec_parse_unsigned(s.drop_first()) {
            Some(v) => Some(-v),
            None => None,
        }
    } else {
        spec_parse_unsigned(s)
    }
}

/// First positions of a byte search stay within the haystack.
pub proof fn lemma_find_byte_bounds(s: Seq<u8>, b: u8, i: int)
    requires
        0 <= i <= s.len(),
    ensures
        i <= find_byte(s, b, i) <= s.len(),
    decreases s.len() - i,
{
    if i < s.len() && s[i] != b {
        lemma_find_byte_bounds(s, b, i + 1);
    }
}

/// The comma-separated decimals of a row's remainder.
pub open spec fn spec_parse_numbers(s: Seq<u8>) -> Option<Seq<int>>
    decreases s.len(),
    via spec_parse_numbers_dec
{
    let c = find_byte(s, 44, 0);
    if c == s.len() {
        match spec_parse_fixed(s) {
            Some(v) => Some(seq![v]),
            None => None,
        }
    } else {
        match spec_parse_fixed(s.subrange(0, c)) {
            Some(v) => match spec_parse_numbers(s.subrange(c + 1, s.len() as int)) {
                Some(vs) => Some(seq![v] + vs),
                None => None,
            },
            None => None,
        }
    }
}

#[via_fn]
proof fn spec_parse_numbers_dec(s: Seq<u8>) {
    lemma_find_byte_bounds(s, 44, 0);
}

/// A digit string's value stays under ten to its length.
pub proof fn lemma_digits_val_bound(s: Seq<u8>)
    requires
        all_digits(s),
    ensures
        0 <= digits_val(s) < pow10(s.len() as int),
    decreases s.len(),
{
    if s.len() > 0 {
        assert(all_digits(s.drop_last()));
        lemma_digits_val_bound(s.drop_last());
    }
}

/// Ten-powers are positive.
pub proof fn lemma_pow10_pos(k: int)
    ensures
        pow10(k) >= 1,
    decreases k,
{
    if k > 0 {
        lemma_pow10_pos(k - 1);
    }
}

/// Ten-powers grow with the exponent.
pub proof fn lemma_pow10_mono(a: int, b: int)
    requires
        a <= b,
    ensures
        1 <= pow10(a) <= pow10(b),
    decreases b - a,
{
    lemma_pow10_pos(a);
    if a < b {
        lemma_pow10_mono(a, b - 1);
        lemma_pow10_pos(b - 1);
    }
}

/// Ten-powers multiply by adding exponents.
pub proof fn lemma_pow10_add(a: int, b: int)
    requires
        a >= 0,
        b >= 0,
    ensures
        pow10(a) * pow10(b) == pow10(a + b),
    decreases a,
{
    if a > 0 {
        lemma_pow10_add(a - 1, b);
        assert(pow10(a) * pow10(b) == 10 * (pow10(a - 1) * pow10(b))) by (nonlinear_arith)
            requires pow10(a) == 10 * pow10(a - 1);
    }
}

/// The value of the twelfth ten-power, for bounding parsed magnitudes.
pub proof fn lemma_pow10_twelve()
    ensures
        pow10(12) == 1_000_000_000_000,
        pow10(6) == 1_000_000,
{
    reveal_with_fuel(pow10, 13);
}

/// First position of `b` at or after `from`.
pub fn find_byte_at(s: &[u8], b: u8, from: usize) -> (r: usize)
    requires
        from <= s@.len(),
    ensures
        r as int == find_byte(s@, b, from as int),
        from <= r <= s@.len(),
        r < s@.len() ==> s@[r as int] == b,
{
    let n = s.len();
    let mut i = from;
    while i < n
        invariant
            from <= i <= n,
            n == s@.len(),
            find_byte(s@, b, from as int) == find_byte(s@, b, i as int),
        decreases n - i,
    {
        if s[i] == b {
            return i;
        }
        i = i + 1;
    }
    n
}

/// Parse a digit string; `None` on anything else.
fn parse_digits(s: &[u8]) -> (r: Option<i64>)
    requires
        s@.len() <= 12,
    ensures
        match r {
            Some(v) => all_digits(s@) && s@.len() >= 1 && v as int == digits_val(s@) && 0 <= v
                < 1_000_000_000_000,
            None => !(all_digits(s@) && 1 <= s@.len()),
        },
{
    let n = s.len();
    if n == 0 {
        return None;
    }
    let mut acc: i64 = 0;
    let mut i: usize = 0;
    proof {
        lemma_pow10_twelve();
        assert(s@.subrange(0, 0) =~= Seq::<u8>::empty());
    }
    while i < n
        invariant
            0 <= i <= n,
            n == s@.len(),
            n <= 12,
            all_digits(s@.subrange(0, i as int)),
            acc as int == digits_val(s@.subrange(0, i as int)),
            0 <= acc as int,
            (acc as int) < pow10(i as int),
            pow10(12) == 1_000_000_000_000,
        decreases n - i,
    {
        let b = s[i];
        if b < 48 || b > 57 {
            return None;
        }
        proof {
            lemma_pow10_mono(i as int + 1, 12);
            assert(s@.subrange(0, i as int + 1).drop_last() =~= s@.subrange(0, i as int));
            assert(s@.subrange(0, i as int + 1).last() == s@[i as int]);
        }
        acc = acc * 10 + ((b - 48) as i64);
        i = i + 1;
    }
    proof {
        assert(s@.subrange(0, n as int) =~= s@);
        lemma_pow10_mono(n as int, 12);
    }
    Some(acc)
}

/// Parse one decimal into fixed-point quanta; exactly `spec_parse_fixed`.
pub fn parse_fixed_bytes(s: &[u8]) -> (r: Option<i64>)
    ensures
        match r {
            Some(v) => spec_parse_fixed(s@) == Some(v as int),
            None => spec_parse_fixed(s@) is None,
        },
{
    let n = s.len();
    let negative = n >= 1 && s[0] == 45;
    let body: &[u8] = if negative {
        vstd::slice::slice_subrange(s, 1, n)
    } else {
        s
    };
    proof {
        if negative {
            assert(body@ =~= s@.drop_first());
        }
    }
    let m = body.len();
    let dot = find_byte_at(body, 46, 0);
    let value: i64;
    if dot == m {
        if m > 12 {
            return None;
        }
        proof {
            lemma_pow10_twelve();
        }
        match parse_digits(body) {
            Some(whole) => {
                value = whole * ONE;
            },
            None => {
                return None;
            },
        }
    } else {
        let whole_part = vstd::slice::slice_subrange(body, 0, dot);
        let frac_part = vstd::slice::slice_subrange(body, dot + 1, m);
        proof {
            assert(whole_part@ =~= body@.subrange(0, dot as int));
            assert(frac_part@ =~= body@.subrange(dot as int + 1, m as int));
        }
        if whole_part.len() > 12 || frac_part.len() > 6 {
            return None;
        }
        proof {
            lemma_pow10_twelve();
        }
        match (parse_digits(whole_part), parse_digits(frac_part)) {
            (Some(whole), Some(frac)) => {
                let ghost fl = frac_part@.len() as int;
                let mut scale: i64 = 1;
                let mut k = frac_part.len();
                while k < 6
                    invariant
                        frac_part@.len() <= k <= 6,
                        fl == frac_part@.len() as int,
                        scale as int == pow10(k as int - fl),
                        1 <= scale as int <= 1_000_000,
                        pow10(6) == 1_000_000,
                    decreases 6 - k,
                {
                    proof {
                        lemma_pow10_mono(k as int + 1 - fl, 6);
                    }
                    scale = scale * 10;
                    k = k + 1;
                }
                proof {
                    lemma_digits_val_bound(frac_part@);
                    lemma_pow10_add(fl, 6 - fl);
                    lemma_pow10_pos(fl);
                    assert((frac as int) * (scale as int) < 1_000_000) by (nonlinear_arith)
                        requires
                            0 <= frac as int,
                            (frac as int) < pow10(fl),
                            scale as int == pow10(6 - fl),
                            pow10(fl) * pow10(6 - fl) == 1_000_000,
                            1 <= scale as int,
                            1 <= pow10(fl);
                    assert(0 <= (frac as int) * (scale as int)) by (nonlinear_arith)
                        requires 0 <= frac as int, 1 <= scale as int;
                }
                value = whole * ONE + frac * scale;
            },
            _ => {
                return None;
            },
        }
    }
    if negative {
        Some(-value)
    } else {
        Some(value)
    }
}

/// Parse a row remainder's comma-separated decimals; exactly
/// `spec_parse_numbers`.
pub fn parse_numbers(s: &[u8]) -> (r: Option<Vec<i64>>)
    ensures
        match r {
            Some(vs) => {
                &&& spec_parse_numbers(s@) matches Some(m)
                &&& m.len() == vs@.len()
                &&& forall|i: int| 0 <= i < m.len() ==> m[i] == (#[trigger] vs@[i]) as int
            },
            None => spec_parse_numbers(s@) is None,
        },
    decreases s@.len(),
{
    let n = s.len();
    let c = find_byte_at(s, 44, 0);
    if c == n {
        match parse_fixed_bytes(s) {
            Some(v) => {
                let mut out: Vec<i64> = Vec::new();
                out.push(v);
                Some(out)
            },
            None => None,
        }
    } else {
        let head = vstd::slice::slice_subrange(s, 0, c);
        let tail = vstd::slice::slice_subrange(s, c + 1, n);
        proof {
            assert(head@ =~= s@.subrange(0, c as int));
            assert(tail@ =~= s@.subrange(c as int + 1, n as int));
        }
        match parse_fixed_bytes(head) {
            Some(v) => match parse_numbers(tail) {
                Some(mut vs) => {
                    let mut out: Vec<i64> = Vec::new();
                    out.push(v);
                    out.append(&mut vs);
                    proof {
                        let m = spec_parse_numbers(s@).unwrap();
                        assert(m =~= seq![v as int] + spec_parse_numbers(tail@).unwrap());
                    }
                    Some(out)
                },
                None => None,
            },
            None => None,
        }
    }
}

} // verus!
