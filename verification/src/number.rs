//! Decimal text for counts and for similarities.
//!
//! A similarity is held as a whole number of millionths: `1_000_000` stands
//! for a cosine similarity of one.

use vstd::prelude::*;

verus! {

/// One, in millionths.
pub const MILLION: u32 = 1_000_000;

/// The character for the decimal digit `d`.
pub open spec fn digit(d: int) -> char {
    ((0x30 + d) as u8) as char
}

/// The value of a decimal digit character.
pub open spec fn digit_value(c: char) -> int {
    (c as u32) - 0x30
}

/// Whether a character is a decimal digit.
pub open spec fn is_digit(c: char) -> bool {
    0x30 <= (c as u32) <= 0x39
}

fn digit_char(d: u8) -> (c: char)
    requires
        d < 10,
    ensures
        c == digit(d as int),
        is_digit(c),
        digit_value(c) == d,
{
    (0x30u8 + d) as char
}

/// `n` in decimal, without sign or leading zeros.
pub open spec fn decimal(n: nat) -> Seq<char>
    decreases n,
{
    if n < 10 {
        seq![digit(n as int)]
    } else {
        decimal(n / 10).push(digit((n % 10) as int))
    }
}

/// Appends `decimal(n)` to `out`.
pub fn push_decimal(out: &mut Vec<char>, n: u128)
    ensures
        final(out)@ == old(out)@ + decimal(n as nat),
    decreases n,
{
    if n < 10 {
        out.push(digit_char(n as u8));
        assert(out@ == old(out)@ + seq![digit(n as int)]);
    } else {
        push_decimal(out, n / 10);
        out.push(digit_char((n % 10) as u8));
        assert(out@ == old(out)@ + decimal((n / 10) as nat).push(digit((n % 10) as int)));
    }
}

/// A similarity in millionths, rounded to the nearest thousandth; halves round
/// up.
pub open spec fn thousandths(similarity: u32) -> nat {
    ((similarity + 500) / 1000) as nat
}

/// A similarity in millionths as text with three decimals, such as `0.853`.
pub open spec fn fixed3(similarity: u32) -> Seq<char> {
    let t = thousandths(similarity);
    decimal(t / 1000) + seq![
        '.',
        digit((t / 100 % 10) as int),
        digit((t / 10 % 10) as int),
        digit((t % 10) as int),
    ]
}

/// Appends `fixed3(similarity)` to `out`.
pub fn push_fixed3(out: &mut Vec<char>, similarity: u32)
    ensures
        final(out)@ == old(out)@ + fixed3(similarity),
{
    let t: u64 = (similarity as u64 + 500) / 1000;
    push_decimal(out, (t / 1000) as u128);
    let ghost mid = out@;
    out.push('.');
    out.push(digit_char((t / 100 % 10) as u8));
    out.push(digit_char((t / 10 % 10) as u8));
    out.push(digit_char((t % 10) as u8));
    assert(out@ == mid + seq![
        '.',
        digit((t / 100 % 10) as int),
        digit((t / 10 % 10) as int),
        digit((t % 10) as int),
    ]);
}

/// Whether every character of `s` is a decimal digit.
pub open spec fn all_digits(s: Seq<char>) -> bool {
    forall|i: int| 0 <= i < s.len() ==> is_digit(#[trigger] s[i])
}

/// The number that a string of decimal digits writes.
pub open spec fn digits_value(s: Seq<char>) -> nat
    decreases s.len(),
{
    if s.len() == 0 {
        0
    } else {
        (digits_value(s.drop_last()) * 10 + digit_value(s.last())) as nat
    }
}

/// The value, in units of `unit / 10`, of the digits `f` read as a decimal
/// fraction; digits too fine for the unit are dropped.
pub open spec fn fraction_value(f: Seq<char>, unit: nat) -> nat
    decreases f.len(),
{
    if f.len() == 0 || unit < 10 {
        0
    } else {
        (digit_value(f[0]) * (unit / 10) + fraction_value(f.drop_first(), unit / 10)) as nat
    }
}

/// Index of the first `.` of `s`, or `s.len()`.
pub open spec fn point_at(s: Seq<char>) -> int
    decreases s.len(),
{
    if s.len() > 0 && s[0] != '.' {
        1 + point_at(s.drop_first())
    } else {
        0
    }
}

/// Whether `s` is a plain decimal number: one or more digits, then optionally
/// a point and further digits. No sign, no exponent.
pub open spec fn is_plain_decimal(s: Seq<char>) -> bool {
    let p = point_at(s);
    &&& 0 < p <= s.len()
    &&& all_digits(s.take(p))
    &&& p < s.len() ==> all_digits(s.skip(p + 1))
}

/// The value in millionths of a plain decimal number, digits past the sixth
/// decimal dropped.
pub open spec fn millionths_of(s: Seq<char>) -> nat {
    let p = point_at(s);
    digits_value(s.take(p)) * 1_000_000 + if p < s.len() {
        fraction_value(s.skip(p + 1), 1_000_000)
    } else {
        0
    }
}

/// What a similarity text reads as: the value of a plain decimal number that
/// fits in 32 bits of millionths, and nothing otherwise.
pub open spec fn similarity_of(s: Seq<char>) -> Option<u32> {
    if is_plain_decimal(s) && millionths_of(s) <= u32::MAX {
        Some(millionths_of(s) as u32)
    } else {
        None
    }
}

proof fn lemma_point_at_is(s: Seq<char>, n: int)
    requires
        0 <= n <= s.len(),
        forall|i: int| 0 <= i < n ==> #[trigger] s[i] != '.',
        n < s.len() ==> s[n] == '.',
    ensures
        point_at(s) == n,
    decreases n,
{
    if n > 0 {
        let r = s.drop_first();
        assert forall|i: int| 0 <= i < n - 1 implies #[trigger] r[i] != '.' by {
            assert(r[i] == s[i + 1]);
        }
        lemma_point_at_is(r, n - 1);
    }
}

fn digit_of(c: char) -> (d: Option<u32>)
    ensures
        d is Some == is_digit(c),
        d is Some ==> d->0 == digit_value(c) && d->0 <= 9,
{
    let u: u32 = c as u32;
    if 0x30 <= u && u <= 0x39 {
        Some(u - 0x30)
    } else {
        None
    }
}

/// Reads a similarity from text.
pub fn parse_similarity(v: &Vec<char>) -> (r: Option<u32>)
    ensures
        r == similarity_of(v@),
{
    let n = v.len();
    let mut p: usize = 0;
    // Integer part: `whole` is its value, unless `big` says that the value is
    // too large to matter.
    let mut whole: u64 = 0;
    let mut big = false;
    while p < n && v[p] != '.'
        invariant
            p <= n == v.len(),
            forall|i: int| 0 <= i < p ==> #[trigger] v@[i] != '.',
            all_digits(v@.take(p as int)),
            big ==> digits_value(v@.take(p as int)) > 4294,
            !big ==> whole == digits_value(v@.take(p as int)) && whole <= 4294,
        decreases n - p,
    {
        let ghost head = v@.take(p + 1);
        proof {
            assert(head.drop_last() == v@.take(p as int));
            assert(head.last() == v@[p as int]);
        }
        match digit_of(v[p]) {
            None => {
                proof {
                    lemma_point_at_bounds(v@);
                    if is_plain_decimal(v@) {
                        lemma_point_prefix(v@, p as int);
                        assert(v@.take(point_at(v@))[p as int] == v@[p as int]);
                    }
                }
                return None;
            },
            Some(d) => {
                proof {
                    assert forall|i: int| 0 <= i < p + 1 implies is_digit(#[trigger] head[i]) by {
                        if i < p {
                            assert(head[i] == v@.take(p as int)[i]);
                        }
                    }
                }
                if !big {
                    whole = whole * 10 + d as u64;
                    if whole > 4294 {
                        big = true;
                    }
                } else {
                    assert(digits_value(head) > 4294) by (nonlinear_arith)
                        requires
                            digits_value(head.drop_last()) > 4294,
                            digits_value(head) == digits_value(head.drop_last()) * 10 + d,
                            d >= 0,
                    ;
                }
            },
        }
        p += 1;
    }
    proof {
        lemma_point_at_is(v@, p as int);
    }
    if p == 0 {
        return None;
    }
    // Fraction.
    let mut frac: u64 = 0;
    if p < n {
        let ghost f = v@.skip(p + 1);
        let mut unit: u64 = 1_000_000;
        let mut q: usize = p + 1;
        proof {
            assert(f.skip(0) == f);
        }
        while q < n
            invariant
                p < q <= n == v.len(),
                point_at(v@) == p,
                f == v@.skip(p + 1),
                all_digits(f.take(q - p - 1)),
                unit <= 1_000_000,
                frac + fraction_value(f.skip(q - p - 1), unit as nat) == fraction_value(
                    f,
                    1_000_000,
                ),
                frac + unit <= 1_000_000,
            decreases n - q,
        {
            let ghost rest = f.skip(q - p - 1);
            proof {
                assert(rest[0] == v@[q as int]);
                assert(rest.drop_first() == f.skip(q - p));
            }
            match digit_of(v[q]) {
                None => {
                    proof {
                        if is_plain_decimal(v@) {
                            assert(f[q - p - 1] == v@[q as int]);
                        }
                    }
                    return None;
                },
                Some(d) => {
                    proof {
                        assert forall|i: int| 0 <= i < q - p implies is_digit(
                            #[trigger] f.take(q - p)[i],
                        ) by {
                            if i < q - p - 1 {
                                assert(f.take(q - p)[i] == f.take(q - p - 1)[i]);
                            } else {
                                assert(f.take(q - p)[i] == v@[q as int]);
                            }
                        }
                    }
                    if unit >= 10 {
                        let step: u64 = unit / 10;
                        assert(d * step <= 9 * step) by (nonlinear_arith)
                            requires
                                0 <= d <= 9,
                                step >= 0,
                        ;
                        frac = frac + d as u64 * step;
                        unit = step;
                    }
                },
            }
            q += 1;
        }
        proof {
            assert(f.take(n - p - 1) == f);
            assert(f.skip(n - p - 1).len() == 0);
        }
    }
    if big {
        proof {
            assert(digits_value(v@.take(p as int)) * 1_000_000 > u32::MAX) by (nonlinear_arith)
                requires
                    digits_value(v@.take(p as int)) > 4294,
            ;
        }
        return None;
    }
    let total: u64 = whole * 1_000_000 + frac;
    if total > u32::MAX as u64 {
        None
    } else {
        Some(total as u32)
    }
}

proof fn lemma_point_at_bounds(s: Seq<char>)
    ensures
        0 <= point_at(s) <= s.len(),
        forall|i: int| 0 <= i < point_at(s) ==> #[trigger] s[i] != '.',
        point_at(s) < s.len() ==> s[point_at(s)] == '.',
    decreases s.len(),
{
    if s.len() > 0 && s[0] != '.' {
        let r = s.drop_first();
        lemma_point_at_bounds(r);
        assert forall|i: int| 0 <= i < point_at(s) implies #[trigger] s[i] != '.' by {
            if i > 0 {
                assert(s[i] == r[i - 1]);
            }
        }
        if point_at(s) < s.len() {
            assert(s[point_at(s)] == r[point_at(r)]);
        }
    }
}

/// An index before which `s` holds no point lies before `point_at(s)`, unless
/// it holds the point itself.
proof fn lemma_point_prefix(s: Seq<char>, p: int)
    requires
        0 <= p < s.len(),
        forall|i: int| 0 <= i < p ==> #[trigger] s[i] != '.',
        s[p] != '.',
    ensures
        p < point_at(s),
{
    lemma_point_at_bounds(s);
    if point_at(s) <= p {
        if point_at(s) < p {
            assert(s[point_at(s)] != '.');
        }
    }
}

} // verus!
