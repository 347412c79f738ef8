//! Arithmetic on reals held as UXF text: an int written as a real, and a
//! real rounded to the nearest int (halves away from zero), as the repairs
//! of mistyped table and list values need.
use crate::numbers::{digits_only, exponent_start, index_of_char, is_digit};
use crate::text::{int_text, push_int};
use vstd::prelude::*;

verus! {

/// The text of an int written as a real: its digits and `.0`.
pub open spec fn int_as_real_text(i: int) -> Seq<char> {
    int_text(i) + seq!['.', '0']
}

/// Returns the text of `i` written as a real (e.g., `-3.0`).
pub fn real_text_of_int(i: i64) -> (s: String)
    ensures
        s@ == int_as_real_text(i as int),
{
    let mut out: Vec<char> = Vec::new();
    push_int(&mut out, i);
    out.push('.');
    out.push('0');
    assert(out@ =~= int_as_real_text(i as int));
    crate::util::str_for_chars(out.as_slice())
}

/// The value of a run of digits (any chars count as their digit value).
pub open spec fn digits_nat(s: Seq<char>) -> nat
    decreases s.len(),
{
    if s.len() == 0 {
        0
    } else {
        digits_nat(s.drop_last()) * 10 + (if is_digit(s.last()) {
            ((s.last() as int) - ('0' as int)) as nat
        } else {
            0
        })
    }
}

/// Ten to the power `n`.
pub open spec fn ten_pow(n: nat) -> nat
    decreases n,
{
    if n == 0 {
        1
    } else {
        10 * ten_pow((n - 1) as nat)
    }
}

/// The bound on exponents: larger ones count as this.
pub open spec fn exp_limit() -> int {
    0x4000_0000_0000_0000
}

/// The exponent that the text after `e` (an optional sign and digits)
/// gives, kept within `exp_limit`.
pub open spec fn exponent_value(e: Seq<char>) -> int {
    let neg = e.len() > 0 && e[0] == '-';
    let ds = if e.len() > 0 && (e[0] == '+' || e[0] == '-') {
        e.skip(1)
    } else {
        e
    };
    let v = if digits_nat(ds) > exp_limit() {
        exp_limit()
    } else {
        digits_nat(ds) as int
    };
    if neg {
        -v
    } else {
        v
    }
}

/// The digits of the mantissa of the unsigned real text `body`: those
/// before the `.` and then those after it.
pub open spec fn real_digits(body: Seq<char>) -> Seq<char> {
    let m = body.take(exponent_start(body));
    let dot = index_of_char(m, '.');
    if dot < m.len() {
        m.take(dot) + m.skip(dot + 1)
    } else {
        m
    }
}

/// Where the point sits among `real_digits(body)`: after the digits
/// before the `.`, moved by the exponent.
pub open spec fn real_point(body: Seq<char>) -> int {
    let k = exponent_start(body);
    let m = body.take(k);
    let x = if k < body.len() {
        exponent_value(body.skip(k + 1))
    } else {
        0
    };
    index_of_char(m, '.') + x
}

/// The whole number that the digits `d` give with the point after `p` of
/// them, rounded half away from zero.
pub open spec fn magnitude_at(d: Seq<char>, p: int) -> nat {
    let whole: nat = if p <= 0 {
        0
    } else if p >= d.len() {
        digits_nat(d) * ten_pow((p - d.len()) as nat)
    } else {
        digits_nat(d.take(p))
    };
    let up: nat = if 0 <= p < d.len() && d[p] >= '5' {
        1
    } else {
        0
    };
    whole + up
}

/// The nearest whole number to the unsigned real text `body` (halves
/// away from zero).
pub open spec fn rounded_magnitude(body: Seq<char>) -> nat {
    magnitude_at(real_digits(body), real_point(body))
}

/// The nearest `i64` to a real written as text (an optional sign, then
/// see `rounded_magnitude`), halves away from zero, with values beyond
/// the `i64` range giving its ends.
pub open spec fn rounded_real(s: Seq<char>) -> i64 {
    let neg = s.len() > 0 && s[0] == '-';
    let body = if s.len() > 0 && (s[0] == '+' || s[0] == '-') {
        s.skip(1)
    } else {
        s
    };
    let m = rounded_magnitude(body);
    if neg {
        if m > 0x8000_0000_0000_0000 {
            i64::MIN
        } else {
            (0 - m) as i64
        }
    } else {
        if m > 0x7FFF_FFFF_FFFF_FFFF {
            i64::MAX
        } else {
            m as i64
        }
    }
}

/// The cap beyond which magnitudes need not be known exactly.
pub open spec fn cap() -> nat {
    0x8000_0000_0000_0001
}

/// Returns `min(digits_nat(s), cap())`.
fn capped_digits(s: &[char], a: usize, b: usize) -> (r: u128)
    requires
        a <= b <= s@.len(),
    ensures
        r == (if digits_nat(s@.subrange(a as int, b as int)) >= cap() {
            cap()
        } else {
            digits_nat(s@.subrange(a as int, b as int))
        }),
{
    let mut v: u128 = 0;
    let mut i = a;
    assert(s@.subrange(a as int, a as int) =~= Seq::<char>::empty());
    while i < b
        invariant
            a <= i <= b <= s@.len(),
            v == (if digits_nat(s@.subrange(a as int, i as int)) >= cap() {
                cap()
            } else {
                digits_nat(s@.subrange(a as int, i as int))
            }),
        decreases b - i,
    {
        let c = s[i];
        let d: u128 = if '0' <= c && c <= '9' {
            ((c as u32) - ('0' as u32)) as u128
        } else {
            0
        };
        let ghost prev = digits_nat(s@.subrange(a as int, i as int));
        assert(s@.subrange(a as int, i + 1).drop_last() =~= s@.subrange(a as int, i as int));
        assert(s@.subrange(a as int, i + 1).last() == c);
        proof {
            lemma_digits_nat_mono_step(prev, d as nat);
        }
        if v >= 0x8000_0000_0000_0001 {
            v = 0x8000_0000_0000_0001;
        } else {
            let nv = v * 10 + d;
            v = if nv >= 0x8000_0000_0000_0001 {
                0x8000_0000_0000_0001
            } else {
                nv
            };
        }
        i += 1;
    }
    v
}

proof fn lemma_digits_nat_mono_step(prev: nat, d: nat)
    ensures
        prev >= cap() ==> prev * 10 + d >= cap(),
{
}

proof fn lemma_ten_pow_big(n: nat)
    requires
        n >= 19,
    ensures
        ten_pow(n) >= cap(),
    decreases n,
{
    if n > 19 {
        lemma_ten_pow_big((n - 1) as nat);
    } else {
        reveal_with_fuel(ten_pow, 20);
    }
}

/// `x` held below the cap.
pub open spec fn capped(x: int) -> int {
    if x >= cap() {
        cap() as int
    } else {
        x
    }
}

/// `min(b * 10^n, cap())`, given `base == min(b, cap())`, for `n < 19`.
fn capped_shift(base: u128, n: u128, Ghost(b): Ghost<nat>) -> (r: u128)
    requires
        base == capped(b as int),
        n < 19,
    ensures
        r == capped((b * ten_pow(n as nat)) as int),
{
    let mut w = base;
    let mut i: u128 = 0;
    assert(b * ten_pow(0) == b) by {
        assert(ten_pow(0) == 1);
    }
    while i < n
        invariant
            i <= n < 19,
            w == capped((b * ten_pow(i as nat)) as int),
        decreases n - i,
    {
        let ghost x = b * ten_pow(i as nat);
        let nw: u128 = if w >= 0x8000_0000_0000_0001 / 10 + 1 {
            0x8000_0000_0000_0001
        } else if w * 10 >= 0x8000_0000_0000_0001 {
            0x8000_0000_0000_0001
        } else {
            w * 10
        };
        proof {
            assert(ten_pow((i + 1) as nat) == 10 * ten_pow(i as nat));
            assert(b * ten_pow((i + 1) as nat) == x * 10) by (nonlinear_arith)
                requires
                    ten_pow((i + 1) as nat) == 10 * ten_pow(i as nat),
                    x == b * ten_pow(i as nat),
            ;
        }
        w = nw;
        i += 1;
    }
    w
}

/// Returns the digits of the mantissa of `body` and where the point
/// sits among them (see `real_digits`, `real_point`).
fn real_parts(body: &[char]) -> (r: (Vec<char>, i128))
    ensures
        r.0@ == real_digits(body@),
        r.1 == real_point(body@),
        -exp_limit() <= r.1 - index_of_char(body@.take(exponent_start(body@)), '.') <= exp_limit(),
{
    let ea = crate::numbers::find_char(body, 'e');
    let eb = crate::numbers::find_char(body, 'E');
    let k = if ea < eb {
        ea
    } else {
        eb
    };
    let m = crate::header::sub_chars(body, 0, k);
    assert(m@ =~= body@.take(k as int));
    let dot = crate::numbers::find_char(m.as_slice(), '.');
    let mut d: Vec<char> = crate::header::sub_chars(m.as_slice(), 0, dot);
    if dot < m.len() {
        let mut j = dot + 1;
        while j < m.len()
            invariant
                dot + 1 <= j <= m@.len(),
                d@ == m@.take(dot as int) + m@.subrange(dot + 1, j as int),
            decreases m@.len() - j,
        {
            d.push(m[j]);
            j += 1;
            assert(d@ =~= m@.take(dot as int) + m@.subrange(dot + 1, j as int));
        }
        assert(m@.subrange(dot + 1, m@.len() as int) =~= m@.skip(dot + 1));
    } else {
        assert(d@ =~= m@);
    }
    let x: i128 = if k < body.len() {
        let e = crate::header::sub_chars(body, k + 1, body.len());
        assert(e@ =~= body@.skip(k + 1));
        let eneg = e.len() > 0 && e[0] == '-';
        let es: usize = if e.len() > 0 && (e[0] == '+' || e[0] == '-') {
            1
        } else {
            0
        };
        let c = capped_digits(e.as_slice(), es, e.len());
        proof {
            let ds = if e@.len() > 0 && (e@[0] == '+' || e@[0] == '-') {
                e@.skip(1)
            } else {
                e@
            };
            assert(ds =~= e@.subrange(es as int, e@.len() as int));
        }
        let v: i128 = if c > 0x4000_0000_0000_0000 {
            0x4000_0000_0000_0000
        } else {
            c as i128
        };
        if eneg {
            -v
        } else {
            v
        }
    } else {
        0
    };
    (d, dot as i128 + x)
}

/// Returns `min(magnitude_at(d, p), cap())`.
fn capped_magnitude(d: &[char], p: i128) -> (r: u128)
    ensures
        r == capped(magnitude_at(d@, p as int) as int),
{
    let dl = d.len();
    let ghost ws: nat = if p <= 0 {
        0
    } else if p >= d@.len() {
        digits_nat(d@) * ten_pow((p - d@.len()) as nat)
    } else {
        digits_nat(d@.take(p as int))
    };
    let whole: u128 = if p <= 0 {
        0
    } else if p >= dl as i128 {
        let base = capped_digits(d, 0, dl);
        assert(d@.subrange(0, dl as int) =~= d@);
        let n = p - dl as i128;
        if base == 0 {
            assert(digits_nat(d@) == 0);
            assert(ws == 0) by (nonlinear_arith)
                requires
                    ws == digits_nat(d@) * ten_pow((p - d@.len()) as nat),
                    digits_nat(d@) == 0,
            ;
            0
        } else if n >= 19 {
            proof {
                lemma_ten_pow_big(n as nat);
                assert(digits_nat(d@) * ten_pow(n as nat) >= cap()) by (nonlinear_arith)
                    requires
                        digits_nat(d@) >= 1,
                        ten_pow(n as nat) >= cap(),
                ;
            }
            0x8000_0000_0000_0001
        } else {
            capped_shift(base, n as u128, Ghost(digits_nat(d@)))
        }
    } else {
        let w = capped_digits(d, 0, p as usize);
        assert(d@.subrange(0, p as int) =~= d@.take(p as int));
        w
    };
    assert(whole == capped(ws as int));
    let up: u128 = if 0 <= p && p < dl as i128 && d[p as usize] >= '5' {
        1
    } else {
        0
    };
    assert(magnitude_at(d@, p as int) == ws + up);
    if whole >= 0x8000_0000_0000_0001 {
        0x8000_0000_0000_0001
    } else {
        whole + up
    }
}

/// Returns the nearest `i64` to the real written as `t` (see
/// `rounded_real`).
pub fn round_real_text(t: &str) -> (r: i64)
    ensures
        r == rounded_real(t@),
{
    let cs = crate::text::chars_of(t);
    let neg = cs.len() > 0 && cs[0] == '-';
    let start: usize = if cs.len() > 0 && (cs[0] == '+' || cs[0] == '-') {
        1
    } else {
        0
    };
    let body = crate::header::sub_chars(cs.as_slice(), start, cs.len());
    let ghost sb = if t@.len() > 0 && (t@[0] == '+' || t@[0] == '-') {
        t@.skip(1)
    } else {
        t@
    };
    assert(body@ =~= sb);
    let (d, p) = real_parts(body.as_slice());
    let mag = capped_magnitude(d.as_slice(), p);
    assert(mag == capped(rounded_magnitude(sb) as int));
    if neg {
        if mag > 0x8000_0000_0000_0000 {
            i64::MIN
        } else {
            (0 - (mag as i128)) as i64
        }
    } else {
        if mag > 0x7FFF_FFFF_FFFF_FFFF {
            i64::MAX
        } else {
            mag as i64
        }
    }
}

} // verus!
