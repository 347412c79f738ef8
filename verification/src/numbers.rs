//! Reading numbers from text: integers as `str::parse::<i64>` reads them,
//! and the syntax of reals (decimal or scientific notation).
use vstd::prelude::*;

verus! {

/// Whether `c` is a decimal digit.
pub open spec fn is_digit(c: char) -> bool {
    '0' <= c <= '9'
}

/// The value of a decimal digit.
pub open spec fn digit_value(c: char) -> int {
    (c as int) - ('0' as int)
}

/// The message for a digit that is not a digit.
pub open spec fn invalid_digit_message() -> Seq<char> {
    "invalid digit found in string"@
}

/// Reading the digits `s` after a sign, left to right, as `i64`'s parser
/// does: the value so far, or the message of the first problem met (a
/// non-digit, or a value out of the `i64` range).
pub open spec fn i64_scan(s: Seq<char>, negative: bool) -> Result<int, Seq<char>>
    decreases s.len(),
{
    if s.len() == 0 {
        Ok(0)
    } else {
        match i64_scan(s.drop_last(), negative) {
            Err(e) => Err(e),
            Ok(v) => if !is_digit(s.last()) {
                Err(invalid_digit_message())
            } else if negative {
                if v * 10 - digit_value(s.last()) < i64::MIN {
                    Err("number too small to fit in target type"@)
                } else {
                    Ok(v * 10 - digit_value(s.last()))
                }
            } else {
                if v * 10 + digit_value(s.last()) > i64::MAX {
                    Err("number too large to fit in target type"@)
                } else {
                    Ok(v * 10 + digit_value(s.last()))
                }
            },
        }
    }
}

/// What `str::parse::<i64>` gives for `s`: an optional sign and one or
/// more digits, read as `i64_scan` says.
pub open spec fn i64_of(s: Seq<char>) -> Result<int, Seq<char>> {
    if s.len() == 0 {
        Err("cannot parse integer from empty string"@)
    } else if (s[0] == '+' || s[0] == '-') && s.len() == 1 {
        Err(invalid_digit_message())
    } else if s[0] == '+' || s[0] == '-' {
        i64_scan(s.skip(1), s[0] == '-')
    } else {
        i64_scan(s, false)
    }
}

proof fn lemma_i64_scan_range(s: Seq<char>, negative: bool)
    ensures
        i64_scan(s, negative) matches Ok(v) ==> i64::MIN <= v <= i64::MAX && (negative ==> v <= 0)
            && (!negative ==> v >= 0),
    decreases s.len(),
{
    if s.len() > 0 {
        lemma_i64_scan_range(s.drop_last(), negative);
    }
}

/// Reads `s` as an `i64`, as `str::parse::<i64>` does, giving the message
/// of its error if it is not one.
pub fn parse_i64(s: &[char]) -> (r: Result<i64, String>)
    ensures
        match i64_of(s@) {
            Ok(v) => r matches Ok(x) && x == v,
            Err(m) => r matches Err(e) && e@ == m,
        },
{
    if s.len() == 0 {
        return Err(String::from_str("cannot parse integer from empty string"));
    }
    let signed = s[0] == '+' || s[0] == '-';
    if signed && s.len() == 1 {
        return Err(String::from_str("invalid digit found in string"));
    }
    let negative = s[0] == '-';
    let start: usize = if signed {
        1
    } else {
        0
    };
    let ghost d = s@.skip(start as int);
    let ghost neg = signed && negative;
    assert(s@.skip(0) =~= s@);
    assert(i64_of(s@) == i64_scan(d, neg));
    let mut v: i64 = 0;
    let mut i = start;
    assert(d.take(0) =~= Seq::<char>::empty());
    while i < s.len()
        invariant
            start <= i <= s@.len(),
            d == s@.skip(start as int),
            i64_scan(d.take(i - start), neg) == Ok::<int, Seq<char>>(v as int),
            neg == (signed && negative),
            start == (if signed { 1usize } else { 0usize }),
            i64_of(s@) == i64_scan(d, neg),
        decreases s@.len() - i,
    {
        let c = s[i];
        let ghost t = d.take(i - start + 1);
        assert(t.drop_last() =~= d.take(i - start));
        assert(t.last() == c);
        if c < '0' || c > '9' {
            proof {
                lemma_i64_scan_prefix_err(d, (i - start + 1) as int, neg);
            }
            return Err(String::from_str("invalid digit found in string"));
        }
        let dv = ((c as u32) - ('0' as u32)) as i128;
        let nv: i128 = if signed && negative {
            (v as i128) * 10 - dv
        } else {
            (v as i128) * 10 + dv
        };
        proof {
            lemma_i64_scan_range(d.take(i - start), neg);
        }
        if nv < i64::MIN as i128 {
            proof {
                lemma_i64_scan_prefix_err(d, (i - start + 1) as int, neg);
            }
            return Err(String::from_str("number too small to fit in target type"));
        }
        if nv > i64::MAX as i128 {
            proof {
                lemma_i64_scan_prefix_err(d, (i - start + 1) as int, neg);
            }
            return Err(String::from_str("number too large to fit in target type"));
        }
        v = nv as i64;
        i += 1;
    }
    assert(d.take(i - start) =~= d);
    Ok(v)
}

/// Once a prefix of the digits gives an error, so do the digits.
proof fn lemma_i64_scan_prefix_err(s: Seq<char>, n: int, negative: bool)
    requires
        0 < n <= s.len(),
        i64_scan(s.take(n), negative) is Err,
    ensures
        i64_scan(s, negative) == i64_scan(s.take(n), negative),
    decreases s.len() - n,
{
    if n < s.len() {
        assert(s.take(n + 1).drop_last() =~= s.take(n));
        lemma_i64_scan_prefix_err(s, n + 1, negative);
    } else {
        assert(s.take(n) =~= s);
    }
}

/// Whether every char of `s` is a decimal digit.
pub open spec fn digits_only(s: Seq<char>) -> bool {
    forall|i: int| 0 <= i < s.len() ==> is_digit(#[trigger] s[i])
}

/// The index of the first `c` in `s`, or its length if none.
pub open spec fn index_of_char(s: Seq<char>, c: char) -> int
    decreases s.len(),
{
    if s.len() == 0 {
        0
    } else if index_of_char(s.drop_last(), c) < s.len() - 1 {
        index_of_char(s.drop_last(), c)
    } else if s.last() == c {
        s.len() - 1
    } else {
        s.len() as int
    }
}

/// The index of the first `e` or `E` in `s`, or its length if none.
pub open spec fn exponent_start(s: Seq<char>) -> int {
    let a = index_of_char(s, 'e');
    let b = index_of_char(s, 'E');
    if a < b {
        a
    } else {
        b
    }
}

/// Whether `m` is the mantissa of a real: digits with at most one `.`,
/// and at least one digit.
pub open spec fn mantissa_ok(m: Seq<char>) -> bool {
    let dot = index_of_char(m, '.');
    if dot >= m.len() {
        m.len() > 0 && digits_only(m)
    } else {
        digits_only(m.take(dot)) && digits_only(m.skip(dot + 1)) && m.len() > 1
    }
}

/// Whether `e` is the exponent of a real: `e` or `E`, an optional sign,
/// and one or more digits.
pub open spec fn exponent_ok(e: Seq<char>) -> bool {
    let rest = if e.len() > 1 && (e[1] == '+' || e[1] == '-') {
        e.skip(2)
    } else {
        e.skip(1)
    };
    e.len() > 0 && rest.len() > 0 && digits_only(rest)
}

/// Whether `s` is a real written in decimal or scientific notation (with
/// no sign): a mantissa, then optionally an exponent.
pub open spec fn real_syntax(s: Seq<char>) -> bool {
    let k = exponent_start(s);
    mantissa_ok(s.take(k)) && (k >= s.len() || exponent_ok(s.skip(k)))
}

proof fn lemma_index_of_char_prefix(s: Seq<char>, c: char, n: int, v: int)
    requires
        0 < n <= s.len(),
        v < n,
        index_of_char(s.take(n), c) == v,
    ensures
        index_of_char(s, c) == v,
    decreases s.len() - n,
{
    if n < s.len() {
        assert(s.take(n + 1).drop_last() =~= s.take(n));
        lemma_index_of_char_prefix(s, c, n + 1, v);
    } else {
        assert(s.take(n) =~= s);
    }
}

/// Returns the index of the first `c` in `s`, or its length if none.
pub fn find_char(s: &[char], c: char) -> (r: usize)
    ensures
        r == index_of_char(s@, c),
        r <= s@.len(),
{
    let mut i: usize = 0;
    while i < s.len()
        invariant
            i <= s@.len(),
            index_of_char(s@.take(i as int), c) == i,
        decreases s@.len() - i,
    {
        assert(s@.take(i + 1).drop_last() =~= s@.take(i as int));
        if s[i] == c {
            proof {
                lemma_index_of_char_prefix(s@, c, i as int + 1, i as int);
            }
            return i;
        }
        i += 1;
    }
    assert(s@.take(i as int) =~= s@);
    i
}

/// Returns whether the chars of `s` from `a` up to `b` are all digits.
pub fn digits_between(s: &[char], a: usize, b: usize) -> (r: bool)
    requires
        a <= b <= s@.len(),
    ensures
        r == digits_only(s@.subrange(a as int, b as int)),
{
    let mut i = a;
    while i < b
        invariant
            a <= i <= b <= s@.len(),
            forall|k: int| a <= k < i ==> is_digit(#[trigger] s@[k]),
        decreases b - i,
    {
        if s[i] < '0' || s[i] > '9' {
            assert(s@.subrange(a as int, b as int)[i - a] == s@[i as int]);
            return false;
        }
        i += 1;
    }
    assert forall|k: int| 0 <= k < b - a implies is_digit(#[trigger] s@.subrange(a as int, b as int)[k]) by {
        assert(s@.subrange(a as int, b as int)[k] == s@[a + k]);
    }
    true
}

/// Returns whether `s` is a real in decimal or scientific notation (see
/// `real_syntax`).
pub fn is_real_text(s: &[char]) -> (b: bool)
    ensures
        b == real_syntax(s@),
{
    let ea = find_char(s, 'e');
    let eb = find_char(s, 'E');
    let k = if ea < eb {
        ea
    } else {
        eb
    };
    let ghost m = s@.take(k as int);
    let mut mc: Vec<char> = Vec::new();
    let mut i: usize = 0;
    while i < k
        invariant
            i <= k <= s@.len(),
            mc@ == s@.take(i as int),
        decreases k - i,
    {
        mc.push(s[i]);
        i += 1;
        assert(mc@ =~= s@.take(i as int));
    }
    assert(mc@ =~= m);
    let dot = find_char(mc.as_slice(), '.');
    let mantissa = if dot >= mc.len() {
        assert(m.subrange(0, m.len() as int) =~= m);
        mc.len() > 0 && digits_between(mc.as_slice(), 0, mc.len())
    } else {
        assert(m.subrange(0, dot as int) =~= m.take(dot as int));
        assert(m.subrange(dot + 1, m.len() as int) =~= m.skip(dot + 1));
        digits_between(mc.as_slice(), 0, dot) && digits_between(mc.as_slice(), dot + 1, mc.len())
            && mc.len() > 1
    };
    if !mantissa {
        return false;
    }
    if k >= s.len() {
        return true;
    }
    let ghost e = s@.skip(k as int);
    let start = if k + 1 < s.len() && (s[k + 1] == '+' || s[k + 1] == '-') {
        k + 2
    } else {
        k + 1
    };
    proof {
        if e.len() > 1 && (e[1] == '+' || e[1] == '-') {
            assert(e.skip(2) =~= s@.subrange(start as int, s@.len() as int));
        } else {
            assert(e.skip(1) =~= s@.subrange(start as int, s@.len() as int));
        }
    }
    start < s.len() && digits_between(s, start, s.len())
}

} // verus!
