//! The header line of UXF text: `uxf`, whitespace, the version number, and
//! optionally whitespace and custom text (e.g., a file type and version).
use crate::error::UxfError;
use crate::text::{is_whitespace, unicode_whitespace};
use vstd::prelude::*;

verus! {

/// The index of the first newline in `s`, if there is one.
pub open spec fn first_newline(s: Seq<char>) -> Option<int>
    decreases s.len(),
{
    if s.len() == 0 {
        None
    } else {
        match first_newline(s.drop_last()) {
            Some(i) => Some(i),
            None => if s.last() == '\n' {
                Some(s.len() - 1)
            } else {
                None
            },
        }
    }
}

/// Whether `c` separates the parts of the header line.
pub open spec fn is_header_sep(c: char) -> bool {
    c == ' ' || c == '\t'
}

/// The index of the first space or tab in `s`, or its length if none.
pub open spec fn first_sep(s: Seq<char>) -> int
    decreases s.len(),
{
    if s.len() == 0 {
        0
    } else if first_sep(s.drop_last()) < s.len() - 1 {
        first_sep(s.drop_last())
    } else if is_header_sep(s.last()) {
        s.len() - 1
    } else {
        s.len() as int
    }
}

/// `s` without whitespace at either end.
pub open spec fn trimmed(s: Seq<char>) -> Seq<char>
    decreases s.len(),
{
    if s.len() == 0 {
        s
    } else if unicode_whitespace(s[0]) {
        trimmed(s.skip(1))
    } else if unicode_whitespace(s.last()) {
        trimmed(s.drop_last())
    } else {
        s
    }
}

/// The value of a run of decimal digits.
pub open spec fn digits_value(s: Seq<char>) -> nat
    decreases s.len(),
{
    if s.len() == 0 {
        0
    } else {
        digits_value(s.drop_last()) * 10 + ((s.last() as int) - ('0' as int)) as nat
    }
}

/// Whether every char of `s` is a decimal digit.
pub open spec fn all_digits(s: Seq<char>) -> bool {
    forall|i: int| 0 <= i < s.len() ==> '0' <= #[trigger] s[i] <= '9'
}

/// What reading `s` as a `u16` gives (as `str::parse::<u16>` does): an
/// optional `+` and one or more digits whose value is at most 65535.
pub open spec fn u16_of(s: Seq<char>) -> Option<u16> {
    if unsigned_digits(s).len() > 0 && all_digits(unsigned_digits(s)) && digits_value(
        unsigned_digits(s),
    ) <= 65535 {
        Some(digits_value(unsigned_digits(s)) as u16)
    } else {
        None
    }
}

/// `s` without a leading `+`.
pub open spec fn unsigned_digits(s: Seq<char>) -> Seq<char> {
    if s.len() > 0 && s[0] == '+' {
        s.skip(1)
    } else {
        s
    }
}

/// What a header line says: the version and the custom text, or the error
/// code.
pub open spec fn header_of(line: Seq<char>) -> Result<(u16, Seq<char>), u16> {
    let i = first_sep(line);
    if i >= line.len() {
        Err(120)
    } else {
        let p0 = line.take(i);
        let rest = line.skip(i + 1);
        let j = first_sep(rest);
        let p1 = rest.take(j);
        if p0 != "uxf"@ {
            Err(130)
        } else {
            match u16_of(trimmed(p1)) {
                None => Err(151),
                Some(v) => Ok(
                    (
                        v,
                        if j < rest.len() {
                            trimmed(rest.skip(j + 1))
                        } else {
                            seq![]
                        },
                    ),
                ),
            }
        }
    }
}

/// The message of a header error.
pub open spec fn header_message(code: u16) -> Seq<char> {
    if code == 110 {
        "missing UXF file header or missing data or empty file"@
    } else if code == 120 {
        "invalid UXF file header"@
    } else if code == 130 {
        "not a UXF file"@
    } else {
        "failed to read UXF file version number"@
    }
}

fn find_newline(text: &[char]) -> (r: Option<usize>)
    ensures
        r matches Some(i) ==> first_newline(text@) == Some(i as int),
        r is None ==> first_newline(text@) is None,
{
    let mut i: usize = 0;
    while i < text.len()
        invariant
            i <= text@.len(),
            first_newline(text@.take(i as int)) is None,
        decreases text@.len() - i,
    {
        assert(text@.take(i + 1).drop_last() =~= text@.take(i as int));
        if text[i] == '\n' {
            proof {
                lemma_first_newline_prefix(text@, i as int + 1, i as int);
            }
            return Some(i);
        }
        i += 1;
    }
    assert(text@.take(i as int) =~= text@);
    None
}

proof fn lemma_first_newline_prefix(s: Seq<char>, n: int, v: int)
    requires
        0 < n <= s.len(),
        first_newline(s.take(n)) == Some(v),
    ensures
        first_newline(s) == Some(v),
    decreases s.len() - n,
{
    if n < s.len() {
        assert(s.take(n + 1).drop_last() =~= s.take(n));
        lemma_first_newline_prefix(s, n + 1, v);
    } else {
        assert(s.take(n) =~= s);
    }
}

fn find_sep(s: &[char]) -> (r: usize)
    ensures
        r == first_sep(s@),
        r <= s@.len(),
{
    let mut i: usize = 0;
    while i < s.len()
        invariant
            i <= s@.len(),
            first_sep(s@.take(i as int)) == i,
        decreases s@.len() - i,
    {
        assert(s@.take(i + 1).drop_last() =~= s@.take(i as int));
        if s[i] == ' ' || s[i] == '\t' {
            proof {
                lemma_first_sep_prefix(s@, i as int + 1, i as int);
            }
            return i;
        }
        i += 1;
    }
    assert(s@.take(i as int) =~= s@);
    i
}

proof fn lemma_first_sep_prefix(s: Seq<char>, n: int, v: int)
    requires
        0 < n <= s.len(),
        v < n,
        first_sep(s.take(n)) == v,
    ensures
        first_sep(s) == v,
    decreases s.len() - n,
{
    if n < s.len() {
        assert(s.take(n + 1).drop_last() =~= s.take(n));
        lemma_first_sep_prefix(s, n + 1, v);
    } else {
        assert(s.take(n) =~= s);
    }
}

/// Returns `s` without whitespace at either end.
pub fn trim_chars(s: &[char]) -> (r: Vec<char>)
    ensures
        r@ == trimmed(s@),
{
    let mut a: usize = 0;
    let mut b: usize = s.len();
    let mut done = false;
    assert(s@.subrange(0, s@.len() as int) =~= s@);
    while a < b && !done
        invariant
            a <= b <= s@.len(),
            trimmed(s@) == trimmed(s@.subrange(a as int, b as int)),
            done ==> a < b && !unicode_whitespace(s@[a as int]) && !unicode_whitespace(s@[b - 1]),
        decreases b - a, if done { 0int } else { 1int },
    {
        let ghost sub = s@.subrange(a as int, b as int);
        assert(sub[0] == s@[a as int]);
        assert(sub.last() == s@[b - 1]);
        if is_whitespace(s[a]) {
            assert(sub.skip(1) =~= s@.subrange(a + 1, b as int));
            a += 1;
        } else if is_whitespace(s[b - 1]) {
            assert(sub.drop_last() =~= s@.subrange(a as int, b - 1));
            b -= 1;
        } else {
            done = true;
        }
    }
    proof {
        let sub = s@.subrange(a as int, b as int);
        if a < b {
            assert(sub[0] == s@[a as int]);
            assert(sub.last() == s@[b - 1]);
        }
    }
    let mut out: Vec<char> = Vec::new();
    let mut i = a;
    while i < b
        invariant
            a <= i <= b <= s@.len(),
            out@ == s@.subrange(a as int, i as int),
        decreases b - i,
    {
        out.push(s[i]);
        i += 1;
        assert(out@ =~= s@.subrange(a as int, i as int));
    }
    out
}

proof fn lemma_digits_value_bound(s: Seq<char>)
    requires
        all_digits(s),
    ensures
        digits_value(s) < pow10(s.len()),
    decreases s.len(),
{
    if s.len() > 0 {
        assert(all_digits(s.drop_last()));
        lemma_digits_value_bound(s.drop_last());
        assert('0' <= s[s.len() - 1] <= '9');
    }
}

/// Ten to the power `n`.
pub open spec fn pow10(n: nat) -> nat
    decreases n,
{
    if n == 0 {
        1
    } else {
        10 * pow10((n - 1) as nat)
    }
}

/// Reads `s` as a `u16`, as `str::parse::<u16>` does.
pub fn parse_u16(s: &[char]) -> (r: Option<u16>)
    ensures
        r == u16_of(s@),
{
    let start: usize = if s.len() > 0 && s[0] == '+' {
        1
    } else {
        0
    };
    let ghost d = unsigned_digits(s@);
    assert(d =~= s@.subrange(start as int, s@.len() as int));
    if start >= s.len() {
        assert(d.len() == 0);
        return None;
    }
    let mut v: u32 = 0;
    let mut i = start;
    while i < s.len()
        invariant
            start <= i <= s@.len(),
            d == s@.subrange(start as int, s@.len() as int),
            d == unsigned_digits(s@),
            all_digits(d.take(i - start)),
            v == digits_value(d.take(i - start)),
            v <= 65535,
        decreases s@.len() - i,
    {
        let c = s[i];
        assert(d[i - start] == c);
        if c < '0' || c > '9' {
            assert(!all_digits(d));
            return None;
        }
        let dv = (c as u32) - ('0' as u32);
        let ghost sub = d.take(i - start + 1);
        assert(sub.drop_last() =~= d.take(i - start));
        assert(sub.last() == c);
        assert(all_digits(sub));
        let nv = v * 10 + dv;
        assert(nv == digits_value(sub));
        i += 1;
        if nv > 65535 {
            proof {
                if all_digits(d) {
                    lemma_digits_value_mono(d, (i - start) as int);
                }
            }
            return None;
        }
        v = nv;
    }
    assert(d.take(i - start) =~= d);
    Some(v as u16)
}

proof fn lemma_digits_value_mono(s: Seq<char>, n: int)
    requires
        0 <= n <= s.len(),
        all_digits(s),
    ensures
        digits_value(s.take(n)) <= digits_value(s),
    decreases s.len() - n,
{
    if n < s.len() {
        lemma_digits_value_mono(s, n + 1);
        assert(s.take(n + 1).drop_last() =~= s.take(n));
        assert('0' <= s[n] <= '9');
        assert(digits_value(s.take(n + 1)) == digits_value(s.take(n)) * 10 + ((s[n] as int) - ('0' as int)) as nat);
        assert(digits_value(s.take(n)) <= digits_value(s.take(n + 1))) by (nonlinear_arith)
            requires
                digits_value(s.take(n + 1)) == digits_value(s.take(n)) * 10 + ((s[n] as int) - ('0' as int)) as nat,
                (s[n] as int) - ('0' as int) >= 0,
        ;
    } else {
        assert(s.take(n) =~= s);
    }
}

/// Returns the chars of `s` from `a` up to `b`.
pub fn sub_chars(s: &[char], a: usize, b: usize) -> (r: Vec<char>)
    requires
        a <= b <= s@.len(),
    ensures
        r@ == s@.subrange(a as int, b as int),
{
    let mut out: Vec<char> = Vec::new();
    let mut i = a;
    while i < b
        invariant
            a <= i <= b <= s@.len(),
            out@ == s@.subrange(a as int, i as int),
        decreases b - i,
    {
        out.push(s[i]);
        i += 1;
        assert(out@ =~= s@.subrange(a as int, i as int));
    }
    out
}

/// Reads the header line of UXF text (the text before its first newline):
/// returns where that newline is, the version, and the custom text (see
/// `header_of`), or an error: 110 if there is no newline, else 120, 130,
/// or 151 as `header_of` says, at line 1.
pub fn scan_header(text: &[char], filename: &str) -> (r: Result<(usize, u16, Vec<char>), UxfError>)
    ensures
        match first_newline(text@) {
            None => r matches Err(e) && e.code == 110 && e.lino == 1 && e.filename@ == filename@
                && e.message@ == header_message(110),
            Some(nl) => match header_of(text@.take(nl)) {
                Ok((v, custom)) => r matches Ok((p, v2, c)) && p == nl && v2 == v && c@ == custom,
                Err(code) => r matches Err(e) && e.code == code && e.lino == 1 && e.filename@
                    == filename@ && e.message@ == header_message(code),
            },
        },
{
    let nl = match find_newline(text) {
        Some(nl) => nl,
        None => {
            return Err(
                UxfError::new(
                    110,
                    String::from_str("missing UXF file header or missing data or empty file"),
                    filename,
                    1,
                ),
            );
        },
    };
    proof {
        lemma_first_newline_bound(text@);
    }
    let line = sub_chars(text, 0, nl);
    assert(line@ =~= text@.take(nl as int));
    let i = find_sep(line.as_slice());
    if i >= line.len() {
        assert(first_newline(text@) == Some(nl as int));
        assert(header_of(text@.take(nl as int)) == Err::<(u16, Seq<char>), u16>(120u16));
        return Err(UxfError::new(120, String::from_str("invalid UXF file header"), filename, 1));
    }
    let p0 = sub_chars(line.as_slice(), 0, i);
    let rest = sub_chars(line.as_slice(), i + 1, line.len());
    assert(p0@ =~= line@.take(i as int));
    assert(rest@ =~= line@.skip(i + 1));
    let j = find_sep(rest.as_slice());
    let p1 = sub_chars(rest.as_slice(), 0, j);
    assert(p1@ =~= rest@.take(j as int));
    proof {
        reveal_strlit("uxf");
    }
    if !(p0.len() == 3 && p0[0] == 'u' && p0[1] == 'x' && p0[2] == 'f') {
        assert(p0@ != "uxf"@);
        return Err(UxfError::new(130, String::from_str("not a UXF file"), filename, 1));
    }
    assert(p0@ =~= "uxf"@);
    let t1 = trim_chars(p1.as_slice());
    let v = match parse_u16(t1.as_slice()) {
        Some(v) => v,
        None => {
            return Err(
                UxfError::new(151, String::from_str("failed to read UXF file version number"), filename, 1),
            );
        },
    };
    let custom = if j < rest.len() {
        let tail = sub_chars(rest.as_slice(), j + 1, rest.len());
        assert(tail@ =~= rest@.skip(j + 1));
        trim_chars(tail.as_slice())
    } else {
        Vec::new()
    };
    Ok((nl, v, custom))
}

pub proof fn lemma_first_newline_bound(s: Seq<char>)
    ensures
        first_newline(s) matches Some(i) ==> 0 <= i < s.len() && s[i] == '\n',
    decreases s.len(),
{
    if s.len() > 0 {
        lemma_first_newline_bound(s.drop_last());
    }
}


/// A text without a newline has no first newline.
pub proof fn lemma_first_newline_none(s: Seq<char>)
    requires
        !s.contains('\n'),
    ensures
        first_newline(s) is None,
    decreases s.len(),
{
    if s.len() > 0 {
        assert(!s.drop_last().contains('\n')) by {
            if s.drop_last().contains('\n') {
                let i = choose|i: int| 0 <= i < s.drop_last().len() && s.drop_last()[i] == '\n';
                assert(s[i] == '\n');
            }
        }
        lemma_first_newline_none(s.drop_last());
        assert(s[s.len() - 1] != '\n');
    }
}

/// The first newline of a text is at `n` where the text has a newline at
/// `n` and none before it.
pub proof fn lemma_first_newline_at(s: Seq<char>, n: int)
    requires
        0 <= n < s.len(),
        s[n] == '\n',
        !s.take(n).contains('\n'),
    ensures
        first_newline(s) == Some(n),
    decreases s.len(),
{
    if s.len() == n + 1 {
        assert(s.drop_last() =~= s.take(n));
        lemma_first_newline_none(s.drop_last());
    } else {
        assert(s.drop_last().take(n) =~= s.take(n));
        lemma_first_newline_at(s.drop_last(), n);
    }
}

/// A text without a space or tab has its first separator at its end.
pub proof fn lemma_first_sep_none(s: Seq<char>)
    requires
        forall|i: int| 0 <= i < s.len() ==> !is_header_sep(#[trigger] s[i]),
    ensures
        first_sep(s) == s.len(),
    decreases s.len(),
{
    if s.len() > 0 {
        lemma_first_sep_none(s.drop_last());
    }
}

/// The first separator of a text is at `n` where the text has one at `n`
/// and none before it.
pub proof fn lemma_first_sep_at(s: Seq<char>, n: int)
    requires
        0 <= n < s.len(),
        is_header_sep(s[n]),
        forall|i: int| 0 <= i < n ==> !is_header_sep(#[trigger] s[i]),
    ensures
        first_sep(s) == n,
    decreases s.len(),
{
    if s.len() == n + 1 {
        lemma_first_sep_none(s.drop_last());
    } else {
        lemma_first_sep_at(s.drop_last(), n);
    }
}

/// The header line `uxf 1`, then (if `custom` is not empty) a space and
/// `custom`, is read as version 1 with that custom text, where `custom`
/// has no whitespace at either end.
pub proof fn lemma_header_of_written(custom: Seq<char>)
    requires
        trimmed(custom) == custom,
    ensures
        header_of("uxf 1"@ + (if custom.len() > 0 {
            seq![' '] + custom
        } else {
            seq![]
        })) == Ok::<(u16, Seq<char>), u16>((1u16, custom)),
{
    reveal_strlit("uxf 1");
    reveal_strlit("uxf");
    let line = "uxf 1"@ + (if custom.len() > 0 {
        seq![' '] + custom
    } else {
        seq![]
    });
    assert(line[3] == ' ');
    lemma_first_sep_at(line, 3);
    assert(line.take(3) =~= "uxf"@);
    let rest = line.skip(4);
    let one = seq!['1'];
    assert(trimmed(one) == one);
    assert(unsigned_digits(one) == one);
    assert(all_digits(one));
    assert(digits_value(one) == 1) by {
        assert(one.drop_last() =~= Seq::<char>::empty());
        assert(digits_value(one.drop_last()) == 0);
        assert(one.last() == '1');
        assert(('1' as int) - ('0' as int) == 1);
    }
    assert(u16_of(one) == Some(1u16));
    if custom.len() > 0 {
        assert(rest =~= seq!['1', ' '] + custom);
        assert(rest[1] == ' ');
        lemma_first_sep_at(rest, 1);
        assert(rest.take(1) =~= one);
        assert(rest.skip(2) =~= custom);
        assert(header_of(line) == Ok::<(u16, Seq<char>), u16>((1u16, custom)));
    } else {
        assert(rest =~= one);
        lemma_first_sep_none(rest);
        assert(rest.take(1) =~= one);
        assert(custom =~= Seq::<char>::empty());
        assert(header_of(line) == Ok::<(u16, Seq<char>), u16>((1u16, custom)));
    }
}

} // verus!
