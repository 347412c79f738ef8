//! Text helpers: XML-style escaping of `&`, `<`, `>`, hex text of bytes,
//! and file name parts.
use crate::error::UxfError;
use crate::text::{chars_of, ascii_hexdigit, ascii_whitespace, hex_value, digit_char, digit, debug_char_text, is_ascii_hexdigit, is_ascii_whitespace, push_chars};
use vstd::prelude::*;

verus! {

/// Returns a String holding the given chars, in order
/// (`data.iter().collect::<String>()`).
#[verifier::external_body]
pub fn str_for_chars(data: &[char]) -> (s: String)
    ensures
        s@ == data@,
{
    data.iter().collect::<String>()
}

/// `&amp;`
pub open spec fn amp_entity() -> Seq<char> {
    seq!['&', 'a', 'm', 'p', ';']
}

/// `&lt;`
pub open spec fn lt_entity() -> Seq<char> {
    seq!['&', 'l', 't', ';']
}

/// `&gt;`
pub open spec fn gt_entity() -> Seq<char> {
    seq!['&', 'g', 't', ';']
}

/// The escaped form of one char: `&` → `&amp;`, `<` → `&lt;`, `>` → `&gt;`,
/// any other char stands for itself.
pub open spec fn escape_char(c: char) -> Seq<char> {
    if c == '&' {
        amp_entity()
    } else if c == '<' {
        lt_entity()
    } else if c == '>' {
        gt_entity()
    } else {
        seq![c]
    }
}

/// `s` with every `&`, `<`, `>` replaced by its entity.
pub open spec fn escaped(s: Seq<char>) -> Seq<char>
    decreases s.len(),
{
    if s.len() == 0 {
        seq![]
    } else {
        escaped(s.drop_last()) + escape_char(s.last())
    }
}

/// `s` with every `&amp;`, `&lt;`, `&gt;` replaced by the char it stands
/// for (the entities never overlap, so the replacements are independent
/// of one another).
pub open spec fn unescaped(s: Seq<char>) -> Seq<char>
    decreases s.len(),
{
    if s.len() == 0 {
        seq![]
    } else if s.len() >= 5 && s.take(5) == amp_entity() {
        seq!['&'] + unescaped(s.skip(5))
    } else if s.len() >= 4 && s.take(4) == lt_entity() {
        seq!['<'] + unescaped(s.skip(4))
    } else if s.len() >= 4 && s.take(4) == gt_entity() {
        seq!['>'] + unescaped(s.skip(4))
    } else {
        seq![s[0]] + unescaped(s.skip(1))
    }
}

/// Appends the escaped form of `s` to `out`.
pub fn push_escaped(out: &mut Vec<char>, s: &[char])
    ensures
        final(out)@ == old(out)@ + escaped(s@),
{
    let ghost start = out@;
    let mut i: usize = 0;
    while i < s.len()
        invariant
            i <= s@.len(),
            out@ == start + escaped(s@.take(i as int)),
        decreases s@.len() - i,
    {
        let c = s[i];
        if c == '&' {
            out.push('&');
            out.push('a');
            out.push('m');
            out.push('p');
            out.push(';');
        } else if c == '<' {
            out.push('&');
            out.push('l');
            out.push('t');
            out.push(';');
        } else if c == '>' {
            out.push('&');
            out.push('g');
            out.push('t');
            out.push(';');
        } else {
            out.push(c);
        }
        proof {
            assert(s@.take(i + 1).drop_last() =~= s@.take(i as int));
            assert(s@.take(i + 1).last() == c);
        }
        i += 1;
        assert(out@ =~= start + escaped(s@.take(i as int)));
    }
    assert(s@.take(s@.len() as int) =~= s@);
}

/// Returns a clone of `s` with replacements & → &amp; < → &lt; > → &gt;
pub fn escape(s: &str) -> (r: String)
    ensures
        r@ == escaped(s@),
{
    let chars = chars_of(s);
    let mut out: Vec<char> = Vec::new();
    push_escaped(&mut out, chars.as_slice());
    assert(out@ =~= escaped(s@));
    str_for_chars(out.as_slice())
}

/// Whether `s` holds `e` at index `i`.
pub open spec fn holds_at(s: Seq<char>, i: int, e: Seq<char>) -> bool {
    i + e.len() <= s.len() && s.subrange(i, i + e.len()) == e
}

fn entity_at(s: &[char], i: usize, e0: char, e1: char, e2: char, e3: char) -> (b: bool)
    requires
        i <= s@.len(),
    ensures
        b == holds_at(s@, i as int, seq![e0, e1, e2, e3]),
{
    if s.len() - i >= 4 {
        let b = s[i] == e0 && s[i + 1] == e1 && s[i + 2] == e2 && s[i + 3] == e3;
        proof {
            let sub = s@.subrange(i as int, i + 4);
            if b {
                assert(sub =~= seq![e0, e1, e2, e3]);
            } else {
                if sub == seq![e0, e1, e2, e3] {
                    assert(sub[0] == e0 && sub[1] == e1 && sub[2] == e2 && sub[3] == e3);
                }
            }
        }
        b
    } else {
        false
    }
}

fn amp_at(s: &[char], i: usize) -> (b: bool)
    requires
        i <= s@.len(),
    ensures
        b == holds_at(s@, i as int, amp_entity()),
{
    if s.len() - i >= 5 {
        let b = s[i] == '&' && s[i + 1] == 'a' && s[i + 2] == 'm' && s[i + 3] == 'p' && s[i + 4]
            == ';';
        proof {
            let sub = s@.subrange(i as int, i + 5);
            if b {
                assert(sub =~= amp_entity());
            } else {
                if sub == amp_entity() {
                    assert(sub[0] == '&' && sub[1] == 'a' && sub[2] == 'm' && sub[3] == 'p' && sub[4]
                        == ';');
                }
            }
        }
        b
    } else {
        false
    }
}

proof fn lemma_holds_at_skip(s: Seq<char>, i: int, e: Seq<char>)
    requires
        0 <= i <= s.len(),
    ensures
        holds_at(s, i, e) == (s.skip(i).len() >= e.len() && s.skip(i).take(e.len() as int) == e),
{
    if i + e.len() <= s.len() {
        assert(s.subrange(i, i + e.len()) =~= s.skip(i).take(e.len() as int));
    }
}

/// Appends the unescaped form of `s` to `out`.
pub fn push_unescaped(out: &mut Vec<char>, s: &[char])
    ensures
        final(out)@ == old(out)@ + unescaped(s@),
{
    let ghost start = out@;
    let mut i: usize = 0;
    assert(s@.skip(0) =~= s@);
    while i < s.len()
        invariant
            i <= s@.len(),
            start + unescaped(s@) == out@ + unescaped(s@.skip(i as int)),
        decreases s@.len() - i,
    {
        let ghost rest = s@.skip(i as int);
        proof {
            lemma_holds_at_skip(s@, i as int, amp_entity());
            lemma_holds_at_skip(s@, i as int, lt_entity());
            lemma_holds_at_skip(s@, i as int, gt_entity());
        }
        if amp_at(s, i) {
            out.push('&');
            proof {
                assert(rest.skip(5) =~= s@.skip(i + 5));
            }
            i += 5;
        } else if entity_at(s, i, '&', 'l', 't', ';') {
            out.push('<');
            proof {
                assert(rest.skip(4) =~= s@.skip(i + 4));
            }
            i += 4;
        } else if entity_at(s, i, '&', 'g', 't', ';') {
            out.push('>');
            proof {
                assert(rest.skip(4) =~= s@.skip(i + 4));
            }
            i += 4;
        } else {
            out.push(s[i]);
            proof {
                assert(rest[0] == s@[i as int]);
                assert(rest.skip(1) =~= s@.skip(i + 1));
            }
            i += 1;
        }
        assert(start + unescaped(s@) =~= out@ + unescaped(s@.skip(i as int)));
    }
    assert(s@.skip(i as int) =~= Seq::<char>::empty());
    assert(out@ =~= start + unescaped(s@));
}

/// Returns a clone of `s` with replacements &amp; → & &lt; → < &gt; → >
pub fn unescape(s: &str) -> (r: String)
    ensures
        r@ == unescaped(s@),
{
    let chars = chars_of(s);
    let mut out: Vec<char> = Vec::new();
    push_unescaped(&mut out, chars.as_slice());
    assert(out@ =~= unescaped(s@));
    str_for_chars(out.as_slice())
}

proof fn lemma_unescaped_of_escape_char(c: char, t: Seq<char>)
    ensures
        unescaped(escape_char(c) + t) == seq![c] + unescaped(t),
{
    let u = escape_char(c) + t;
    if c == '&' {
        assert(u.take(5) =~= amp_entity());
        assert(u.skip(5) =~= t);
    } else if c == '<' {
        assert(u.take(4) =~= lt_entity());
        assert(u.skip(4) =~= t);
        assert(u.len() < 5 || u.take(5) != amp_entity()) by {
            if u.len() >= 5 {
                assert(u.take(5)[1] == 'l');
            }
        }
    } else if c == '>' {
        assert(u.take(4) =~= gt_entity());
        assert(u.skip(4) =~= t);
        assert(u.len() < 5 || u.take(5) != amp_entity()) by {
            if u.len() >= 5 {
                assert(u.take(5)[1] == 'g');
            }
        }
        assert(u.take(4) != lt_entity()) by {
            assert(u.take(4)[1] == 'g');
        }
    } else {
        assert(u[0] == c);
        assert(u.skip(1) =~= t);
        assert(u.len() < 5 || u.take(5) != amp_entity()) by {
            if u.len() >= 5 {
                assert(u.take(5)[0] == c);
            }
        }
        assert(u.len() < 4 || u.take(4) != lt_entity()) by {
            if u.len() >= 4 {
                assert(u.take(4)[0] == c);
            }
        }
        assert(u.len() < 4 || u.take(4) != gt_entity()) by {
            if u.len() >= 4 {
                assert(u.take(4)[0] == c);
            }
        }
    }
}

proof fn lemma_escaped_front(s: Seq<char>)
    requires
        s.len() > 0,
    ensures
        escaped(s) == escape_char(s[0]) + escaped(s.skip(1)),
    decreases s.len(),
{
    if s.len() == 1 {
        assert(s.drop_last() =~= Seq::<char>::empty());
        assert(s.skip(1) =~= Seq::<char>::empty());
        assert(escaped(s.skip(1)) =~= Seq::<char>::empty());
        assert(escaped(s) =~= escape_char(s[0]) + escaped(s.skip(1)));
    } else {
        lemma_escaped_front(s.drop_last());
        assert(s.drop_last().skip(1) =~= s.skip(1).drop_last());
        assert(s.skip(1).last() == s.last());
        assert(escaped(s) =~= escape_char(s[0]) + escaped(s.skip(1)));
    }
}

/// Unescaping undoes escaping: for every text `s`,
/// `unescape(&escape(s)) == s`.
pub proof fn law_unescape_escape(s: Seq<char>)
    ensures
        unescaped(escaped(s)) == s,
    decreases s.len(),
{
    if s.len() == 0 {
        assert(escaped(s) =~= Seq::<char>::empty());
    } else {
        lemma_escaped_front(s);
        law_unescape_escape(s.skip(1));
        lemma_unescaped_of_escape_char(s[0], escaped(s.skip(1)));
        assert(seq![s[0]] + s.skip(1) =~= s);
    }
}

/// Escaped text holds no `<` and no `>`, so it can always stand between
/// the `<` and `>` that delimit a UXF str.
pub proof fn law_escaped_has_no_angle_brackets(s: Seq<char>)
    ensures
        forall|i: int| 0 <= i < escaped(s).len() ==> escaped(s)[i] != '<' && escaped(s)[i] != '>',
    decreases s.len(),
{
    if s.len() > 0 {
        law_escaped_has_no_angle_brackets(s.drop_last());
        let a = escaped(s.drop_last());
        let b = escape_char(s.last());
        assert forall|i: int| 0 <= i < escaped(s).len() implies escaped(s)[i] != '<' && escaped(
            s,
        )[i] != '>' by {
            if i < a.len() {
                assert(escaped(s)[i] == a[i]);
            } else {
                assert(escaped(s)[i] == b[i - a.len()]);
            }
        }
    }
}

/// The byte values that a run of hex text (hex digit pairs, with any ASCII
/// whitespace between digits ignored) stands for, given a `pending` first
/// digit of a pair; `None` when a char is neither a hex digit nor ASCII
/// whitespace, or when the digits do not come in pairs.
pub open spec fn hex_scan(s: Seq<char>, pending: Option<char>) -> Option<Seq<u8>>
    decreases s.len(),
{
    if s.len() == 0 {
        if pending is None {
            Some(seq![])
        } else {
            None
        }
    } else if ascii_hexdigit(s[0]) {
        match pending {
            None => hex_scan(s.skip(1), Some(s[0])),
            Some(p) => match hex_scan(s.skip(1), None) {
                Some(rest) => Some(seq![(hex_value(p) * 16 + hex_value(s[0])) as u8] + rest),
                None => None,
            },
        }
    } else if ascii_whitespace(s[0]) {
        hex_scan(s.skip(1), pending)
    } else {
        None
    }
}

/// The first char of `s` that is neither a hex digit nor ASCII whitespace.
pub open spec fn first_non_hex(s: Seq<char>) -> char
    decreases s.len(),
{
    if s.len() == 0 {
        ' '
    } else if ascii_hexdigit(s[0]) || ascii_whitespace(s[0]) {
        first_non_hex(s.skip(1))
    } else {
        s[0]
    }
}

/// The message of the error for an invalid char in hex text.
pub open spec fn hex_error_message(c: char) -> Seq<char> {
    "invalid hex char: "@ + debug_char_text(c)
}

/// The message of the error for hex text that is not valid: the first
/// invalid char if there is one (`first_non_hex` gives a space where there
/// is none), else the unpaired digit.
pub open spec fn hex_text_error(s: Seq<char>) -> Seq<char> {
    if first_non_hex(s) == ' ' {
        "hex digits must come in pairs"@
    } else {
        hex_error_message(first_non_hex(s))
    }
}

proof fn lemma_hex_scan_step(s: Seq<char>, i: int, pending: Option<char>)
    requires
        0 <= i < s.len(),
    ensures
        s.skip(i)[0] == s[i],
        s.skip(i).skip(1) == s.skip(i + 1),
        first_non_hex(s.skip(i)) == if ascii_hexdigit(s[i]) || ascii_whitespace(s[i]) {
            first_non_hex(s.skip(i + 1))
        } else {
            s[i]
        },
{
    assert(s.skip(i).skip(1) =~= s.skip(i + 1));
}

/// Returns the bytes for the given chars: each char may be 0-9A-Fa-f or
/// ASCII whitespace (which is ignored); non-whitespace chars come in pairs
/// (even if separated by whitespace). Any other char, or an unpaired
/// digit, gives error 600.
pub fn hex_chars_as_bytes(h: &[char], filename: &str, lino: usize) -> (r: Result<Vec<u8>, UxfError>)
    ensures
        match r {
            Ok(raw) => hex_scan(h@, None) == Some(raw@),
            Err(e) => hex_scan(h@, None) is None && e.code == 600 && e.filename@ == filename@
                && e.lino == lino && e.message@ == hex_text_error(h@),
        },
{
    let mut raw: Vec<u8> = Vec::new();
    let mut pending: Option<char> = None;
    let mut i: usize = 0;
    assert(h@.skip(0) =~= h@);
    while i < h.len()
        invariant
            i <= h@.len(),
            pending matches Some(p) ==> ascii_hexdigit(p),
            hex_scan(h@, None) == match hex_scan(h@.skip(i as int), pending) {
                Some(rest) => Some(raw@ + rest),
                None => None::<Seq<u8>>,
            },
            first_non_hex(h@) == first_non_hex(h@.skip(i as int)),
        decreases h@.len() - i,
    {
        let c = h[i];
        proof {
            lemma_hex_scan_step(h@, i as int, pending);
        }
        if is_ascii_hexdigit(c) {
            match pending {
                None => {
                    pending = Some(c);
                },
                Some(p) => {
                    let x: u8 = hex_digit_value(p) * 16 + hex_digit_value(c);
                    let ghost old_raw = raw@;
                    raw.push(x);
                    pending = None;
                    proof {
                        let rest_scan = hex_scan(h@.skip(i + 1), None);
                        if let Some(rest) = rest_scan {
                            assert(old_raw + (seq![x] + rest) =~= raw@ + rest);
                        }
                    }
                },
            }
        } else if is_ascii_whitespace(c) {
        } else {
            let mut message = String::from_str("invalid hex char: ");
            let d = crate::text::debug_char(c);
            message = message.concat(d.as_str());
            return Err(UxfError::new(600, message, filename, lino));
        }
        i += 1;
    }
    assert(h@.skip(i as int) =~= Seq::<char>::empty());
    assert(raw@ + Seq::<u8>::empty() =~= raw@);
    if pending.is_some() {
        return Err(UxfError::new(600, String::from_str("hex digits must come in pairs"), filename, lino));
    }
    Ok(raw)
}

fn hex_digit_value(c: char) -> (v: u8)
    requires
        ascii_hexdigit(c),
    ensures
        v == hex_value(c),
        v < 16,
{
    if '0' <= c && c <= '9' {
        (c as u32 - '0' as u32) as u8
    } else if 'a' <= c && c <= 'f' {
        (c as u32 - 'a' as u32 + 10) as u8
    } else {
        (c as u32 - 'A' as u32 + 10) as u8
    }
}

/// Returns the bytes for the given hex text; see `hex_chars_as_bytes`.
pub fn hex_as_bytes(h: &str, filename: &str, lino: usize) -> (r: Result<Vec<u8>, UxfError>)
    ensures
        match r {
            Ok(raw) => hex_scan(h@, None) == Some(raw@),
            Err(e) => hex_scan(h@, None) is None && e.code == 600 && e.filename@ == filename@
                && e.lino == lino && e.message@ == hex_text_error(h@),
        },
{
    let chars = chars_of(h);
    hex_chars_as_bytes(chars.as_slice(), filename, lino)
}

/// The uppercase hex digit for `d` (0-15).
pub open spec fn hex_digit_char(d: int) -> char {
    if d < 10 {
        digit_char(d)
    } else if d == 10 {
        'A'
    } else if d == 11 {
        'B'
    } else if d == 12 {
        'C'
    } else if d == 13 {
        'D'
    } else if d == 14 {
        'E'
    } else {
        'F'
    }
}

/// Two uppercase hex digits for each byte.
pub open spec fn hex_text(b: Seq<u8>) -> Seq<char>
    decreases b.len(),
{
    if b.len() == 0 {
        seq![]
    } else {
        hex_text(b.drop_last()) + seq![
            hex_digit_char((b.last() / 16) as int),
            hex_digit_char((b.last() % 16) as int),
        ]
    }
}

/// The UXF text of a bytes value: `(:`, two uppercase hex digits per byte,
/// `:)`.
pub open spec fn bytes_text(b: Seq<u8>) -> Seq<char> {
    seq!['(', ':'] + hex_text(b) + seq![':', ')']
}

fn hex_digit(d: u8) -> (c: char)
    requires
        d < 16,
    ensures
        c == hex_digit_char(d as int),
{
    if d < 10 {
        digit(d as u64)
    } else if d == 10 {
        'A'
    } else if d == 11 {
        'B'
    } else if d == 12 {
        'C'
    } else if d == 13 {
        'D'
    } else if d == 14 {
        'E'
    } else {
        'F'
    }
}

/// Appends the UXF text of the bytes `b` to `out`.
pub fn push_bytes_text(out: &mut Vec<char>, b: &[u8])
    ensures
        final(out)@ == old(out)@ + bytes_text(b@),
{
    let ghost start = out@;
    out.push('(');
    out.push(':');
    let mut i: usize = 0;
    while i < b.len()
        invariant
            i <= b@.len(),
            out@ == start + seq!['(', ':'] + hex_text(b@.take(i as int)),
        decreases b@.len() - i,
    {
        let x = b[i];
        out.push(hex_digit(x / 16));
        out.push(hex_digit(x % 16));
        proof {
            assert(b@.take(i + 1).drop_last() =~= b@.take(i as int));
        }
        i += 1;
        assert(out@ =~= start + seq!['(', ':'] + hex_text(b@.take(i as int)));
    }
    out.push(':');
    out.push(')');
    assert(b@.take(b@.len() as int) =~= b@);
    assert(out@ =~= start + bytes_text(b@));
}

/// Returns the UXF text of the bytes `b`, e.g., `(:20AC:)`.
pub fn bytes_to_uxf(b: &[u8]) -> (s: String)
    ensures
        s@ == bytes_text(b@),
{
    let mut out: Vec<char> = Vec::new();
    push_bytes_text(&mut out, b);
    assert(out@ =~= bytes_text(b@));
    str_for_chars(out.as_slice())
}

/// The separator between the folder and the name in a filename.
pub const PATH_SEPARATOR: char = '/';

/// The index of the last `sep` in `s`, if any.
pub open spec fn last_index_of(s: Seq<char>, sep: char) -> Option<int>
    decreases s.len(),
{
    if s.len() == 0 {
        None
    } else if s.last() == sep {
        Some(s.len() - 1)
    } else {
        last_index_of(s.drop_last(), sep)
    }
}

/// The folder part of a filename: all before the last separator, or `.`.
pub open spec fn dirname_of(s: Seq<char>) -> Seq<char> {
    match last_index_of(s, PATH_SEPARATOR) {
        Some(i) => s.take(i),
        None => seq!['.'],
    }
}

/// Returns the filename's dirname or ".".
pub fn dirname(filename: &str) -> (d: String)
    ensures
        d@ == dirname_of(filename@),
{
    let chars = chars_of(filename);
    let mut i: usize = chars.len();
    assert(chars@.take(i as int) =~= chars@);
    while i > 0
        invariant
            i <= chars@.len(),
            chars@ == filename@,
            last_index_of(chars@, PATH_SEPARATOR) == last_index_of(chars@.take(i as int), PATH_SEPARATOR),
        decreases i,
    {
        if chars[i - 1] == PATH_SEPARATOR {
            assert(chars@.take(i as int).last() == PATH_SEPARATOR);
            assert(last_index_of(chars@, PATH_SEPARATOR) == Some(i - 1));
            let mut out: Vec<char> = Vec::new();
            push_chars(&mut out, chars.as_slice().split_at(i - 1).0);
            assert(out@ =~= chars@.take(i - 1));
            assert(filename@ == chars@);
            assert(last_index_of(filename@, PATH_SEPARATOR) == Some(i - 1));
            assert(dirname_of(filename@) == filename@.take(i - 1));
            return str_for_chars(out.as_slice());
        }
        assert(chars@.take(i as int).drop_last() =~= chars@.take(i - 1));
        i -= 1;
    }
    assert(chars@.take(0) =~= Seq::<char>::empty());
    let mut out: Vec<char> = Vec::new();
    out.push('.');
    assert(out@ =~= seq!['.']);
    str_for_chars(out.as_slice())
}


/// The hex digit written for each value reads back as that value.
proof fn lemma_hex_digit_char(d: int)
    requires
        0 <= d < 16,
    ensures
        ascii_hexdigit(hex_digit_char(d)),
        hex_value(hex_digit_char(d)) == d,
{
    reveal_with_fuel(crate::text::digit_char, 1);
}

/// `hex_text` read from the front: the first byte's two digits, then the
/// rest.
proof fn lemma_hex_text_front(b: Seq<u8>)
    requires
        b.len() > 0,
    ensures
        hex_text(b) == seq![hex_digit_char((b[0] / 16) as int), hex_digit_char((b[0] % 16) as int)] + hex_text(
            b.skip(1),
        ),
    decreases b.len(),
{
    if b.len() == 1 {
        assert(b.drop_last() =~= Seq::<u8>::empty());
        assert(b.skip(1) =~= Seq::<u8>::empty());
        assert(b.last() == b[0]);
        assert(hex_text(b.drop_last()) == Seq::<char>::empty());
        assert(hex_text(b.skip(1)) == Seq::<char>::empty());
        assert(hex_text(b) =~= seq![hex_digit_char((b[0] / 16) as int), hex_digit_char((b[0] % 16) as int)]
            + Seq::<char>::empty());
    } else {
        lemma_hex_text_front(b.drop_last());
        assert(b.drop_last().skip(1) =~= b.skip(1).drop_last());
        assert(b.skip(1).last() == b.last());
        assert(b.drop_last()[0] == b[0]);
        let a = seq![hex_digit_char((b[0] / 16) as int), hex_digit_char((b[0] % 16) as int)];
        let m = hex_text(b.skip(1).drop_last());
        let c = seq![hex_digit_char((b.last() / 16) as int), hex_digit_char((b.last() % 16) as int)];
        assert(hex_text(b) == (a + m) + c);
        assert(hex_text(b.skip(1)) == m + c);
        assert((a + m) + c =~= a + (m + c));
    }
}

/// Reading back the hex text that is written for bytes gives those bytes:
/// each byte is written as its high digit, then its low digit.
pub proof fn law_hex_text_reads_back(b: Seq<u8>)
    ensures
        hex_scan(hex_text(b), None) == Some(b),
    decreases b.len(),
{
    if b.len() > 0 {
        lemma_hex_text_front(b);
        let hi = hex_digit_char((b[0] / 16) as int);
        let lo = hex_digit_char((b[0] % 16) as int);
        let rest = hex_text(b.skip(1));
        let t = seq![hi, lo] + rest;
        lemma_hex_digit_char((b[0] / 16) as int);
        lemma_hex_digit_char((b[0] % 16) as int);
        law_hex_text_reads_back(b.skip(1));
        assert(t[0] == hi);
        assert(t.skip(1) =~= seq![lo] + rest);
        assert((seq![lo] + rest)[0] == lo);
        assert((seq![lo] + rest).skip(1) =~= rest);
        assert((hex_value(hi) * 16 + hex_value(lo)) as u8 == b[0]);
        assert(seq![b[0]] + b.skip(1) =~= b);
        let t1 = seq![lo] + rest;
        assert(hex_scan(t1.skip(1), None) == Some(b.skip(1)));
        assert(hex_scan(t1, Some(hi)) == Some(seq![(hex_value(hi) * 16 + hex_value(lo)) as u8] + b.skip(1)));
        assert(hex_scan(t, None) == hex_scan(t1, Some(hi)));
    } else {
        assert(hex_text(b) == Seq::<char>::empty());
        assert(b =~= Seq::<u8>::empty());
    }
}

/// The pending digit, lowercased.
pub open spec fn lower_pending(p: Option<char>) -> Option<char> {
    match p {
        Some(c) => Some(crate::text::ascii_lower(c)),
        None => None,
    }
}

/// Hex digits are read alike in either case: reading a text with its ASCII
/// letters lowercased gives what reading the text gives (from a start
/// with no digit pending, or with a hex digit pending).
pub proof fn law_hex_case_insensitive(s: Seq<char>, pending: Option<char>)
    requires
        pending matches Some(p) ==> ascii_hexdigit(p),
    ensures
        hex_scan(s.map_values(|c: char| crate::text::ascii_lower(c)), lower_pending(pending)) == hex_scan(s, pending),
    decreases s.len(),
{
    let l = s.map_values(|c: char| crate::text::ascii_lower(c));
    if s.len() > 0 {
        let c = s[0];
        let lc = crate::text::ascii_lower(c);
        assert(l[0] == lc);
        assert(l.skip(1) =~= s.skip(1).map_values(|c: char| crate::text::ascii_lower(c)));
        assert(ascii_hexdigit(lc) == ascii_hexdigit(c));
        assert(ascii_whitespace(lc) == ascii_whitespace(c));
        if ascii_hexdigit(c) {
            assert(hex_value(lc) == hex_value(c));
            match pending {
                None => {
                    law_hex_case_insensitive(s.skip(1), Some(c));
                },
                Some(p) => {
                    law_hex_case_insensitive(s.skip(1), None);
                    assert(hex_value(crate::text::ascii_lower(p)) == hex_value(p));
                },
            }
        } else {
            law_hex_case_insensitive(s.skip(1), pending);
        }
    }
}
} // verus!
