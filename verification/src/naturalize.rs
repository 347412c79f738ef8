//! Reading a str as the value it spells: a bool, int, real, date, or
//! datetime (used to repair mistyped data).
use crate::datetime::{chrono_date, chrono_datetime, Date, DateTime};
use crate::numbers::{i64_of, is_real_text, parse_i64, real_syntax};
use crate::text::{chars_of, to_uppercase, unicode_uppercase};
use crate::value::{Value, ValueModel};
use vstd::prelude::*;

verus! {

/// Whether `s` is a real with an optional sign (see `real_syntax`).
pub open spec fn signed_real_syntax(s: Seq<char>) -> bool {
    if s.len() > 0 && (s[0] == '+' || s[0] == '-') {
        real_syntax(s.skip(1))
    } else {
        real_syntax(s)
    }
}

/// `c` with an ASCII uppercase letter made lowercase.
pub open spec fn ascii_lower(c: char) -> char {
    if 'A' <= c <= 'Z' {
        ((c as u32) + 32) as char
    } else {
        c
    }
}

/// Whether `s`, with an optional sign, is `inf`, `infinity` or `nan` in
/// any ASCII case: the special reals that `f64::from_str` reads.
pub open spec fn special_real_word(s: Seq<char>) -> bool {
    let b = if s.len() > 0 && (s[0] == '+' || s[0] == '-') {
        s.skip(1)
    } else {
        s
    };
    let l = b.map_values(|c: char| ascii_lower(c));
    l == "inf"@ || l == "infinity"@ || l == "nan"@
}

/// The date that chrono reads from `s`, if any.
pub open spec fn date_of(s: Seq<char>) -> Option<crate::datetime::Date> {
    match chrono_date(s) {
        Ok(d) => Some(crate::datetime::Date { year: d.0, month: d.1, day: d.2 }),
        Err(_) => None,
    }
}

/// The datetime that chrono reads from `s` in the format `fmt`, if any.
pub open spec fn datetime_of(s: Seq<char>, fmt: Seq<char>) -> Option<crate::datetime::DateTime> {
    match chrono_datetime(s, fmt) {
        Ok(d) => Some(
            crate::datetime::DateTime {
                date: crate::datetime::Date { year: d.0, month: d.1, day: d.2 },
                hour: d.3,
                minute: d.4,
                second: d.5,
            },
        ),
        Err(_) => None,
    }
}

/// What a str spells: `t`, `true`, `y`, `yes` (in any case) give yes;
/// `f`, `false`, `n`, `no` give no; else an int; else a real, including
/// `inf`, `infinity` and `nan` (kept as written); else, by its length, a date (10), or a datetime to the hour
/// (13), minute (16), or second (19); else `None`.
pub open spec fn spelled_value(s: Seq<char>) -> Option<ValueModel> {
    let u = unicode_uppercase(s);
    if u == "T"@ || u == "TRUE"@ || u == "Y"@ || u == "YES"@ {
        Some(ValueModel::Bool(true))
    } else if u == "F"@ || u == "FALSE"@ || u == "N"@ || u == "NO"@ {
        Some(ValueModel::Bool(false))
    } else if i64_of(s) is Ok {
        Some(ValueModel::Int(i64_of(s)->Ok_0 as i64))
    } else if signed_real_syntax(s) || special_real_word(s) {
        Some(ValueModel::Real(s))
    } else if s.len() == 10 {
        match date_of(s) {
            Some(d) => Some(ValueModel::Date(d)),
            None => None,
        }
    } else if s.len() == 13 || s.len() == 16 || s.len() == 19 {
        let fmt = if s.len() == 13 {
            "%Y-%m-%dT%H"@
        } else if s.len() == 16 {
            "%Y-%m-%dT%H:%M"@
        } else {
            "%Y-%m-%dT%H:%M:%S"@
        };
        match datetime_of(s, fmt) {
            Some(d) => Some(ValueModel::DateTime(d)),
            None => None,
        }
    } else {
        None
    }
}

/// What naturalizing a value gives: a str that spells another value
/// gives that value; anything else is kept.
pub open spec fn naturalized(v: ValueModel) -> ValueModel {
    match v {
        ValueModel::Str(s) => match spelled_value(s) {
            Some(n) => n,
            None => v,
        },
        _ => v,
    }
}

fn is_signed_real_text(s: &[char]) -> (b: bool)
    ensures
        b == signed_real_syntax(s@),
{
    if s.len() > 0 && (s[0] == '+' || s[0] == '-') {
        let rest = crate::header::sub_chars(s, 1, s.len());
        assert(rest@ =~= s@.skip(1));
        is_real_text(rest.as_slice())
    } else {
        is_real_text(s)
    }
}

fn is_special_real_word(s: &[char]) -> (b: bool)
    ensures
        b == special_real_word(s@),
{
    let start: usize = if s.len() > 0 && (s[0] == '+' || s[0] == '-') {
        1
    } else {
        0
    };
    let ghost body = s@.skip(start as int);
    let mut l: Vec<char> = Vec::new();
    let mut i: usize = start;
    while i < s.len()
        invariant
            start <= i <= s@.len(),
            body == s@.skip(start as int),
            l@ == body.take(i - start).map_values(|c: char| ascii_lower(c)),
        decreases s@.len() - i,
    {
        let c = s[i];
        let lc = if 'A' <= c && c <= 'Z' {
            ((c as u32) + 32) as u8 as char
        } else {
            c
        };
        proof {
            assert(lc == ascii_lower(c)) by {
                if 'A' <= c && c <= 'Z' {
                    assert(((c as u32) + 32) < 128);
                }
            }
        }
        let ghost before = l@;
        l.push(lc);
        proof {
            assert(body.take(i + 1 - start) =~= body.take(i - start).push(c));
            assert(l@ =~= body.take(i + 1 - start).map_values(|c: char| ascii_lower(c)));
        }
        i += 1;
    }
    assert(body.take(i - start) =~= body);
    proof {
        if s@.len() > 0 && (s@[0] == '+' || s@[0] == '-') {
        } else {
            assert(body =~= s@);
        }
    }
    crate::consts::is_word(l.as_slice(), "inf") || crate::consts::is_word(l.as_slice(), "infinity")
        || crate::consts::is_word(l.as_slice(), "nan")
}

impl Value {
    /// Returns the value that this value spells if it is a str that
    /// spells one (see `spelled_value`); otherwise a copy of this value.
    pub fn naturalize(&self) -> (r: Value)
        ensures
            r@ == naturalized(self@),
    {
        proof {
            broadcast use crate::value::lemma_value_view;
        }
        let s = match self {
            Value::Str(s) => s,
            _ => return self.clone_value(),
        };
        let u = to_uppercase(s.as_str());
        let uc = chars_of(u.as_str());
        let w = uc.as_slice();
        if crate::consts::is_word(w, "T") || crate::consts::is_word(w, "TRUE") || crate::consts::is_word(
            w,
            "Y",
        ) || crate::consts::is_word(w, "YES") {
            return Value::Bool(true);
        }
        if crate::consts::is_word(w, "F") || crate::consts::is_word(w, "FALSE") || crate::consts::is_word(
            w,
            "N",
        ) || crate::consts::is_word(w, "NO") {
            return Value::Bool(false);
        }
        let cs = chars_of(s.as_str());
        match parse_i64(cs.as_slice()) {
            Ok(i) => return Value::Int(i),
            Err(_) => {},
        }
        if is_signed_real_text(cs.as_slice()) || is_special_real_word(cs.as_slice()) {
            return Value::Real(s.clone());
        }
        let n = cs.len();
        if n == 10 {
            return match Date::parse(s.as_str()) {
                Ok(d) => Value::Date(d),
                Err(_) => self.clone_value(),
            };
        }
        if n == 13 || n == 16 || n == 19 {
            let fmt = if n == 13 {
                "%Y-%m-%dT%H"
            } else if n == 16 {
                "%Y-%m-%dT%H:%M"
            } else {
                "%Y-%m-%dT%H:%M:%S"
            };
            return match DateTime::parse(s.as_str(), fmt) {
                Ok(d) => Value::DateTime(d),
                Err(_) => self.clone_value(),
            };
        }
        self.clone_value()
    }
}


/// Naturalizing a str whose uppercase form is `T`, `TRUE`, `Y` or `YES`
/// gives yes, and one whose uppercase form is `F`, `FALSE`, `N` or `NO`
/// gives no, whatever the case of its letters.
pub proof fn law_naturalize_bools(s: Seq<char>)
    ensures
        unicode_uppercase(s) == "T"@ || unicode_uppercase(s) == "TRUE"@ || unicode_uppercase(s) == "Y"@
            || unicode_uppercase(s) == "YES"@ ==> naturalized(ValueModel::Str(s)) == ValueModel::Bool(true),
        unicode_uppercase(s) == "F"@ || unicode_uppercase(s) == "FALSE"@ || unicode_uppercase(s) == "N"@
            || unicode_uppercase(s) == "NO"@ ==> naturalized(ValueModel::Str(s)) == ValueModel::Bool(false),
{
    reveal_strlit("T");
    reveal_strlit("TRUE");
    reveal_strlit("Y");
    reveal_strlit("YES");
    reveal_strlit("F");
    reveal_strlit("FALSE");
    reveal_strlit("N");
    reveal_strlit("NO");
    assert("F"@ != "T"@) by { assert("F"@[0] != "T"@[0]); }
    assert("F"@ != "TRUE"@) by { assert("F"@.len() != "TRUE"@.len()); }
    assert("F"@ != "Y"@) by { assert("F"@[0] != "Y"@[0]); }
    assert("F"@ != "YES"@) by { assert("F"@.len() != "YES"@.len()); }
    assert("FALSE"@ != "T"@) by { assert("FALSE"@.len() != "T"@.len()); }
    assert("FALSE"@ != "TRUE"@) by { assert("FALSE"@.len() != "TRUE"@.len()); }
    assert("FALSE"@ != "Y"@) by { assert("FALSE"@.len() != "Y"@.len()); }
    assert("FALSE"@ != "YES"@) by { assert("FALSE"@.len() != "YES"@.len()); }
    assert("N"@ != "T"@) by { assert("N"@[0] != "T"@[0]); }
    assert("N"@ != "TRUE"@) by { assert("N"@.len() != "TRUE"@.len()); }
    assert("N"@ != "Y"@) by { assert("N"@[0] != "Y"@[0]); }
    assert("N"@ != "YES"@) by { assert("N"@.len() != "YES"@.len()); }
    assert("NO"@ != "T"@) by { assert("NO"@.len() != "T"@.len()); }
    assert("NO"@ != "TRUE"@) by { assert("NO"@.len() != "TRUE"@.len()); }
    assert("NO"@ != "Y"@) by { assert("NO"@.len() != "Y"@.len()); }
    assert("NO"@ != "YES"@) by { assert("NO"@.len() != "YES"@.len()); }
}

/// Naturalizing keeps every value that is not a str.
pub proof fn law_naturalize_keeps_non_strs(v: ValueModel)
    requires
        !(v is Str),
    ensures
        naturalized(v) == v,
{
}

/// Whether the uppercase form of `s` is none of the words that spell a
/// bool (`T`, `TRUE`, `Y`, `YES`, `F`, `FALSE`, `N`, `NO`).
pub open spec fn not_bool_word(s: Seq<char>) -> bool {
    let u = unicode_uppercase(s);
    !(u == "T"@ || u == "TRUE"@ || u == "Y"@ || u == "YES"@ || u == "F"@ || u == "FALSE"@ || u == "N"@ || u
        == "NO"@)
}

/// A str that spells no bool naturalizes to the int it spells, if it is
/// an `i64`; else to the real it spells (kept as written); else, at 10
/// chars, to the date chrono reads as `%Y-%m-%d`, and at 13, 16 or 19
/// chars to the datetime chrono reads as `%Y-%m-%dT%H`, `%Y-%m-%dT%H:%M`
/// or `%Y-%m-%dT%H:%M:%S`; and a str that spells none of these stays as
/// it is.
pub proof fn law_naturalize_scalars(s: Seq<char>)
    requires
        not_bool_word(s),
    ensures
        i64_of(s) matches Ok(i) ==> naturalized(ValueModel::Str(s)) == ValueModel::Int(i as i64),
        i64_of(s) is Err && (signed_real_syntax(s) || special_real_word(s)) ==> naturalized(ValueModel::Str(s))
            == ValueModel::Real(s),
        ({
            let other = i64_of(s) is Err && !(signed_real_syntax(s) || special_real_word(s));
            &&& other && s.len() == 10 ==> naturalized(ValueModel::Str(s)) == match chrono_date(s) {
                Ok(d) => ValueModel::Date(Date { year: d.0, month: d.1, day: d.2 }),
                Err(_) => ValueModel::Str(s),
            }
            &&& other && s.len() == 13 ==> naturalized(ValueModel::Str(s)) == match datetime_of(
                s,
                "%Y-%m-%dT%H"@,
            ) {
                Some(d) => ValueModel::DateTime(d),
                None => ValueModel::Str(s),
            }
            &&& other && s.len() == 16 ==> naturalized(ValueModel::Str(s)) == match datetime_of(
                s,
                "%Y-%m-%dT%H:%M"@,
            ) {
                Some(d) => ValueModel::DateTime(d),
                None => ValueModel::Str(s),
            }
            &&& other && s.len() == 19 ==> naturalized(ValueModel::Str(s)) == match datetime_of(
                s,
                "%Y-%m-%dT%H:%M:%S"@,
            ) {
                Some(d) => ValueModel::DateTime(d),
                None => ValueModel::Str(s),
            }
            &&& other && s.len() != 10 && s.len() != 13 && s.len() != 16 && s.len() != 19 ==> naturalized(
                ValueModel::Str(s),
            ) == ValueModel::Str(s)
        }),
{
}
} // verus!
