//! The error type that every fallible operation of this library returns.
use crate::text::{nat_text, int_text, push_nat, push_int, push_str};
use vstd::prelude::*;

verus! {

/// A fatal problem, such as invalid UXF text or an invalid name: its code,
/// the file (or `-`) and line where it arose, and a message.
/// Its text is `E{code}:{filename}:{lino}:{message}`; a problem reported by
/// a library that this one calls (such as a date that does not parse) has
/// code 0, and its text is just the message.
#[derive(Clone, Debug)]
pub struct UxfError {
    pub code: u16,
    pub filename: String,
    pub lino: usize,
    pub message: String,
}

/// The text of an error with the given parts.
pub open spec fn error_text(code: u16, filename: Seq<char>, lino: usize, message: Seq<char>) -> Seq<char> {
    if code == 0 {
        message
    } else {
        seq!['E'] + nat_text(code as nat) + seq![':'] + filename + seq![':'] + nat_text(lino as nat)
            + seq![':'] + message
    }
}

impl UxfError {
    /// Builds an error from its parts.
    pub fn new(code: u16, message: String, filename: &str, lino: usize) -> (e: UxfError)
        ensures
            e.code == code,
            e.message@ == message@,
            e.filename@ == filename@,
            e.lino == lino,
    {
        UxfError { code, filename: String::from_str(filename), lino, message }
    }

    /// The text of this error: `E{code}:{filename}:{lino}:{message}`.
    pub open spec fn text(&self) -> Seq<char> {
        error_text(self.code, self.filename@, self.lino, self.message@)
    }

    /// Returns the text of this error, `E{code}:{filename}:{lino}:{message}`
    /// (or just the message, for code 0).
    pub fn to_string(&self) -> (s: String)
        ensures
            s@ == self.text(),
    {
        if self.code == 0 {
            return self.message.clone();
        }
        let mut out: Vec<char> = Vec::new();
        out.push('E');
        push_nat(&mut out, self.code as u64);
        out.push(':');
        push_str(&mut out, self.filename.as_str());
        out.push(':');
        push_nat(&mut out, self.lino as u64);
        out.push(':');
        push_str(&mut out, self.message.as_str());
        let s = crate::util::str_for_chars(out.as_slice());
        assert(s@ =~= self.text());
        s
    }
}

/// The decimal text of `n` as a `String`.
pub fn nat_string(n: u64) -> (s: String)
    ensures
        s@ == nat_text(n as nat),
{
    let mut out: Vec<char> = Vec::new();
    push_nat(&mut out, n);
    assert(out@ =~= nat_text(n as nat));
    crate::util::str_for_chars(out.as_slice())
}

/// The decimal text of `i` as a `String`.
pub fn int_string(i: i64) -> (s: String)
    ensures
        s@ == int_text(i as int),
{
    let mut out: Vec<char> = Vec::new();
    push_int(&mut out, i);
    assert(out@ =~= int_text(i as int));
    crate::util::str_for_chars(out.as_slice())
}

} // verus!
