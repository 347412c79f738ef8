//! Warnings and repairs that parsing reports without halting.
//!
//! When parsing a UXF file, errors produce an Err and halt the parse.
//! Warnings and repairs are reported as events; the caller decides how to
//! handle them (print them, collect them, or ignore them).
use crate::text::{nat_text, push_nat, push_str};
use crate::util::str_for_chars;
use vstd::prelude::*;

verus! {

/// The kind of an event: a warning, or a repair that was made.
#[derive(Clone, Debug, PartialEq, Eq, Structural)]
pub enum EventKind {
    Warning,
    Repair,
}

/// A warning or repair: its kind, code, message, and where it arose.
#[derive(Clone, Debug)]
pub struct Event {
    pub kind: EventKind,
    pub code: u16,
    pub message: String,
    pub filename: String,
    pub lino: usize,
}

/// Used to ignore warning and repair events.
pub fn ignore_event(_event: &Event) {
}

/// The letter of an event's kind: `W` for a warning, `R` for a repair.
pub open spec fn kind_letter(kind: EventKind) -> char {
    match kind {
        EventKind::Warning => 'W',
        EventKind::Repair => 'R',
    }
}

/// The text of an event: `{W|R}{code}:{filename}:{lino}:{message}`.
pub open spec fn event_text(e: Event) -> Seq<char> {
    seq![kind_letter(e.kind)] + nat_text(e.code as nat) + seq![':'] + e.filename@ + seq![':']
        + nat_text(e.lino as nat) + seq![':'] + e.message@
}

impl Event {
    /// An event of the given kind, code, message, file and line.
    pub fn new(kind: EventKind, code: u16, message: &str, filename: &str, lino: usize) -> (e: Event)
        ensures
            e.kind == kind,
            e.code == code,
            e.message@ == message@,
            e.filename@ == filename@,
            e.lino == lino,
    {
        Event {
            kind,
            code,
            message: String::from_str(message),
            filename: String::from_str(filename),
            lino,
        }
    }

    /// A warning with the given code, message, file and line.
    pub fn new_warning(code: u16, message: &str, filename: &str, lino: usize) -> (e: Event)
        ensures
            e.kind == EventKind::Warning,
            e.code == code,
            e.message@ == message@,
            e.filename@ == filename@,
            e.lino == lino,
    {
        Event::new(EventKind::Warning, code, message, filename, lino)
    }

    /// A warning with the given code and message, and an empty filename
    /// and line 0.
    pub fn bare_warning(code: u16, message: &str) -> (e: Event)
        ensures
            e.kind == EventKind::Warning,
            e.code == code,
            e.message@ == message@,
            e.filename@ == Seq::<char>::empty(),
            e.lino == 0,
    {
        Event {
            kind: EventKind::Warning,
            code,
            message: String::from_str(message),
            filename: String::new(),
            lino: 0,
        }
    }

    /// A repair with the given code, message, file and line.
    pub fn new_repair(code: u16, message: &str, filename: &str, lino: usize) -> (e: Event)
        ensures
            e.kind == EventKind::Repair,
            e.code == code,
            e.message@ == message@,
            e.filename@ == filename@,
            e.lino == lino,
    {
        Event::new(EventKind::Repair, code, message, filename, lino)
    }

    /// The letter of this event's kind: `W` or `R`.
    pub fn letter(&self) -> (c: char)
        ensures
            c == kind_letter(self.kind),
    {
        match self.kind {
            EventKind::Warning => 'W',
            EventKind::Repair => 'R',
        }
    }

    /// Returns the text of this event:
    /// `{W|R}{code}:{filename}:{lino}:{message}`.
    pub fn to_string(&self) -> (s: String)
        ensures
            s@ == event_text(*self),
    {
        let mut out: Vec<char> = Vec::new();
        out.push(self.letter());
        push_nat(&mut out, self.code as u64);
        out.push(':');
        push_str(&mut out, self.filename.as_str());
        out.push(':');
        push_nat(&mut out, self.lino as u64);
        out.push(':');
        push_str(&mut out, self.message.as_str());
        assert(out@ =~= event_text(*self));
        str_for_chars(out.as_slice())
    }
}

} // verus!
