//! A Format specifies how to format a UXF file written by pretty printing:
//! an indent, a wrapwidth, and realdp which controls how real numbers are
//! formatted.
use crate::consts::MAX_IDENTIFIER_LEN;
use vstd::prelude::*;

verus! {

/// How to lay out pretty printed UXF text.
#[derive(Clone, Debug)]
pub struct Format {
    pub indent: String,
    pub wrapwidth: u8,
    pub realdp: u8,
}

/// The indent text for an indent setting: none for 0, that many spaces for
/// 1-8, a tab for 9, and two spaces otherwise.
pub open spec fn indent_text(indent: u8) -> Seq<char> {
    if indent == 0 {
        Seq::<char>::empty()
    } else if indent <= 8 {
        Seq::new(indent as nat, |i: int| ' ')
    } else if indent == 9 {
        seq!['\t']
    } else {
        seq![' ', ' ']
    }
}

impl Format {
    /// Invalid values are silently replaced with appropriate defaults.
    /// indent should be 0-9 with 0 meaning no indent, 1-8 meaning that many
    /// spaces, and 9 meaning use one tab. The default is 2 (i.e., 2
    /// spaces).
    /// wrapwidth should be 40-240. The default is 96.
    /// realdp should be 0-15. The default is 0 which means use at least one
    /// decimal digit (even if .0) and as many as needed; 1-15 mean use that
    /// fixed number of decimal digits.
    pub fn new(indent: u8, wrapwidth: u8, realdp: u8) -> (f: Format)
        ensures
            f.indent@ == indent_text(indent),
            f.wrapwidth == if MAX_IDENTIFIER_LEN + 8 <= wrapwidth && wrapwidth <= 240 {
                wrapwidth
            } else {
                96
            },
            f.realdp == if realdp <= 15 { realdp } else { 0 },
    {
        let mut chars: Vec<char> = Vec::new();
        if indent == 0 {
        } else if indent <= 8 {
            let mut i: u8 = 0;
            while i < indent
                invariant
                    i <= indent,
                    chars@ == Seq::new(i as nat, |k: int| ' '),
                decreases indent - i,
            {
                chars.push(' ');
                i += 1;
                assert(chars@ =~= Seq::new(i as nat, |k: int| ' '));
            }
        } else if indent == 9 {
            chars.push('\t');
        } else {
            chars.push(' ');
            chars.push(' ');
        }
        assert(chars@ =~= indent_text(indent));
        let wrapwidth = if (MAX_IDENTIFIER_LEN as u8 + 8) <= wrapwidth && wrapwidth <= 240 {
            wrapwidth
        } else {
            96
        };
        Format {
            indent: crate::util::str_for_chars(chars.as_slice()),
            wrapwidth,
            realdp: if realdp <= 15 { realdp } else { 0 },
        }
    }
}

impl Default for Format {
    /// Two spaces of indent, a wrapwidth of 96, and realdp 0.
    fn default() -> (f: Format)
        ensures
            f.indent@ == seq![' ', ' '],
            f.wrapwidth == 96,
            f.realdp == 0,
    {
        let mut chars: Vec<char> = Vec::new();
        chars.push(' ');
        chars.push(' ');
        Format { indent: crate::util::str_for_chars(chars.as_slice()), wrapwidth: 96, realdp: 0 }
    }
}

} // verus!
