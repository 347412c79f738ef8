//! The tokens that lexing UXF text gives and parsing consumes.
use crate::value::{value_text, Value, ValueModel};
use vstd::prelude::*;

verus! {

/// The kind of a token.
#[derive(Clone, Copy, Debug, PartialEq, Eq, Structural)]
pub enum TokenKind {
    FileComment,
    Import,
    TClassBegin,
    TClassEnd,
    Field,
    TableBegin,
    TableEnd,
    ListBegin,
    ListEnd,
    MapBegin,
    MapEnd,
    Null,
    Bool,
    Int,
    Real,
    Date,
    DateTime,
    Str,
    Bytes,
    Type,
    Identifier,
    Eof,
}

/// A token: its kind, value, line, and, for the start of a collection or
/// tclass, its comment, ktype, and vtype (for a table, its ttype).
#[derive(Debug)]
pub struct Token {
    pub kind: TokenKind,
    pub value: Value,
    pub lino: usize,
    pub comment: String,
    pub ktype: String,
    pub vtype: String,
}

/// Whether a kind starts a list, map, or table.
pub open spec fn starts_collection(k: TokenKind) -> bool {
    k is ListBegin || k is MapBegin || k is TableBegin
}

/// Whether a kind ends a list, map, or table.
pub open spec fn ends_collection(k: TokenKind) -> bool {
    k is ListEnd || k is MapEnd || k is TableEnd
}

/// Whether a kind is that of a scalar value (null included).
pub open spec fn is_scalar_kind(k: TokenKind) -> bool {
    k is Null || k is Bool || k is Int || k is Real || k is Date || k is DateTime || k is Str
        || k is Bytes
}

/// The name of a token kind as it is shown in messages.
pub open spec fn kind_name(k: TokenKind) -> Seq<char> {
    match k {
        TokenKind::FileComment => "FileComment"@,
        TokenKind::Import => "Import"@,
        TokenKind::TClassBegin => "TClassBegin"@,
        TokenKind::TClassEnd => "TClassEnd"@,
        TokenKind::Field => "Field"@,
        TokenKind::TableBegin => "TableBegin"@,
        TokenKind::TableEnd => "TableEnd"@,
        TokenKind::ListBegin => "ListBegin"@,
        TokenKind::ListEnd => "ListEnd"@,
        TokenKind::MapBegin => "MapBegin"@,
        TokenKind::MapEnd => "MapEnd"@,
        TokenKind::Null => "Null"@,
        TokenKind::Bool => "Bool"@,
        TokenKind::Int => "Int"@,
        TokenKind::Real => "Real"@,
        TokenKind::Date => "Date"@,
        TokenKind::DateTime => "DateTime"@,
        TokenKind::Str => "Str"@,
        TokenKind::Bytes => "Bytes"@,
        TokenKind::Type => "Type"@,
        TokenKind::Identifier => "Identifier"@,
        TokenKind::Eof => "EOF"@,
    }
}

/// The text of a token as it is shown in messages: `EOF`, or its kind's
/// name, a space, and the UXF text of its value.
pub open spec fn token_text(kind: TokenKind, value: ValueModel) -> Seq<char> {
    if kind is Eof {
        "EOF"@
    } else {
        kind_name(kind) + seq![' '] + value_text(value)
    }
}

/// The vtype name of what a token starts or is (`null` for a null), or
/// empty for other tokens.
pub open spec fn kind_typename(k: TokenKind) -> Seq<char> {
    match k {
        TokenKind::TableBegin => "table"@,
        TokenKind::ListBegin => "list"@,
        TokenKind::MapBegin => "map"@,
        TokenKind::Null => "null"@,
        TokenKind::Bool => "bool"@,
        TokenKind::Int => "int"@,
        TokenKind::Real => "real"@,
        TokenKind::Date => "date"@,
        TokenKind::DateTime => "datetime"@,
        TokenKind::Str => "str"@,
        TokenKind::Bytes => "bytes"@,
        _ => seq![],
    }
}

impl TokenKind {
    /// Returns `true` if this kind starts a list, map, or table.
    pub fn is_collection_start(&self) -> (b: bool)
        ensures
            b == starts_collection(*self),
    {
        matches!(self, TokenKind::ListBegin | TokenKind::MapBegin | TokenKind::TableBegin)
    }

    /// Returns `true` if this kind ends a list, map, or table.
    pub fn is_collection_end(&self) -> (b: bool)
        ensures
            b == ends_collection(*self),
    {
        matches!(self, TokenKind::ListEnd | TokenKind::MapEnd | TokenKind::TableEnd)
    }

    /// Returns `true` if this kind is that of a scalar value.
    pub fn is_scalar(&self) -> (b: bool)
        ensures
            b == is_scalar_kind(*self),
    {
        matches!(
            self,
            TokenKind::Null | TokenKind::Bool | TokenKind::Int | TokenKind::Real | TokenKind::Date
                | TokenKind::DateTime | TokenKind::Str | TokenKind::Bytes
        )
    }

    /// Returns the name of this kind as it is shown in messages.
    pub fn name(&self) -> (r: &'static str)
        ensures
            r@ == kind_name(*self),
    {
        match self {
            TokenKind::FileComment => "FileComment",
            TokenKind::Import => "Import",
            TokenKind::TClassBegin => "TClassBegin",
            TokenKind::TClassEnd => "TClassEnd",
            TokenKind::Field => "Field",
            TokenKind::TableBegin => "TableBegin",
            TokenKind::TableEnd => "TableEnd",
            TokenKind::ListBegin => "ListBegin",
            TokenKind::ListEnd => "ListEnd",
            TokenKind::MapBegin => "MapBegin",
            TokenKind::MapEnd => "MapEnd",
            TokenKind::Null => "Null",
            TokenKind::Bool => "Bool",
            TokenKind::Int => "Int",
            TokenKind::Real => "Real",
            TokenKind::Date => "Date",
            TokenKind::DateTime => "DateTime",
            TokenKind::Str => "Str",
            TokenKind::Bytes => "Bytes",
            TokenKind::Type => "Type",
            TokenKind::Identifier => "Identifier",
            TokenKind::Eof => "EOF",
        }
    }
}

impl Token {
    /// A token of the given kind, value and line, with no comment, ktype
    /// or vtype.
    pub fn new(kind: TokenKind, value: Value, lino: usize) -> (t: Token)
        ensures
            t.kind == kind,
            t.value == value,
            t.lino == lino,
            t.comment@.len() == 0,
            t.ktype@.len() == 0,
            t.vtype@.len() == 0,
    {
        Token { kind, value, lino, comment: String::new(), ktype: String::new(), vtype: String::new() }
    }

    /// Returns the vtype name of what this token starts or is (`null` for
    /// a null), or empty for other tokens.
    pub fn typename(&self) -> (r: &'static str)
        ensures
            r@ == kind_typename(self.kind),
    {
        proof {
            reveal_strlit("");
        }
        match self.kind {
            TokenKind::TableBegin => "table",
            TokenKind::ListBegin => "list",
            TokenKind::MapBegin => "map",
            TokenKind::Null => "null",
            TokenKind::Bool => "bool",
            TokenKind::Int => "int",
            TokenKind::Real => "real",
            TokenKind::Date => "date",
            TokenKind::DateTime => "datetime",
            TokenKind::Str => "str",
            TokenKind::Bytes => "bytes",
            _ => "",
        }
    }

    /// Returns the text of this token as it is shown in messages (see
    /// `token_text`).
    pub fn to_string(&self) -> (s: String)
        ensures
            s@ == token_text(self.kind, self.value@),
    {
        if self.kind == TokenKind::Eof {
            return String::from_str("EOF");
        }
        let mut out: Vec<char> = Vec::new();
        crate::text::push_str(&mut out, self.kind.name());
        out.push(' ');
        crate::value::push_value_text(&mut out, &self.value);
        crate::util::str_for_chars(out.as_slice())
    }

    /// Returns a copy of this token.
    pub fn clone_token(&self) -> (t: Token)
        ensures
            t.kind == self.kind,
            t.value@ == self.value@,
            t.lino == self.lino,
            t.comment@ == self.comment@,
            t.ktype@ == self.ktype@,
            t.vtype@ == self.vtype@,
    {
        Token {
            kind: self.kind,
            value: self.value.clone_value(),
            lino: self.lino,
            comment: self.comment.clone(),
            ktype: self.ktype.clone(),
            vtype: self.vtype.clone(),
        }
    }
}

} // verus!
