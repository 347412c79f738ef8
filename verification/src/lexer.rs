//! Lexing UXF text: the header line, an optional file comment, then the
//! tokens of imports, tclass definitions, and data. Types that follow the
//! start of a list, map, or table are folded into its token (its vtype,
//! ktype and vtype, or ttype).
use crate::check::{check_ktype, check_outcome, check_ttype, check_vtype, ktype_error, ttype_error, vtype_error};
use crate::datetime::{Date, DateTime};
use crate::error::UxfError;
use crate::event::Event;
use crate::header::{first_newline, header_of, header_message, scan_header, sub_chars, trimmed};
use crate::numbers::{is_real_text, parse_i64};
use crate::parser::is_collection;
use crate::text::{debug_char, debug_str, is_alphabetic, is_alphanumeric, push_nat, push_str, unicode_alphanumeric};
use crate::token::{Token, TokenKind};
use crate::util::{hex_chars_as_bytes, push_unescaped, str_for_chars, unescaped};
use crate::value::{push_value_text, Value, ValueModel};
use vstd::prelude::*;

verus! {

/// How lexing changes the tokens so far: none is dropped, none changes
/// its kind, only the last one may change otherwise (a type folded into a
/// collection's start, a comment given to it, or a str joined to one), and
/// no file comment token is added.
pub open spec fn tokens_kept(old: Seq<Token>, new: Seq<Token>) -> bool {
    &&& new.len() >= old.len()
    &&& forall|i: int| 0 <= i < old.len() ==> (#[trigger] new[i]).kind == old[i].kind
    &&& forall|i: int| 0 <= i < old.len() - 1 ==> #[trigger] new[i] == old[i]
    &&& forall|i: int| old.len() <= i < new.len() ==> (#[trigger] new[i]).kind != TokenKind::FileComment
    &&& forall|i: int| old.len() <= i < new.len() ==> (#[trigger] new[i]).kind != TokenKind::Import
    &&& old.len() > 0 && old.last().kind == TokenKind::Import ==> new[old.len() - 1] == old.last()
}

/// Whether the last token (if any) is a file comment or an import, which
/// nothing that follows folds into or joins to.
pub open spec fn opens_nothing(tokens: Seq<Token>) -> bool {
    tokens.len() == 0 || tokens.last().kind == TokenKind::FileComment || tokens.last().kind
        == TokenKind::Import
}

/// Lexing added at least one token and changed none of the old ones.
pub open spec fn tokens_grown(old: Seq<Token>, new: Seq<Token>) -> bool {
    &&& new.len() > old.len()
    &&& forall|i: int| 0 <= i < old.len() ==> #[trigger] new[i] == old[i]
}

/// Whether a token of this kind is folded into the last token (a type
/// or identifier following the start of a collection, outside tclass
/// definitions) rather than added.
pub open spec fn folds_into_last(in_tclass: bool, tokens: Seq<Token>, kind: TokenKind) -> bool {
    &&& !in_tclass
    &&& tokens.len() > 0
    &&& (kind == TokenKind::Identifier || kind == TokenKind::Type)
    &&& (tokens.last().kind == TokenKind::ListBegin || tokens.last().kind == TokenKind::MapBegin || (
    tokens.last().kind == TokenKind::TableBegin && kind == TokenKind::Identifier))
}

/// Whether no token holds a collection.
pub open spec fn scalar_tokens(tokens: Seq<Token>) -> bool {
    forall|i: int| 0 <= i < tokens.len() ==> !is_collection(#[trigger] tokens[i].value)
}

/// Where the hex text of bytes from `i` on ends: at the first `:)`, or
/// at the last char if there is none.
pub open spec fn bytes_end(text: Seq<char>, i: int) -> int
    decreases text.len() - i,
{
    if 0 <= i && i + 1 < text.len() && !(text[i] == ':' && text[i + 1] == ')') {
        bytes_end(text, i + 1)
    } else {
        i
    }
}

/// Whether a char may stand in the text of a number, date, or datetime.
pub open spec fn number_char(c: char) -> bool {
    c == '-' || c == '+' || c == '.' || c == ':' || c == 'e' || c == 'E' || c == 'T' || ('0' <= c && c <= '9')
}

/// Whether every char of `s` is an ASCII digit.
pub open spec fn digits_only(s: Seq<char>) -> bool {
    forall|i: int| 0 <= i < s.len() ==> '0' <= #[trigger] s[i] <= '9'
}

/// A text of digits shows no real, time, or minus marks.
pub(crate) proof fn lemma_digits_marks(s: Seq<char>)
    requires
        digits_only(s),
    ensures
        number_marks(s) == (false, false, 0nat),
    decreases s.len(),
{
    if s.len() > 0 {
        assert(digits_only(s.drop_last())) by {
            assert forall|i: int| 0 <= i < s.drop_last().len() implies '0' <= #[trigger] s.drop_last()[i] <= '9' by {
                assert(s.drop_last()[i] == s[i]);
            }
        }
        lemma_digits_marks(s.drop_last());
        assert('0' <= s[s.len() - 1] <= '9');
    }
}

/// The run of number chars from `i` ends at or after `i`, and within the
/// text.
proof fn lemma_number_end_bounds(text: Seq<char>, i: int)
    requires
        0 <= i <= text.len(),
    ensures
        i <= number_end(text, i) <= text.len(),
    decreases text.len() - i,
{
    if i < text.len() && number_char(text[i]) {
        lemma_number_end_bounds(text, i + 1);
    }
}

/// Where the run of number chars from `i` on ends.
pub open spec fn number_end(text: Seq<char>, i: int) -> int
    decreases text.len() - i,
{
    if 0 <= i < text.len() && number_char(text[i]) {
        number_end(text, i + 1)
    } else {
        i
    }
}

/// What the text of a number shows: whether it holds `.`, `e` or `E`
/// (a real); whether it holds `:` or `T` (a time); and how many `-` it
/// holds.
pub open spec fn number_marks(s: Seq<char>) -> (bool, bool, nat)
    decreases s.len(),
{
    if s.len() == 0 {
        (false, false, 0)
    } else {
        let m = number_marks(s.drop_last());
        let c = s.last();
        (m.0 || c == '.' || c == 'e' || c == 'E', m.1 || c == ':' || c == 'T', m.2 + if c == '-' {
            1nat
        } else {
            0nat
        })
    }
}

/// Whether a char may stand in an identifier.
pub open spec fn name_char(c: char) -> bool {
    c == '_' || unicode_alphanumeric(c)
}

/// Where the run of identifier chars from `i` on ends.
pub open spec fn ident_end(text: Seq<char>, i: int) -> int
    decreases text.len() - i,
{
    if 0 <= i < text.len() && name_char(text[i]) {
        ident_end(text, i + 1)
    } else {
        i
    }
}

/// The run of identifier chars from `i` ends at `i` or later.
proof fn lemma_ident_end_ge(text: Seq<char>, i: int)
    requires
        0 <= i,
    ensures
        i <= ident_end(text, i),
    decreases text.len() - i,
{
    if 0 <= i < text.len() && name_char(text[i]) {
        lemma_ident_end_ge(text, i + 1);
    }
}

/// The identifier read from `start`: its chars up to `end`, at most 33.
pub open spec fn ident_text(text: Seq<char>, start: int, end: int) -> Seq<char> {
    text.subrange(start, if end - start > 33 {
        start + 33
    } else {
        end
    })
}

/// Whether `c` is an ASCII letter, digit or underscore.
pub open spec fn ascii_name_char(c: char) -> bool {
    c == '_' || crate::text::ascii_letter(c) || crate::text::ascii_digit(c)
}

/// Where the run of ASCII letters, digits and underscores from `i` ends.
pub open spec fn ascii_name_end(text: Seq<char>, i: int) -> int
    decreases text.len() - i,
{
    if 0 <= i < text.len() && ascii_name_char(text[i]) {
        ascii_name_end(text, i + 1)
    } else {
        i
    }
}

/// Whether the chars from `a` up to `b` that are ASCII are letters, digits
/// or underscores, and the char at `b` (if any) is not one of these nor
/// another char that may stand in an identifier, as far as ASCII shows.
pub open spec fn ascii_ident_run(text: Seq<char>, a: int, b: int) -> bool {
    &&& forall|j: int| a <= j < b && #[trigger] text[j] <= '\u{7f}' ==> ascii_name_char(text[j])
    &&& b < text.len() && text[b] <= '\u{7f}' ==> !ascii_name_char(text[b])
}

/// Whether a plain name starts at `i`: an ASCII letter or underscore, then
/// ASCII letters, digits and underscores, at most 33 chars in all,
/// followed by the end or by an ASCII char, and neither `yes`, `no` nor a
/// built-in type name.
pub open spec fn plain_name_at(text: Seq<char>, i: int) -> bool {
    let e = ascii_name_end(text, i);
    &&& 0 <= i < text.len()
    &&& text[i] == '_' || crate::text::ascii_letter(text[i])
    &&& e - i <= 33
    &&& e < text.len() ==> text[e] <= '\u{7f}'
    &&& !crate::consts::is_bool_word(text.subrange(i, e))
    &&& !crate::consts::is_vtype_word(text.subrange(i, e))
}

/// The run of ASCII name chars from `i` ends at `i` or later, within the
/// text, and holds only such chars.
proof fn lemma_ascii_name_end(text: Seq<char>, i: int)
    requires
        0 <= i <= text.len(),
    ensures
        i <= ascii_name_end(text, i) <= text.len(),
        forall|j: int| i <= j < ascii_name_end(text, i) ==> ascii_name_char(#[trigger] text[j]),
        ascii_name_end(text, i) < text.len() ==> !ascii_name_char(text[ascii_name_end(text, i)]),
    decreases text.len() - i,
{
    if i < text.len() && ascii_name_char(text[i]) {
        lemma_ascii_name_end(text, i + 1);
    }
}

/// Where an identifier run that agrees with ASCII ends, at a plain name,
/// is where the name ends.
proof fn lemma_plain_name_run(text: Seq<char>, i: int, f: int)
    requires
        plain_name_at(text, i),
        i <= f <= text.len(),
        ascii_ident_run(text, i, f),
    ensures
        f == ascii_name_end(text, i),
{
    lemma_ascii_name_end(text, i);
    let e = ascii_name_end(text, i);
    if f < e {
        assert(ascii_name_char(text[f]));
        assert(text[f] <= '\u{7f}');
    } else if f > e {
        assert(text[e] <= '\u{7f}');
        assert(!ascii_name_char(text[e]));
    }
}

/// Where a chunk shown in a message ends: at the end of the line, or after
/// 8 chars.
pub open spec fn chunk_end(text: Seq<char>, start: int) -> int {
    if index_from(text, start, '\n') < start + 8 {
        index_from(text, start, '\n')
    } else {
        start + 8
    }
}

/// The chars that the lexer skips between tokens.
pub open spec fn lexer_ws(c: char) -> bool {
    c == ' ' || c == '\t' || c == '\n' || c == '\r' || c == '\x0C'
}

/// Where the run of chars that the lexer skips, from `i`, ends.
pub open spec fn ws_end(text: Seq<char>, i: int) -> int
    decreases text.len() - i,
{
    if 0 <= i < text.len() && lexer_ws(text[i]) {
        ws_end(text, i + 1)
    } else {
        i
    }
}

/// The position of the first `c` in `text` from `i` on, or the length of
/// `text` if there is none.
pub open spec fn index_from(text: Seq<char>, i: int, c: char) -> int
    decreases text.len() - i,
{
    if i < 0 || i >= text.len() {
        text.len() as int
    } else if text[i] == c {
        i
    } else {
        index_from(text, i + 1, c)
    }
}

/// The state of a lexer part way through some text.
pub struct Lexer {
    pub filename: String,
    pub pos: usize,
    pub lino: usize,
    pub in_tclass: bool,
    pub concatenate: bool,
    pub tokens: Vec<Token>,
    pub events: Vec<Event>,
}

/// What lexing some UXF text gives: the custom header text, the tokens
/// (ending with an end-of-file token), and the warnings met.
#[derive(Debug)]
pub struct Lexed {
    pub custom: String,
    pub tokens: Vec<Token>,
    pub events: Vec<Event>,
}

impl Lexer {
    /// Whether the position and line number fit the text, and the tokens
    /// hold scalars only.
    pub open spec fn wf(&self, text: Seq<char>) -> bool {
        self.pos <= text.len() && self.lino <= self.pos + 1 && text.len() < usize::MAX && scalar_tokens(
            self.tokens@,
        )
    }

    fn error(&self, code: u16, message: String) -> (e: UxfError)
        ensures
            e.code == code,
            e.message@ == message@,
            e.filename@ == self.filename@,
            e.lino == self.lino,
    {
        UxfError::new(code, message, self.filename.as_str(), self.lino)
    }

    fn peek(&self, text: &[char]) -> (c: char)
        ensures
            self.pos < text@.len() ==> c == text@[self.pos as int],
            self.pos >= text@.len() ==> c == '\0',
    {
        if self.pos < text.len() {
            text[self.pos]
        } else {
            '\0'
        }
    }

    /// Skips ASCII whitespace, counting newlines.
    fn skip_ws(&mut self, text: &[char])
        requires
            old(self).wf(text@),
        ensures
            final(self).wf(text@),
            final(self).pos >= old(self).pos,
            final(self).pos == ws_end(text@, old(self).pos as int),
            final(self).tokens == old(self).tokens,
            final(self).events == old(self).events,
            final(self).in_tclass == old(self).in_tclass,
            final(self).concatenate == old(self).concatenate,
            final(self).filename == old(self).filename,
    {
        while self.pos < text.len() && (text[self.pos] == ' ' || text[self.pos] == '\t'
            || text[self.pos] == '\n' || text[self.pos] == '\r' || text[self.pos] == '\x0C')
            invariant
                self.wf(text@),
                self.pos >= old(self).pos,
                self.tokens == old(self).tokens,
                self.events == old(self).events,
                self.in_tclass == old(self).in_tclass,
                self.concatenate == old(self).concatenate,
                self.filename == old(self).filename,
                ws_end(text@, self.pos as int) == ws_end(text@, old(self).pos as int),
            decreases text@.len() - self.pos,
        {
            if text[self.pos] == '\n' {
                self.lino += 1;
            }
            self.pos += 1;
        }
    }

    /// Reads up to the next `c`, counting newlines, and skips the `c`;
    /// error 270 if there is none.
    fn match_to_char(&mut self, text: &[char], c: char, what: &str) -> (r: Result<Vec<char>, UxfError>)
        requires
            old(self).wf(text@),
        ensures
            final(self).wf(text@),
            final(self).tokens == old(self).tokens,
            final(self).events == old(self).events,
            final(self).in_tclass == old(self).in_tclass,
            final(self).concatenate == old(self).concatenate,
            final(self).filename == old(self).filename,
            r is Ok ==> final(self).pos > old(self).pos,
            final(self).pos >= old(self).pos,
            r matches Err(e) ==> e.code == 270,
            r matches Ok(out) ==> out@ == text@.subrange(
                old(self).pos as int,
                index_from(text@, old(self).pos as int, c),
            ) && final(self).pos == index_from(text@, old(self).pos as int, c) + 1,
            r is Err ==> index_from(text@, old(self).pos as int, c) == text@.len(),
    {
        let start = self.pos;
        let mut i = self.pos;
        let mut lines: usize = 0;
        while i < text.len() && text[i] != c
            invariant
                self.wf(text@),
                self.pos == start,
                start <= i <= text@.len(),
                lines <= i - start,
                index_from(text@, i as int, c) == index_from(text@, start as int, c),
            decreases text@.len() - i,
        {
            if text[i] == '\n' {
                lines += 1;
            }
            i += 1;
        }
        if i >= text.len() {
            let mut m: Vec<char> = Vec::new();
            push_str(&mut m, "unterminated ");
            push_str(&mut m, what);
            return Err(self.error(270, str_for_chars(m.as_slice())));
        }
        let out = sub_chars(text, start, i);
        self.lino = self.lino + lines;
        self.pos = i + 1;
        Ok(out)
    }

    /// Adds a token, or folds an identifier or type into the start of the
    /// list, map, or table just before it (outside tclass definitions).
    fn add_token(&mut self, kind: TokenKind, value: Value) -> (r: Result<(), UxfError>)
        requires
            !is_collection(value),
        ensures
            scalar_tokens(old(self).tokens@) ==> scalar_tokens(final(self).tokens@),
            final(self).pos == old(self).pos,
            final(self).lino == old(self).lino,
            final(self).in_tclass == old(self).in_tclass,
            final(self).concatenate == old(self).concatenate,
            final(self).filename == old(self).filename,
            final(self).events == old(self).events,
            final(self).tokens@.len() >= old(self).tokens@.len(),
            final(self).tokens@.len() > 0,
            kind != TokenKind::FileComment && kind != TokenKind::Import ==> tokens_kept(
                old(self).tokens@,
                final(self).tokens@,
            ),
            !folds_into_last(old(self).in_tclass, old(self).tokens@, kind) ==> r is Ok && tokens_grown(
                old(self).tokens@,
                final(self).tokens@,
            ) && final(self).tokens@.len() == old(self).tokens@.len() + 1
                && final(self).tokens@.last().kind == kind && final(self).tokens@.last().value == value
                && final(self).tokens@.last().vtype@.len() == 0 && final(self).tokens@.last().comment@.len() == 0
                && final(self).tokens@.last().ktype@.len() == 0,
    {
        if !self.in_tclass && self.tokens.len() > 0 && (kind == TokenKind::Identifier || kind
            == TokenKind::Type) {
            let top_kind = self.tokens[self.tokens.len() - 1].kind;
            if top_kind == TokenKind::ListBegin || top_kind == TokenKind::MapBegin || (top_kind
                == TokenKind::TableBegin && kind == TokenKind::Identifier) {
                return self.subsume(kind, top_kind, value);
            }
        }
        let lino = self.lino;
        self.tokens.push(Token::new(kind, value, lino));
        Ok(())
    }

    /// Folds a type into the token of the list, map, or table start that
    /// is the last token.
    fn subsume(&mut self, kind: TokenKind, top_kind: TokenKind, value: Value) -> (r: Result<(), UxfError>)
        requires
            old(self).tokens@.len() > 0,
        ensures
            scalar_tokens(old(self).tokens@) ==> scalar_tokens(final(self).tokens@),
            final(self).pos == old(self).pos,
            final(self).lino == old(self).lino,
            final(self).in_tclass == old(self).in_tclass,
            final(self).concatenate == old(self).concatenate,
            final(self).filename == old(self).filename,
            final(self).events == old(self).events,
            final(self).tokens@.len() == old(self).tokens@.len(),
            final(self).tokens@.last().kind == old(self).tokens@.last().kind,
            forall|i: int| 0 <= i < old(self).tokens@.len() - 1 ==> #[trigger] final(self).tokens@[i] == old(
                self,
            ).tokens@[i],
            r is Err ==> final(self).tokens@ == old(self).tokens@,
            ({
                let top = old(self).tokens@.last();
                let last = final(self).tokens@.last();
                let name = match value {
                    Value::Str(s) => s@,
                    _ => Seq::<char>::empty(),
                };
                if top_kind == TokenKind::ListBegin {
                    if top.vtype@.len() == 0 {
                        check_outcome(r, vtype_error(name), "-"@, 0) && (r is Ok ==> last.vtype@ == name
                            && last.ktype == top.ktype)
                    } else {
                        r matches Err(e) && e.code == 272
                    }
                } else if top_kind == TokenKind::MapBegin {
                    if top.ktype@.len() == 0 {
                        if kind == TokenKind::Identifier {
                            r matches Err(e) && e.code == 273
                        } else {
                            check_outcome(r, ktype_error(name), "-"@, 0) && (r is Ok ==> last.ktype@ == name
                                && last.vtype == top.vtype)
                        }
                    } else if top.vtype@.len() == 0 {
                        check_outcome(r, vtype_error(name), "-"@, 0) && (r is Ok ==> last.vtype@ == name
                            && last.ktype == top.ktype)
                    } else {
                        r matches Err(e) && e.code == 276
                    }
                } else {
                    if top.vtype@.len() == 0 {
                        check_outcome(r, ttype_error(name), "-"@, 0) && (r is Ok ==> last.vtype@ == name
                            && last.ktype == top.ktype)
                    } else {
                        r matches Err(e) && e.code == 274
                    }
                }
            }),
            final(self).tokens@.last().comment == old(self).tokens@.last().comment,
            final(self).tokens@.last().value == old(self).tokens@.last().value,
    {
        let name = match &value {
            Value::Str(s) => s.clone(),
            _ => String::new(),
        };
        let mut text: Vec<char> = Vec::new();
        push_value_text(&mut text, &value);
        let shown = str_for_chars(text.as_slice());
        let mut top = self.tokens.pop().unwrap();
        let r = if top_kind == TokenKind::ListBegin {
            if top.vtype.as_str().is_empty() {
                match check_vtype(name.as_str()) {
                    Ok(()) => {
                        top.vtype = name;
                        Ok(())
                    },
                    Err(e) => Err(e),
                }
            } else {
                Err(self.error(272, String::from_str("expected value, got type ").concat(shown.as_str())))
            }
        } else if top_kind == TokenKind::MapBegin {
            if top.ktype.as_str().is_empty() {
                if kind == TokenKind::Identifier {
                    Err(self.error(273, String::from_str("expected ktype, got ").concat(shown.as_str())))
                } else {
                    match check_ktype(name.as_str()) {
                        Ok(()) => {
                            top.ktype = name;
                            Ok(())
                        },
                        Err(e) => Err(e),
                    }
                }
            } else if top.vtype.as_str().is_empty() {
                match check_vtype(name.as_str()) {
                    Ok(()) => {
                        top.vtype = name;
                        Ok(())
                    },
                    Err(e) => Err(e),
                }
            } else {
                Err(
                    self.error(
                        276,
                        String::from_str("expected first map key, got type ").concat(shown.as_str()),
                    ),
                )
            }
        } else {
            if top.vtype.as_str().is_empty() {
                match check_ttype(name.as_str()) {
                    Ok(()) => {
                        top.vtype = name;
                        Ok(())
                    },
                    Err(e) => Err(e),
                }
            } else {
                Err(self.error(274, String::from_str("expected value, got type ").concat(shown.as_str())))
            }
        };
        self.tokens.push(top);
        r
    }

    /// Ends a tclass definition if one is being read.
    fn check_in_tclass(&mut self) -> (r: Result<(), UxfError>)
        ensures
            scalar_tokens(old(self).tokens@) ==> scalar_tokens(final(self).tokens@),
            final(self).pos == old(self).pos,
            final(self).lino == old(self).lino,
            !final(self).in_tclass,
            final(self).concatenate == old(self).concatenate,
            final(self).filename == old(self).filename,
            final(self).events == old(self).events,
            tokens_kept(old(self).tokens@, final(self).tokens@),
            forall|i: int| 0 <= i < old(self).tokens@.len() ==> #[trigger] final(self).tokens@[i] == old(
                self,
            ).tokens@[i],
            !old(self).in_tclass ==> r is Ok && final(self).tokens == old(self).tokens,
            old(self).in_tclass ==> r is Ok && tokens_grown(old(self).tokens@, final(self).tokens@)
                && final(self).tokens@.len() == old(self).tokens@.len() + 1 && final(self).tokens@.last().kind
                == TokenKind::TClassEnd && final(self).tokens@.last().value == Value::Null,
    {
        if self.in_tclass {
            self.in_tclass = false;
            self.add_token(TokenKind::TClassEnd, Value::Null)
        } else {
            Ok(())
        }
    }

    /// Reads an identifier (a letter or underscore, then letters, digits,
    /// or underscores) from `start`, keeping at most 33 chars of it (so
    /// that a check can report one that is too long).
    fn match_identifier(&mut self, text: &[char], start: usize, what: &str) -> (r: Result<String, UxfError>)
        requires
            old(self).wf(text@),
            start <= old(self).pos,
        ensures
            final(self).wf(text@),
            final(self).pos >= old(self).pos,
            final(self).lino == old(self).lino,
            final(self).tokens == old(self).tokens,
            final(self).events == old(self).events,
            final(self).in_tclass == old(self).in_tclass,
            final(self).concatenate == old(self).concatenate,
            final(self).filename == old(self).filename,
            r is Ok ==> final(self).pos > start,
            final(self).pos == ident_end(text@, old(self).pos as int),
            r is Ok <==> ident_end(text@, old(self).pos as int) > start,
            r matches Ok(id) ==> id@ == ident_text(text@, start as int, final(self).pos as int),
            r matches Err(e) ==> e.code == 260,
            ascii_ident_run(text@, old(self).pos as int, final(self).pos as int),
    {
        while self.pos < text.len() && (text[self.pos] == '_' || is_alphanumeric(text[self.pos]))
            invariant
                forall|j: int| old(self).pos <= j < self.pos && #[trigger] text@[j] <= '\u{7f}' ==> ascii_name_char(text@[j]),
                self.wf(text@),
                self.pos >= old(self).pos,
                ident_end(text@, self.pos as int) == ident_end(text@, old(self).pos as int),
                self.lino == old(self).lino,
                self.tokens == old(self).tokens,
                self.events == old(self).events,
                self.in_tclass == old(self).in_tclass,
                self.concatenate == old(self).concatenate,
                self.filename == old(self).filename,
            decreases text@.len() - self.pos,
        {
            self.pos += 1;
        }
        if self.pos == start {
            let chunk = self.peek_chunk(text, start);
            let mut m: Vec<char> = Vec::new();
            push_str(&mut m, "expected ");
            push_str(&mut m, what);
            push_str(&mut m, ", got ");
            push_str(&mut m, debug_str(chunk.as_str()).as_str());
            m.push('…');
            return Err(self.error(260, str_for_chars(m.as_slice())));
        }
        let end = if self.pos - start > 33 {
            start + 33
        } else {
            self.pos
        };
        let id = sub_chars(text, start, end);
        Ok(str_for_chars(id.as_slice()))
    }

    /// The text from `start` to the end of its line (or a few chars).
    fn peek_chunk(&self, text: &[char], start: usize) -> (r: String)
        requires
            start <= text@.len(),
        ensures
            r@ == text@.subrange(start as int, chunk_end(text@, start as int)),
    {
        proof {
            lemma_index_from_bounds(text@, start as int, '\n');
        }
        let mut i = start;
        while i < text.len() && text[i] != '\n' && i - start < 8
            invariant
                start <= i <= text@.len(),
                i <= index_from(text@, start as int, '\n'),
                i - start <= 8,
                index_from(text@, i as int, '\n') == index_from(text@, start as int, '\n'),
            decreases text@.len() - i,
        {
            proof {
                lemma_index_from_bounds(text@, i + 1, '\n');
            }
            i += 1;
        }
        let chunk = sub_chars(text, start, i);
        str_for_chars(chunk.as_slice())
    }

    /// Reads a name: `yes` or `no`, a built-in type name, or an
    /// identifier (a ttype, a field name, or an identifier that the parser
    /// will reject).
    fn read_name(&mut self, text: &[char], start: usize) -> (r: Result<(), UxfError>)
        requires
            old(self).wf(text@),
            start < old(self).pos,
        ensures
            final(self).wf(text@),
            final(self).pos >= old(self).pos,
            final(self).concatenate == old(self).concatenate,
            final(self).filename == old(self).filename,
            final(self).events == old(self).events,
            tokens_kept(old(self).tokens@, final(self).tokens@),
            opens_nothing(old(self).tokens@) ==> (r is Ok ==> tokens_grown(old(self).tokens@, final(self).tokens@)),
            final(self).pos == ident_end(text@, old(self).pos as int),
            final(self).in_tclass == old(self).in_tclass,
            ascii_ident_run(text@, old(self).pos as int, final(self).pos as int),
            ({
                let id = ident_text(text@, start as int, ident_end(text@, old(self).pos as int));
                let top_open = old(self).tokens@.len() > 0 && old(self).tokens@.last().kind == TokenKind::TClassBegin
                    && old(self).tokens@.last().value is Null;
                &&& !crate::consts::is_bool_word(id) && !crate::consts::is_vtype_word(id) && old(self).in_tclass
                    && top_open ==> r is Ok && final(self).tokens@.len() == old(self).tokens@.len()
                    && final(self).tokens@.drop_last() == old(self).tokens@.drop_last() && final(self).tokens@.last().kind
                    == TokenKind::TClassBegin && final(self).tokens@.last().value@ == ValueModel::Str(id)
                    && final(self).tokens@.last().comment == old(self).tokens@.last().comment
                &&& !crate::consts::is_bool_word(id) && !crate::consts::is_vtype_word(id) && old(self).in_tclass
                    && !top_open ==> r is Ok && tokens_grown(old(self).tokens@, final(self).tokens@)
                    && final(self).tokens@.len() == old(self).tokens@.len() + 1 && final(self).tokens@.last().kind
                    == TokenKind::Field && final(self).tokens@.last().value@ == ValueModel::Str(id)
                    && final(self).tokens@.last().vtype@.len() == 0
                &&& id == "no"@ ==> r is Ok && tokens_grown(old(self).tokens@, final(self).tokens@)
                    && final(self).tokens@.last().kind == TokenKind::Bool && final(self).tokens@.last().value
                    == Value::Bool(false)
                &&& id == "yes"@ ==> r is Ok && tokens_grown(old(self).tokens@, final(self).tokens@)
                    && final(self).tokens@.last().kind == TokenKind::Bool && final(self).tokens@.last().value
                    == Value::Bool(true)
                &&& !crate::consts::is_bool_word(id) && crate::consts::is_vtype_word(id) && !folds_into_last(
                    old(self).in_tclass,
                    old(self).tokens@,
                    TokenKind::Type,
                ) ==> r is Ok && tokens_grown(old(self).tokens@, final(self).tokens@)
                    && final(self).tokens@.last().kind == TokenKind::Type && final(self).tokens@.last().value@
                    == ValueModel::Str(id)
                &&& !crate::consts::is_bool_word(id) && !crate::consts::is_vtype_word(id) && old(self).in_tclass ==> r is Ok
                &&& !crate::consts::is_bool_word(id) && !crate::consts::is_vtype_word(id) && !old(self).in_tclass
                    && !folds_into_last(false, old(self).tokens@, TokenKind::Identifier) ==> r is Ok
                    && tokens_grown(old(self).tokens@, final(self).tokens@) && final(self).tokens@.last().kind
                    == TokenKind::Identifier && final(self).tokens@.last().value@ == ValueModel::Str(id)
            }),
    {
        proof {
            lemma_ident_end_ge(text@, old(self).pos as int);
            broadcast use crate::value::lemma_value_view;

            reveal_strlit("no");
            reveal_strlit("yes");
            assert("no"@ != "yes"@) by {
                assert("no"@.len() != "yes"@.len());
            }
        }
        let id = match self.match_identifier(text, start, "identifier") {
            Ok(id) => id,
            Err(e) => return Err(e),
        };
        let cs = crate::text::chars_of(id.as_str());
        if crate::consts::is_word(cs.as_slice(), "no") {
            return self.add_token(TokenKind::Bool, Value::Bool(false));
        }
        if crate::consts::is_word(cs.as_slice(), "yes") {
            return self.add_token(TokenKind::Bool, Value::Bool(true));
        }
        if crate::consts::is_vtype_name(cs.as_slice()) {
            return self.add_token(TokenKind::Type, Value::Str(id));
        }
        if self.in_tclass && self.tokens.len() > 0 {
            let n = self.tokens.len();
            if self.tokens[n - 1].kind == TokenKind::TClassBegin && self.tokens[n - 1].value.is_null() {
                let mut top = self.tokens.pop().unwrap();
                top.value = Value::Str(id);
                self.tokens.push(top);
                return Ok(());
            }
            return self.add_token(TokenKind::Field, Value::Str(id));
        }
        if self.in_tclass {
            return self.add_token(TokenKind::Field, Value::Str(id));
        }
        self.add_token(TokenKind::Identifier, Value::Str(id))
    }

    /// Reads bytes (after `(:`) up to `:)`; errors 279 (unterminated) and
    /// 600 (not hex).
    fn read_bytes(&mut self, text: &[char]) -> (r: Result<(), UxfError>)
        requires
            old(self).wf(text@),
        ensures
            final(self).wf(text@),
            r is Ok ==> final(self).pos > old(self).pos,
            final(self).concatenate == old(self).concatenate,
            final(self).filename == old(self).filename,
            final(self).events == old(self).events,
            tokens_kept(old(self).tokens@, final(self).tokens@),
            r is Ok ==> tokens_grown(old(self).tokens@, final(self).tokens@),
            ({
                let e = bytes_end(text@, old(self).pos as int);
                let h = text@.subrange(old(self).pos as int, e);
                &&& e + 1 >= text@.len() ==> (r matches Err(err) && err.code == 279)
                &&& e + 1 < text@.len() && crate::util::hex_scan(h, None) is None ==> (r matches Err(err)
                    && err.code == 600)
                &&& e + 1 < text@.len() ==> (crate::util::hex_scan(h, None) matches Some(b) ==> r is Ok
                    && final(self).pos == e + 2 && final(self).tokens@.len() == old(self).tokens@.len() + 1
                    && final(self).tokens@.last().kind == TokenKind::Bytes && final(self).tokens@.last().value@
                    == ValueModel::Bytes(b))
            }),
    {
        proof {
            broadcast use crate::value::lemma_value_view;

        }
        let start = self.pos;
        let mut i = self.pos;
        let mut lines: usize = 0;
        while i + 1 < text.len() && !(text[i] == ':' && text[i + 1] == ')')
            invariant
                self.wf(text@),
                self.pos == start,
                bytes_end(text@, i as int) == bytes_end(text@, start as int),
                start <= i <= text@.len(),
                lines <= i - start,
            decreases text@.len() - i,
        {
            if text[i] == '\n' {
                lines += 1;
            }
            i += 1;
        }
        if i + 1 >= text.len() {
            return Err(self.error(279, String::from_str("unterminated bytes")));
        }
        let hex = sub_chars(text, start, i);
        self.lino = self.lino + lines;
        self.pos = i + 2;
        match hex_chars_as_bytes(hex.as_slice(), self.filename.as_str(), self.lino) {
            Ok(raw) => self.add_token(TokenKind::Bytes, Value::Bytes(raw)),
            Err(e) => Err(e),
        }
    }

    /// Reads a comment (after `#`): a str that must follow the start of a
    /// list, map, table, or tclass; errors 180 and 190.
    fn read_comment(&mut self, text: &[char]) -> (r: Result<(), UxfError>)
        requires
            old(self).wf(text@),
        ensures
            final(self).wf(text@),
            r is Ok ==> final(self).pos > old(self).pos,
            final(self).concatenate == old(self).concatenate,
            final(self).filename == old(self).filename,
            final(self).events == old(self).events,
            tokens_kept(old(self).tokens@, final(self).tokens@),
            r is Ok ==> old(self).tokens@.len() > 0 && (old(self).tokens@.last().kind == TokenKind::ListBegin
                || old(self).tokens@.last().kind == TokenKind::MapBegin || old(self).tokens@.last().kind
                == TokenKind::TableBegin || old(self).tokens@.last().kind == TokenKind::TClassBegin),
            old(self).tokens@.len() == 0 ==> (r matches Err(e) && e.code == 190),
            ({
                let p = old(self).pos as int;
                let opens = old(self).tokens@.len() > 0 && (old(self).tokens@.last().kind == TokenKind::ListBegin
                    || old(self).tokens@.last().kind == TokenKind::MapBegin || old(self).tokens@.last().kind
                    == TokenKind::TableBegin || old(self).tokens@.last().kind == TokenKind::TClassBegin);
                let q = index_from(text@, p + 1, '>');
                let raw = text@.subrange(p + 1, q);
                &&& old(self).tokens@.len() > 0 && !(opens && p < text@.len() && text@[p] == '<') ==> (r matches Err(
                    e,
                ) && e.code == 180)
                &&& opens && p < text@.len() && text@[p] == '<' && q == text@.len() ==> (r matches Err(e) && e.code
                    == 270)
                &&& opens && p < text@.len() && text@[p] == '<' && q < text@.len() ==> r is Ok && final(self).pos == q
                    + 1 && final(self).tokens@.len() == old(self).tokens@.len() && (raw.len() == 0 ==> final(self).tokens
                    == old(self).tokens) && (raw.len() > 0 ==> final(self).tokens@.last().comment@ == unescaped(raw)
                    && final(self).tokens@.last().kind == old(self).tokens@.last().kind)
            }),
    {
        let c = self.peek(text);
        if self.tokens.len() == 0 {
            return Err(
                self.error(
                    190,
                    String::from_str("comments may only occur at the start of 'Lists, Maps, Tables, and TClasses"),
                ),
            );
        }
        let k = self.tokens[self.tokens.len() - 1].kind;
        if (k == TokenKind::ListBegin || k == TokenKind::MapBegin || k == TokenKind::TableBegin || k
            == TokenKind::TClassBegin) && c == '<' {
            self.pos += 1;
            let raw = match self.match_to_char(text, '>', "comment string") {
                Ok(raw) => raw,
                Err(e) => return Err(e),
            };
            if raw.len() > 0 {
                let mut out: Vec<char> = Vec::new();
                push_unescaped(&mut out, raw.as_slice());
                let mut top = self.tokens.pop().unwrap();
                top.comment = str_for_chars(out.as_slice());
                self.tokens.push(top);
            }
            Ok(())
        } else {
            let m = String::from_str("a str must follow the # comment introducer, got ").concat(
                debug_char(c).as_str(),
            );
            Err(self.error(180, m))
        }
    }

    /// Reads a str (after `<`), joining it to the str (or comment) before
    /// it if `&` came between; error 195 if that is not a str.
    fn read_string(&mut self, text: &[char]) -> (r: Result<(), UxfError>)
        requires
            old(self).wf(text@),
        ensures
            final(self).wf(text@),
            final(self).in_tclass == old(self).in_tclass,
            r is Ok ==> final(self).pos > old(self).pos,
            final(self).filename == old(self).filename,
            final(self).events == old(self).events,
            tokens_kept(old(self).tokens@, final(self).tokens@),
            !old(self).concatenate ==> (r is Ok ==> tokens_grown(old(self).tokens@, final(self).tokens@)),
            ({
                let q = index_from(text@, old(self).pos as int, '>');
                let s = unescaped(text@.subrange(old(self).pos as int, q));
                &&& q == text@.len() ==> (r matches Err(e) && e.code == 270)
                &&& q < text@.len() ==> final(self).pos == q + 1 && !final(self).concatenate
                &&& q < text@.len() && !(old(self).concatenate && old(self).tokens@.len() > 0) ==> r is Ok
                    && tokens_grown(old(self).tokens@, final(self).tokens@) && final(self).tokens@.len()
                    == old(self).tokens@.len() + 1 && final(self).tokens@.last().kind == TokenKind::Str
                    && final(self).tokens@.last().value@ == ValueModel::Str(s)
                &&& q < text@.len() && old(self).concatenate && old(self).tokens@.len() > 0 ==> {
                    let top = old(self).tokens@.last();
                    &&& final(self).tokens@.len() == old(self).tokens@.len()
                    &&& (top.kind == TokenKind::Str || top.kind == TokenKind::FileComment) ==> r is Ok
                        && final(self).tokens@.last().value@ == ValueModel::Str(
                        (match top.value {
                            Value::Str(t) => t@,
                            _ => Seq::<char>::empty(),
                        }) + s,
                    )
                    &&& (top.kind == TokenKind::ListBegin || top.kind == TokenKind::MapBegin || top.kind
                        == TokenKind::TableBegin || top.kind == TokenKind::TClassBegin) ==> r is Ok
                        && final(self).tokens@.last().comment@ == top.comment@ + s
                    &&& !(top.kind == TokenKind::Str || top.kind == TokenKind::FileComment || top.kind
                        == TokenKind::ListBegin || top.kind == TokenKind::MapBegin || top.kind
                        == TokenKind::TableBegin || top.kind == TokenKind::TClassBegin) ==> (r matches Err(e)
                        && e.code == 195)
                }
            }),
    {
        proof {
            broadcast use crate::value::lemma_value_view;

        }
        let raw = match self.match_to_char(text, '>', "string") {
            Ok(raw) => raw,
            Err(e) => return Err(e),
        };
        let mut out: Vec<char> = Vec::new();
        push_unescaped(&mut out, raw.as_slice());
        let s = str_for_chars(out.as_slice());
        if self.concatenate && self.tokens.len() > 0 {
            self.concatenate = false;
            let mut top = self.tokens.pop().unwrap();
            let r = if top.kind == TokenKind::Str || top.kind == TokenKind::FileComment {
                let old = match &top.value {
                    Value::Str(t) => t.clone(),
                    _ => String::new(),
                };
                top.value = Value::Str(old.concat(s.as_str()));
                Ok(())
            } else if top.kind == TokenKind::ListBegin || top.kind == TokenKind::MapBegin || top.kind
                == TokenKind::TableBegin || top.kind == TokenKind::TClassBegin {
                top.comment = top.comment.clone().concat(s.as_str());
                Ok(())
            } else {
                Err(self.error(195, String::from_str("attempt to concatenate a str to a non-str")))
            };
            self.tokens.push(top);
            r
        } else {
            self.concatenate = false;
            self.add_token(TokenKind::Str, Value::Str(s))
        }
    }

    /// Reads a field's vtype (after `:`); error 248 if no field comes
    /// before it.
    fn read_field_vtype(&mut self, text: &[char]) -> (r: Result<(), UxfError>)
        requires
            old(self).wf(text@),
        ensures
            final(self).wf(text@),
            final(self).pos >= old(self).pos,
            final(self).concatenate == old(self).concatenate,
            final(self).filename == old(self).filename,
            final(self).events == old(self).events,
            tokens_kept(old(self).tokens@, final(self).tokens@),
            r is Ok ==> old(self).tokens@.len() > 0 && old(self).tokens@.last().kind == TokenKind::Field,
            ({
                let p = ws_end(text@, old(self).pos as int);
                let e = ident_end(text@, p);
                let field_last = old(self).in_tclass && old(self).tokens@.len() > 0 && old(self).tokens@.last().kind
                    == TokenKind::Field;
                &&& e == p ==> (r matches Err(err) && err.code == 260)
                &&& e > p && !field_last ==> (r matches Err(err) && err.code == 248)
                &&& e > p && field_last ==> r is Ok && final(self).pos == e && final(self).tokens@.len()
                    == old(self).tokens@.len() && final(self).tokens@.last().kind == TokenKind::Field
                    && final(self).tokens@.last().vtype@ == ident_text(text@, p, e)
            }),
    {
        self.skip_ws(text);
        let start = self.pos;
        let id = match self.match_identifier(text, start, "field vtype") {
            Ok(id) => id,
            Err(e) => return Err(e),
        };
        if self.in_tclass && self.tokens.len() > 0 && self.tokens[self.tokens.len() - 1].kind
            == TokenKind::Field {
            let mut top = self.tokens.pop().unwrap();
            top.vtype = id;
            self.tokens.push(top);
            Ok(())
        } else {
            let m = String::from_str("expected field vtype, got ").concat(debug_str(id.as_str()).as_str());
            Err(self.error(248, m))
        }
    }

    /// Reads an import (after `!`): the rest of the line, trimmed.
    fn read_import(&mut self, text: &[char]) -> (r: Result<(), UxfError>)
        requires
            old(self).wf(text@),
        ensures
            final(self).wf(text@),
            final(self).pos >= old(self).pos,
            final(self).concatenate == old(self).concatenate,
            final(self).in_tclass == old(self).in_tclass,
            final(self).filename == old(self).filename,
            final(self).events == old(self).events,
            r is Ok,
            final(self).pos == index_from(text@, old(self).pos as int, '\n'),
            tokens_grown(old(self).tokens@, final(self).tokens@),
            final(self).tokens@.len() == old(self).tokens@.len() + 1,
            final(self).tokens@.last().kind == TokenKind::Import,
            final(self).tokens@.last().value@ == ValueModel::Str(
                trimmed(text@.subrange(old(self).pos as int, index_from(text@, old(self).pos as int, '\n'))),
            ),
    {
        let start = self.pos;
        let mut i = self.pos;
        while i < text.len() && text[i] != '\n'
            invariant
                self.wf(text@),
                self.pos == start,
                start <= i <= text@.len(),
                index_from(text@, i as int, '\n') == index_from(text@, start as int, '\n'),
            decreases text@.len() - i,
        {
            i += 1;
        }
        let raw = sub_chars(text, start, i);
        let name = crate::header::trim_chars(raw.as_slice());
        self.pos = i;
        let value = Value::Str(str_for_chars(name.as_slice()));
        proof {
            crate::value::lemma_value_view(value);
        }
        self.add_token(TokenKind::Import, value)
    }

    /// Reads a number, date, or datetime whose text runs from `start` (a
    /// digit) on; `negative` if a `-` came before it.
    fn read_number(&mut self, text: &[char], start: usize, negative: bool, datable: bool) -> (r: Result<(), UxfError>)
        requires
            old(self).wf(text@),
            start < old(self).pos,
        ensures
            final(self).wf(text@),
            final(self).pos >= old(self).pos,
            final(self).concatenate == old(self).concatenate,
            final(self).filename == old(self).filename,
            final(self).events == old(self).events,
            final(self).in_tclass == old(self).in_tclass,
            tokens_kept(old(self).tokens@, final(self).tokens@),
            r is Ok ==> tokens_grown(old(self).tokens@, final(self).tokens@) && final(self).tokens@.len()
                == old(self).tokens@.len() + 1,
            ({
                let e = number_end(text@, start as int);
                let n = text@.subrange(start as int, e);
                let m = number_marks(n);
                let signed = if negative {
                    seq!['-'] + n
                } else {
                    n
                };
                &&& final(self).pos == if e > old(self).pos {
                    e
                } else {
                    old(self).pos as int
                }
                &&& datable && m.1 ==> (r is Ok ==> final(self).tokens@.last().kind == TokenKind::DateTime)
                &&& datable && m.1 && n.len() >= 19 ==> match crate::naturalize::datetime_of(
                    n.take(19),
                    "%Y-%m-%dT%H:%M:%S"@,
                ) {
                    Some(d) => r is Ok && final(self).tokens@.last().kind == TokenKind::DateTime
                        && final(self).tokens@.last().value == Value::DateTime(d),
                    None => r is Err,
                }
                &&& datable && m.1 && n.len() == 16 ==> match crate::naturalize::datetime_of(n, "%Y-%m-%dT%H:%M"@) {
                    Some(d) => r is Ok && final(self).tokens@.last().kind == TokenKind::DateTime
                        && final(self).tokens@.last().value == Value::DateTime(d),
                    None => r is Err,
                }
                &&& datable && m.1 && n.len() == 13 ==> match crate::naturalize::datetime_of(n, "%Y-%m-%dT%H"@) {
                    Some(d) => r is Ok && final(self).tokens@.last().kind == TokenKind::DateTime
                        && final(self).tokens@.last().value == Value::DateTime(d),
                    None => r is Err,
                }
                &&& datable && m.1 && n.len() < 19 && n.len() != 16 && n.len() != 13 ==> match crate::naturalize::datetime_of(
                    n,
                    "%Y-%m-%dT%H:%M:%S"@,
                ) {
                    Some(d) => r is Ok && final(self).tokens@.last().kind == TokenKind::DateTime
                        && final(self).tokens@.last().value == Value::DateTime(d),
                    None => r is Err,
                }
                &&& datable && !m.1 && m.2 == 2 ==> match crate::datetime::chrono_date(n) {
                    Ok(d) => r is Ok && final(self).tokens@.last().kind == TokenKind::Date
                        && final(self).tokens@.last().value == Value::Date(
                        Date { year: d.0, month: d.1, day: d.2 },
                    ),
                    Err(msg) => r matches Err(err) && err.message@ == msg,
                }
                &&& !(datable && (m.1 || m.2 == 2)) && m.0 ==> if crate::numbers::real_syntax(n) {
                    r is Ok && final(self).tokens@.last().kind == TokenKind::Real
                        && final(self).tokens@.last().value@ == ValueModel::Real(signed)
                } else {
                    r is Err
                }
                &&& !(datable && (m.1 || m.2 == 2)) && !m.0 ==> match crate::numbers::i64_of(signed) {
                    Ok(v) => r is Ok && final(self).tokens@.last().kind == TokenKind::Int
                        && final(self).tokens@.last().value == Value::Int(v as i64),
                    Err(msg) => r matches Err(err) && err.message@ == msg,
                }
            }),
    {
        proof {
            broadcast use crate::value::lemma_value_view;

            assert(text@.subrange(start as int, start as int) =~= Seq::<char>::empty());
        }
        let mut i = start;
        let mut is_real = false;
        let mut is_datetime = false;
        let mut hyphens: usize = 0;
        while i < text.len() && (text[i] == '-' || text[i] == '+' || text[i] == '.' || text[i] == ':'
            || text[i] == 'e' || text[i] == 'E' || text[i] == 'T' || ('0' <= text[i] && text[i] <= '9'))
            invariant
                start <= i <= text@.len(),
                hyphens <= i - start,
                number_end(text@, i as int) == number_end(text@, start as int),
                (is_real, is_datetime, hyphens as nat) == number_marks(text@.subrange(start as int, i as int)),
            decreases text@.len() - i,
        {
            proof {
                assert(text@.subrange(start as int, i + 1).drop_last() =~= text@.subrange(start as int, i as int));
            }
            let c = text[i];
            if c == '.' || c == 'e' || c == 'E' {
                is_real = true;
            } else if c == '-' {
                hyphens += 1;
            } else if c == ':' || c == 'T' {
                is_datetime = true;
            }
            i += 1;
        }
        if i > self.pos {
            self.pos = i;
        }
        let chars = sub_chars(text, start, i);
        if datable && is_datetime {
            let n = chars.len();
            let (len, fmt) = if n >= 19 {
                (19, "%Y-%m-%dT%H:%M:%S")
            } else if n == 16 {
                (16, "%Y-%m-%dT%H:%M")
            } else if n == 13 {
                (13, "%Y-%m-%dT%H")
            } else {
                (n, "%Y-%m-%dT%H:%M:%S")
            };
            let part = sub_chars(chars.as_slice(), 0, len);
            let s = str_for_chars(part.as_slice());
            proof {
                assert(part@ =~= chars@.take(len as int));
                if n < 19 {
                    assert(chars@.take(len as int) =~= chars@);
                }
            }
            match DateTime::parse(s.as_str(), fmt) {
                Ok(dt) => self.add_token(TokenKind::DateTime, Value::DateTime(dt)),
                Err(m) => Err(self.error(0, m)),
            }
        } else if datable && hyphens == 2 {
            let s = str_for_chars(chars.as_slice());
            match Date::parse(s.as_str()) {
                Ok(d) => self.add_token(TokenKind::Date, Value::Date(d)),
                Err(m) => Err(self.error(0, m)),
            }
        } else if is_real {
            if is_real_text(chars.as_slice()) {
                let mut t: Vec<char> = Vec::new();
                if negative {
                    t.push('-');
                }
                let ghost t0 = t@;
                let mut k: usize = 0;
                while k < chars.len()
                    invariant
                        k <= chars@.len(),
                        t@ == t0 + chars@.take(k as int),
                    decreases chars@.len() - k,
                {
                    t.push(chars[k]);
                    k += 1;
                    proof {
                        assert(chars@.take(k as int) =~= chars@.take(k - 1).push(chars@[k - 1]));
                    }
                }
                proof {
                    assert(chars@.take(k as int) =~= chars@);
                }
                self.add_token(TokenKind::Real, Value::Real(str_for_chars(t.as_slice())))
            } else {
                Err(self.error(0, String::from_str("invalid float literal")))
            }
        } else {
            let mut t: Vec<char> = Vec::new();
            if negative {
                t.push('-');
            }
            let ghost t0 = t@;
            let mut k: usize = 0;
            while k < chars.len()
                invariant
                    k <= chars@.len(),
                    t@ == t0 + chars@.take(k as int),
                decreases chars@.len() - k,
            {
                t.push(chars[k]);
                k += 1;
                proof {
                    assert(chars@.take(k as int) =~= chars@.take(k - 1).push(chars@[k - 1]));
                }
            }
            proof {
                assert(chars@.take(k as int) =~= chars@);
            }
            match parse_i64(t.as_slice()) {
                Ok(v) => self.add_token(TokenKind::Int, Value::Int(v)),
                Err(m) => Err(self.error(0, m)),
            }
        }
    }

    /// Reads the next token (or skips whitespace).
    fn scan_next(&mut self, text: &[char]) -> (r: Result<(), UxfError>)
        requires
            old(self).wf(text@),
            old(self).pos < text@.len(),
        ensures
            final(self).wf(text@),
            r is Ok ==> final(self).pos > old(self).pos,
            final(self).filename == old(self).filename,
            final(self).events == old(self).events,
            text@[old(self).pos as int] != '!' ==> tokens_kept(old(self).tokens@, final(self).tokens@),
            text@[old(self).pos as int] == '!' ==> r is Ok && final(self).pos == index_from(
                text@,
                old(self).pos + 1,
                '\n',
            ) && final(self).concatenate == old(self).concatenate && tokens_grown(old(self).tokens@, final(self).tokens@)
                && final(self).in_tclass == old(self).in_tclass
                && final(self).tokens@.len() == old(self).tokens@.len() + 1 && final(self).tokens@.last().kind
                == TokenKind::Import
                && final(self).tokens@.last().value@ == ValueModel::Str(
                trimmed(text@.subrange(old(self).pos + 1, index_from(text@, old(self).pos + 1, '\n'))),
            ),
            lexer_ws(text@[old(self).pos as int]) ==> r is Ok && final(self).tokens == old(self).tokens
                && final(self).concatenate == old(self).concatenate && final(self).pos == old(self).pos + 1,
            opens_nothing(old(self).tokens@) && !old(self).concatenate && !lexer_ws(text@[old(self).pos as int]) && text@[old(self).pos as int]
                != '&' && r is Ok ==> tokens_grown(old(self).tokens@, final(self).tokens@),
            text@[old(self).pos as int] == '[' && !old(self).in_tclass ==> r is Ok && tokens_grown(
                old(self).tokens@,
                final(self).tokens@,
            ) && final(self).tokens@.len() == old(self).tokens@.len() + 1 && final(self).tokens@.last().kind
                == TokenKind::ListBegin && final(self).tokens@.last().vtype@.len() == 0
                && final(self).tokens@.last().comment@.len() == 0 && final(self).tokens@.last().ktype@.len() == 0 && final(self).pos == old(self).pos + 1
                && final(self).tokens@.last().value == Value::Null && !final(self).in_tclass && final(self).concatenate
                == old(self).concatenate,
            text@[old(self).pos as int] == ']' ==> r is Ok && tokens_grown(old(self).tokens@, final(self).tokens@)
                && final(self).tokens@.len() == old(self).tokens@.len() + 1 && final(self).tokens@.last().kind
                == TokenKind::ListEnd && final(self).pos == old(self).pos + 1 && final(self).tokens@.last().value
                == Value::Null && final(self).in_tclass == old(self).in_tclass && final(self).concatenate
                == old(self).concatenate,
            text@[old(self).pos as int] == '{' && !old(self).in_tclass ==> r is Ok && tokens_grown(
                old(self).tokens@,
                final(self).tokens@,
            ) && final(self).tokens@.len() == old(self).tokens@.len() + 1 && final(self).tokens@.last().kind
                == TokenKind::MapBegin && final(self).tokens@.last().value == Value::Null
                && final(self).tokens@.last().vtype@.len() == 0 && final(self).tokens@.last().comment@.len() == 0
                && final(self).tokens@.last().ktype@.len() == 0 && final(self).pos
                == old(self).pos + 1 && !final(self).in_tclass && final(self).concatenate == old(self).concatenate,
            text@[old(self).pos as int] == '}' ==> r is Ok && tokens_grown(old(self).tokens@, final(self).tokens@)
                && final(self).tokens@.len() == old(self).tokens@.len() + 1 && final(self).tokens@.last().kind
                == TokenKind::MapEnd && final(self).tokens@.last().value == Value::Null && final(self).pos
                == old(self).pos + 1 && !final(self).in_tclass && final(self).concatenate == old(self).concatenate,
            text@[old(self).pos as int] == '?' ==> r is Ok && tokens_grown(old(self).tokens@, final(self).tokens@)
                && final(self).tokens@.len() == old(self).tokens@.len() + 1 && final(self).tokens@.last().kind
                == TokenKind::Null && final(self).tokens@.last().value == Value::Null && final(self).pos
                == old(self).pos + 1 && final(self).in_tclass == old(self).in_tclass && final(self).concatenate
                == old(self).concatenate,
            ({
                let q = index_from(text@, old(self).pos + 1, '>');
                text@[old(self).pos as int] == '<' && !old(self).concatenate && q < text@.len() ==> r is Ok
                    && tokens_grown(old(self).tokens@, final(self).tokens@) && final(self).tokens@.len()
                    == old(self).tokens@.len() + 1 && final(self).tokens@.last().kind == TokenKind::Str
                    && final(self).tokens@.last().value@ == ValueModel::Str(
                    unescaped(text@.subrange(old(self).pos + 1, q)),
                ) && final(self).pos == q + 1 && final(self).in_tclass == old(self).in_tclass
                    && !final(self).concatenate
            }),
            lexer_ws(text@[old(self).pos as int]) ==> final(self).in_tclass == old(self).in_tclass,
            ({
                let e = number_end(text@, old(self).pos as int);
                let n = text@.subrange(old(self).pos as int, e);
                '0' <= text@[old(self).pos as int] <= '9' && digits_only(n) ==> match crate::numbers::i64_of(n) {
                    Ok(v) => r is Ok && tokens_grown(old(self).tokens@, final(self).tokens@)
                        && final(self).tokens@.len() == old(self).tokens@.len() + 1
                        && final(self).tokens@.last().kind == TokenKind::Int && final(self).tokens@.last().value
                        == Value::Int(v as i64) && final(self).pos == e && final(self).in_tclass == old(
                        self,
                    ).in_tclass && final(self).concatenate == old(self).concatenate,
                    Err(_) => r is Err,
                }
            }),
            ({
                let e = number_end(text@, old(self).pos + 1);
                let n = text@.subrange(old(self).pos + 1, e);
                text@[old(self).pos as int] == '-' && old(self).pos + 1 < text@.len() && '0' <= text@[old(self).pos
                    + 1] <= '9' && digits_only(n) ==> match crate::numbers::i64_of(seq!['-'] + n) {
                    Ok(v) => r is Ok && tokens_grown(old(self).tokens@, final(self).tokens@)
                        && final(self).tokens@.len() == old(self).tokens@.len() + 1
                        && final(self).tokens@.last().kind == TokenKind::Int && final(self).tokens@.last().value
                        == Value::Int(v as i64) && final(self).pos == e && final(self).in_tclass == old(
                        self,
                    ).in_tclass && final(self).concatenate == old(self).concatenate,
                    Err(_) => r is Err,
                }
            }),
            ({
                let e = number_end(text@, old(self).pos as int);
                let n = text@.subrange(old(self).pos as int, e);
                let m = number_marks(n);
                '0' <= text@[old(self).pos as int] <= '9' && m.0 && !m.1 && m.2 != 2 && crate::numbers::real_syntax(n)
                    ==> r is Ok && tokens_grown(old(self).tokens@, final(self).tokens@) && final(self).tokens@.len()
                    == old(self).tokens@.len() + 1 && final(self).tokens@.last().kind == TokenKind::Real
                    && final(self).tokens@.last().value@ == ValueModel::Real(n) && final(self).pos == e
                    && final(self).in_tclass == old(self).in_tclass && final(self).concatenate == old(self).concatenate
            }),
            ({
                let e = number_end(text@, old(self).pos + 1);
                let n = text@.subrange(old(self).pos + 1, e);
                text@[old(self).pos as int] == '-' && old(self).pos + 1 < text@.len() && '0' <= text@[old(self).pos
                    + 1] <= '9' && number_marks(n).0 && crate::numbers::real_syntax(n) ==> r is Ok && tokens_grown(
                    old(self).tokens@,
                    final(self).tokens@,
                ) && final(self).tokens@.len() == old(self).tokens@.len() + 1 && final(self).tokens@.last().kind
                    == TokenKind::Real && final(self).tokens@.last().value@ == ValueModel::Real(seq!['-'] + n)
                    && final(self).pos == e && final(self).in_tclass == old(self).in_tclass
                    && final(self).concatenate == old(self).concatenate
            }),
            text@[old(self).pos as int] == '=' ==> r is Ok && final(self).in_tclass && final(self).pos == old(self).pos + 1
                && final(self).concatenate == old(self).concatenate && tokens_grown(old(self).tokens@, final(self).tokens@)
                && final(self).tokens@.len() == old(self).tokens@.len() + (if old(self).in_tclass {
                2int
            } else {
                1int
            }) && (old(self).in_tclass ==> final(self).tokens@[old(self).tokens@.len() as int].kind
                == TokenKind::TClassEnd && final(self).tokens@[old(self).tokens@.len() as int].value == Value::Null)
                && final(self).tokens@.last().kind == TokenKind::TClassBegin && final(self).tokens@.last().value
                == Value::Null && final(self).tokens@.last().comment@.len() == 0,
            (text@[old(self).pos as int] == '[' || text@[old(self).pos as int] == '{') && old(self).in_tclass ==> r is Ok
                && !final(self).in_tclass && final(self).pos == old(self).pos + 1 && final(self).concatenate == old(
                self,
            ).concatenate && tokens_grown(old(self).tokens@, final(self).tokens@) && final(self).tokens@.len()
                == old(self).tokens@.len() + 2 && final(self).tokens@[old(self).tokens@.len() as int].kind
                == TokenKind::TClassEnd && final(self).tokens@[old(self).tokens@.len() as int].value == Value::Null
                && final(self).tokens@.last().kind == (if text@[old(self).pos as int] == '[' {
                TokenKind::ListBegin
            } else {
                TokenKind::MapBegin
            }) && final(self).tokens@.last().value == Value::Null && final(self).tokens@.last().vtype@.len() == 0
                && final(self).tokens@.last().comment@.len() == 0 && final(self).tokens@.last().ktype@.len() == 0,
            ({
                let p = old(self).pos as int;
                let e = ascii_name_end(text@, p);
                let id = text@.subrange(p, e);
                let top_open = old(self).tokens@.len() > 0 && old(self).tokens@.last().kind == TokenKind::TClassBegin
                    && old(self).tokens@.last().value is Null;
                &&& plain_name_at(text@, p) && old(self).in_tclass && top_open ==> r is Ok
                    && final(self).tokens@.len() == old(self).tokens@.len() && final(self).tokens@.drop_last()
                    == old(self).tokens@.drop_last() && final(self).tokens@.last().kind == TokenKind::TClassBegin
                    && final(self).tokens@.last().value@ == ValueModel::Str(id) && final(self).tokens@.last().comment
                    == old(self).tokens@.last().comment && final(self).pos == e && final(self).in_tclass
                    && final(self).concatenate == old(self).concatenate
                &&& plain_name_at(text@, p) && old(self).in_tclass && !top_open ==> r is Ok && tokens_grown(
                    old(self).tokens@,
                    final(self).tokens@,
                ) && final(self).tokens@.len() == old(self).tokens@.len() + 1 && final(self).tokens@.last().kind
                    == TokenKind::Field && final(self).tokens@.last().value@ == ValueModel::Str(id)
                    && final(self).tokens@.last().vtype@.len() == 0 && final(self).pos == e && final(self).in_tclass
                    && final(self).concatenate == old(self).concatenate
            }),
    {
        let c = text[self.pos];
        let start = self.pos;
        self.pos += 1;
        if c == '\n' {
            self.lino += 1;
            return Ok(());
        }
        if c == ' ' || c == '\t' || c == '\r' || c == '\x0C' {
            return Ok(());
        }
        if c == '(' {
            if self.peek(text) == ':' {
                self.pos += 1;
                return self.read_bytes(text);
            }
            match self.check_in_tclass() {
                Ok(()) => {},
                Err(e) => return Err(e),
            }
            return self.add_token(TokenKind::TableBegin, Value::Null);
        }
        if c == ')' {
            return self.add_token(TokenKind::TableEnd, Value::Null);
        }
        if c == '[' {
            match self.check_in_tclass() {
                Ok(()) => {},
                Err(e) => return Err(e),
            }
            return self.add_token(TokenKind::ListBegin, Value::Null);
        }
        if c == '=' {
            match self.check_in_tclass() {
                Ok(()) => {},
                Err(e) => return Err(e),
            }
            let r = self.add_token(TokenKind::TClassBegin, Value::Null);
            self.in_tclass = true;
            return r;
        }
        if c == ']' {
            return self.add_token(TokenKind::ListEnd, Value::Null);
        }
        if c == '{' {
            match self.check_in_tclass() {
                Ok(()) => {},
                Err(e) => return Err(e),
            }
            return self.add_token(TokenKind::MapBegin, Value::Null);
        }
        if c == '}' {
            self.in_tclass = false;
            return self.add_token(TokenKind::MapEnd, Value::Null);
        }
        if c == '?' {
            return self.add_token(TokenKind::Null, Value::Null);
        }
        if c == '!' {
            return self.read_import(text);
        }
        if c == '#' {
            return self.read_comment(text);
        }
        if c == '<' {
            return self.read_string(text);
        }
        if c == '&' {
            self.skip_ws(text);
            self.concatenate = true;
            return Ok(());
        }
        if c == ':' {
            return self.read_field_vtype(text);
        }
        let next = self.peek(text);
        if (c == '-' || c == '+') && '0' <= next && next <= '9' {
            let s = self.pos;
            proof {
                lemma_number_end_bounds(text@, s + 1);
                let e = number_end(text@, s as int);
                if digits_only(text@.subrange(s as int, e)) {
                    lemma_digits_marks(text@.subrange(s as int, e));
                }
            }
            self.pos += 1;
            return self.read_number(text, s, c == '-', false);
        }
        if '0' <= c && c <= '9' {
            proof {
                lemma_number_end_bounds(text@, start + 1);
                let e = number_end(text@, start as int);
                if digits_only(text@.subrange(start as int, e)) {
                    lemma_digits_marks(text@.subrange(start as int, e));
                }
                assert(number_end(text@, start as int) >= start + 1);
            }
            return self.read_number(text, start, false, true);
        }
        if c == '_' || is_alphabetic(c) {
            let ghost before = *self;
            let r = self.read_name(text, start);
            proof {
                if plain_name_at(text@, start as int) {
                    let f = self.pos as int;
                    lemma_ident_end_ge(text@, start + 1);
                    assert(ascii_ident_run(text@, start as int, f)) by {
                        assert(ascii_name_char(text@[start as int]));
                    }
                    lemma_plain_name_run(text@, start as int, f);
                    assert(ident_text(text@, start as int, f) == text@.subrange(start as int, f));
                }
            }
            return r;
        }
        let m = String::from_str("invalid character encountered ").concat(debug_char(c).as_str());
        Err(self.error(170, m))
    }

    /// Reads the file comment, if there is one (after the header); error
    /// 160 if `#` is not followed by `<`.
    fn maybe_read_file_comment(&mut self, text: &[char]) -> (r: Result<(), UxfError>)
        requires
            old(self).wf(text@),
        ensures
            final(self).wf(text@),
            final(self).pos >= old(self).pos,
            final(self).filename == old(self).filename,
            final(self).events == old(self).events,
            final(self).concatenate == old(self).concatenate,
            final(self).in_tclass == old(self).in_tclass,
            ({
                let p = ws_end(text@, old(self).pos as int);
                if p < text@.len() && text@[p] == '#' {
                    &&& p + 1 < text@.len() && text@[p + 1] == '<' && index_from(text@, p + 2, '>') < text@.len()
                        ==> r is Ok
                    &&& !(p + 1 < text@.len() && text@[p + 1] == '<') ==> (r matches Err(e) && e.code == 160
                        && e.filename@ == old(self).filename@ && e.message@ == comment_syntax_message(
                        char_after(text@, p),
                    ))
                    &&& r is Ok ==> p + 1 < text@.len() && text@[p + 1] == '<' && final(self).pos == index_from(
                        text@,
                        p + 2,
                        '>',
                    ) + 1 && tokens_grown(old(self).tokens@, final(self).tokens@)
                        && final(self).tokens@.len() == old(self).tokens@.len() + 1
                        && final(self).tokens@.last().kind == TokenKind::FileComment
                        && final(self).tokens@.last().value@ == ValueModel::Str(
                        unescaped(text@.subrange(p + 2, index_from(text@, p + 2, '>'))),
                    )
                } else {
                    r is Ok && final(self).tokens == old(self).tokens && final(self).pos == p
                }
            }),
    {
        self.skip_ws(text);
        if self.pos < text.len() && text[self.pos] == '#' {
            self.pos += 1;
            if self.peek(text) == '<' {
                self.pos += 1;
                let raw = match self.match_to_char(text, '>', "file comment string") {
                    Ok(raw) => raw,
                    Err(e) => return Err(e),
                };
                let mut out: Vec<char> = Vec::new();
                push_unescaped(&mut out, raw.as_slice());
                let comment = Value::Str(str_for_chars(out.as_slice()));
                proof {
                    crate::value::lemma_value_view(comment);
                    assert(out@ =~= unescaped(raw@));
                }
                return self.add_token(TokenKind::FileComment, comment);
            } else {
                let mut m: Vec<char> = Vec::new();
                push_str(&mut m, "invalid comment syntax: expected '<', got '");
                m.push(self.peek(text));
                m.push('\'');
                proof {
                    reveal_strlit("invalid comment syntax: expected '<', got '");
                    assert(m@ =~= comment_syntax_message(char_after(text@, self.pos - 1)));
                }
                return Err(self.error(160, str_for_chars(m.as_slice())));
            }
        }
        Ok(())
    }
}

/// The char after position `p` (NUL past the end).
pub open spec fn char_after(text: Seq<char>, p: int) -> char {
    if p + 1 < text.len() {
        text[p + 1]
    } else {
        '\0'
    }
}

/// The message of the error for a `#` that is not followed by `<`.
pub open spec fn comment_syntax_message(c: char) -> Seq<char> {
    "invalid comment syntax: expected '<', got '"@ + seq![c, '\'']
}

/// Whether the text after the header starts with a `#` that is not
/// followed by `<` (a file comment of invalid syntax).
pub open spec fn bad_file_comment(text: Seq<char>) -> bool {
    let p = after_header(text);
    p < text.len() && text[p] == '#' && !(p + 1 < text.len() && text[p + 1] == '<')
}

/// Whether the text is a valid header line followed by nothing but
/// whitespace (a document with no file comment, imports, tclasses or
/// data).
pub open spec fn empty_body(text: Seq<char>) -> bool {
    first_newline(text) matches Some(nl) && header_of(text.take(nl)) is Ok && forall|i: int|
        nl <= i < text.len() ==> lexer_ws(#[trigger] text[i])
}

/// Where the run of skipped chars ends when every char from `i` on is one.
proof fn lemma_ws_end_all(text: Seq<char>, i: int)
    requires
        0 <= i <= text.len(),
        forall|j: int| i <= j < text.len() ==> lexer_ws(#[trigger] text[j]),
    ensures
        ws_end(text, i) == text.len(),
    decreases text.len() - i,
{
    if i < text.len() {
        lemma_ws_end_all(text, i + 1);
    }
}

/// `t` followed by the tokens of `rest`, if `rest` has tokens.
pub open spec fn then_tokens(t: (TokenKind, ValueModel), rest: Option<Seq<(TokenKind, ValueModel)>>) -> Option<
    Seq<(TokenKind, ValueModel)>,
> {
    match rest {
        Some(r) => Some(seq![t] + r),
        None => None,
    }
}

/// The tokens (kind and value) of plain data text from `i` on: brackets
/// and braces, `?`, ints (runs of digits, with an optional leading `-`,
/// that are valid `i64`s), reals (runs of number chars, with an optional
/// leading `-`, that start with a digit, hold a `.` or an exponent, and
/// read as reals, held as their text), and strs (`<`, text without `>` whose entities
/// are unescaped, `>`), separated by whitespace or nothing; `None` if any
/// other char occurs (or a str is not closed).
pub open spec fn plain_tokens(text: Seq<char>, i: int) -> Option<Seq<(TokenKind, ValueModel)>>
    decreases text.len() - i,
{
    if i < 0 {
        None
    } else if i >= text.len() {
        Some(seq![])
    } else {
        let c = text[i];
        if lexer_ws(c) {
            plain_tokens(text, i + 1)
        } else if c == '[' {
            then_tokens((TokenKind::ListBegin, ValueModel::Null), plain_tokens(text, i + 1))
        } else if c == ']' {
            then_tokens((TokenKind::ListEnd, ValueModel::Null), plain_tokens(text, i + 1))
        } else if c == '{' {
            then_tokens((TokenKind::MapBegin, ValueModel::Null), plain_tokens(text, i + 1))
        } else if c == '}' {
            then_tokens((TokenKind::MapEnd, ValueModel::Null), plain_tokens(text, i + 1))
        } else if c == '?' {
            then_tokens((TokenKind::Null, ValueModel::Null), plain_tokens(text, i + 1))
        } else if c == '<' {
            let q = index_from(text, i + 1, '>');
            if i < q < text.len() {
                then_tokens((TokenKind::Str, ValueModel::Str(unescaped(text.subrange(i + 1, q)))), plain_tokens(text, q + 1))
            } else {
                None
            }
        } else if '0' <= c <= '9' {
            let e = number_end(text, i);
            let n = text.subrange(i, e);
            if i < e <= text.len() && digits_only(n) && crate::numbers::i64_of(n) is Ok {
                then_tokens(
                    (TokenKind::Int, ValueModel::Int((crate::numbers::i64_of(n)->Ok_0) as i64)),
                    plain_tokens(text, e),
                )
            } else if i < e <= text.len() && number_marks(n).0 && !number_marks(n).1 && number_marks(n).2 != 2
                && crate::numbers::real_syntax(n) {
                then_tokens((TokenKind::Real, ValueModel::Real(n)), plain_tokens(text, e))
            } else {
                None
            }
        } else if c == '-' && i + 1 < text.len() && '0' <= text[i + 1] <= '9' {
            let e = number_end(text, i + 1);
            let n = text.subrange(i + 1, e);
            if i + 1 < e <= text.len() && digits_only(n) && crate::numbers::i64_of(seq!['-'] + n) is Ok {
                then_tokens(
                    (TokenKind::Int, ValueModel::Int((crate::numbers::i64_of(seq!['-'] + n)->Ok_0) as i64)),
                    plain_tokens(text, e),
                )
            } else if i + 1 < e <= text.len() && number_marks(n).0 && crate::numbers::real_syntax(n) {
                then_tokens((TokenKind::Real, ValueModel::Real(seq!['-'] + n)), plain_tokens(text, e))
            } else {
                None
            }
        } else {
            None
        }
    }
}


/// Where the import lines after the header (and file comment) end.
pub open spec fn after_imports(text: Seq<char>) -> int {
    imports_end(text, imports_start(text))
}

/// Whether the text is a valid header line followed by an optional file
/// comment, import lines, and plain data text (see `plain_tokens`), with
/// nothing joined (`&`) to the file comment or the last import.
pub open spec fn plain_import_body(text: Seq<char>) -> bool {
    &&& first_newline(text) matches Some(nl) && header_of(text.take(nl)) is Ok
    &&& (after_header(text) < text.len() && text[after_header(text)] == '#' ==> file_comment(text) is Some
        && file_comment_alone(text))
    &&& imports_alone(text)
    &&& def_tokens(text, after_imports(text), false) is Some
}

/// The tokens (kind and value) of plain tclass definitions from `i` on,
/// then those of the plain data after them (see `plain_tokens`); `open`
/// says whether a definition is open, its end still to come. A definition
/// is `=` and a plain name (the ttype; see `plain_name_at`), then plain
/// names (the fields) after whitespace; it ends where the next definition
/// or the data (a `[` or `{`) starts, which gives its end token. `None`
/// for anything else (and for a definition that the end of the text
/// leaves open).
#[verifier::opaque]
pub open spec fn def_tokens(text: Seq<char>, i: int, open: bool) -> Option<Seq<(TokenKind, ValueModel)>>
    decreases text.len() - i,
{
    if i < 0 {
        None
    } else if i >= text.len() {
        if open {
            None
        } else {
            Some(seq![])
        }
    } else {
        let c = text[i];
        if lexer_ws(c) {
            def_tokens(text, i + 1, open)
        } else if c == '=' {
            let e = ascii_name_end(text, i + 1);
            if plain_name_at(text, i + 1) && i + 1 < e <= text.len() {
                let rest = then_tokens(
                    (TokenKind::TClassBegin, ValueModel::Str(text.subrange(i + 1, e))),
                    def_tokens(text, e, true),
                );
                if open {
                    then_tokens((TokenKind::TClassEnd, ValueModel::Null), rest)
                } else {
                    rest
                }
            } else {
                None
            }
        } else if open {
            if c == '[' || c == '{' {
                then_tokens((TokenKind::TClassEnd, ValueModel::Null), plain_tokens(text, i))
            } else {
                let e = ascii_name_end(text, i);
                if plain_name_at(text, i) && i < e <= text.len() {
                    then_tokens((TokenKind::Field, ValueModel::Str(text.subrange(i, e))), def_tokens(text, e, true))
                } else {
                    None
                }
            }
        } else {
            plain_tokens(text, i)
        }
    }
}

/// Chars that the lexer skips read as no tokens, among definitions too.
pub(crate) proof fn lemma_def_ws(text: Seq<char>, a: int, b: int, open: bool)
    requires
        0 <= a <= b,
        ws_between(text, a, b),
    ensures
        def_tokens(text, a, open) == def_tokens(text, b, open),
    decreases b - a,
{
    if a < b {
        assert(lexer_ws(text[a]));
        lemma_def_ws(text, a + 1, b, open);
        reveal(def_tokens);
    }
}

/// Chars that the lexer skips read as no tokens.
pub(crate) proof fn lemma_plain_ws(text: Seq<char>, a: int, b: int)
    requires
        0 <= a <= b,
        ws_between(text, a, b),
    ensures
        plain_tokens(text, a) == plain_tokens(text, b),
    decreases b - a,
{
    if a < b {
        assert(lexer_ws(text[a]));
        lemma_plain_ws(text, a + 1, b);
    }
}

/// Where lexing plain definitions and data stands, `nb` tokens after the
/// start: in the data (`dm`), just after a definition's `=` (`ae`), or
/// among the definitions (`open` if one is open); the tokens read after
/// the first `nb`, then those that the rest of the text gives, are `full`.
#[verifier::opaque]
pub open spec fn def_state(
    text: Seq<char>,
    ts: Seq<Token>,
    pos: int,
    open: bool,
    conc: bool,
    nb: int,
    dm: bool,
    ae: bool,
    full: Seq<(TokenKind, ValueModel)>,
) -> bool {
    let e = ascii_name_end(text, pos);
    &&& 0 <= nb <= ts.len()
    &&& 0 <= pos <= text.len()
    &&& !conc
    &&& dm ==> !open && plain_tokens(text, pos) is Some && token_models(ts.skip(nb)) + plain_tokens(text, pos)->Some_0
        == full
    &&& !dm && !ae ==> def_tokens(text, pos, open) is Some && token_models(ts.skip(nb)) + def_tokens(
        text,
        pos,
        open,
    )->Some_0 == full && (open ==> ts.len() > nb && !(ts.last().kind == TokenKind::TClassBegin
        && ts.last().value is Null))
    &&& !dm && ae ==> open && ts.len() > nb && ts.last().kind == TokenKind::TClassBegin && ts.last().value is Null
        && plain_name_at(text, pos) && pos < e <= text.len() && def_tokens(text, e, true) is Some && token_models(
        ts.skip(nb).drop_last(),
    ) + (seq![(TokenKind::TClassBegin, ValueModel::Str(text.subrange(pos, e)))] + def_tokens(text, e, true)->Some_0)
        == full
}

/// What lexing can meet next in such a state.
proof fn lemma_def_ok(
    text: Seq<char>,
    ts: Seq<Token>,
    pos: int,
    open: bool,
    conc: bool,
    nb: int,
    dm: bool,
    ae: bool,
    full: Seq<(TokenKind, ValueModel)>,
)
    requires
        def_state(text, ts, pos, open, conc, nb, dm, ae, full),
        pos < text.len(),
    ensures
        !conc,
        dm ==> !open && plain_tokens(text, pos) is Some,
        !dm && ae ==> open && plain_name_at(text, pos) && ts.len() > 0 && ts.last().kind == TokenKind::TClassBegin
            && ts.last().value is Null,
        !dm && !ae ==> ({
            let c = text[pos];
            ||| lexer_ws(c)
            ||| c == '='
            ||| open && (c == '[' || c == '{')
            ||| open && plain_name_at(text, pos) && ts.len() > 0 && !(ts.last().kind == TokenKind::TClassBegin
                && ts.last().value is Null)
            ||| !open && plain_tokens(text, pos) is Some
        }),
{
    reveal(def_state);
    reveal(def_tokens);
}

/// After the last char, a state among the definitions or the data has
/// read all its tokens.
proof fn lemma_def_end(
    text: Seq<char>,
    ts: Seq<Token>,
    open: bool,
    conc: bool,
    nb: int,
    dm: bool,
    ae: bool,
    full: Seq<(TokenKind, ValueModel)>,
)
    requires
        def_state(text, ts, text.len() as int, open, conc, nb, dm, ae, full),
    ensures
        ts.len() >= nb,
        token_models(ts.skip(nb)) == full,
{
    reveal(def_state);
    reveal(def_tokens);
    assert(plain_tokens(text, text.len() as int) == Some(Seq::<(TokenKind, ValueModel)>::empty()));
    assert(token_models(ts.skip(nb)) + Seq::<(TokenKind, ValueModel)>::empty() =~= token_models(ts.skip(nb)));
}

/// The state after one step of the lexer among the definitions or the
/// data.
#[verifier::rlimit(100)]
proof fn lemma_def_step(
    text: Seq<char>,
    old_ts: Seq<Token>,
    new_ts: Seq<Token>,
    pos: int,
    npos: int,
    open: bool,
    nopen: bool,
    nconc: bool,
    nb: int,
    dm: bool,
    ae: bool,
    full: Seq<(TokenKind, ValueModel)>,
) -> (res: (bool, bool))
    requires
        def_state(text, old_ts, pos, open, false, nb, dm, ae, full),
        0 <= pos < text.len(),
        npos <= text.len(),
        lexer_ws(text[pos]) ==> new_ts == old_ts && nconc == false && npos == pos + 1 && nopen == open,
        !lexer_ws(text[pos]) && ((dm && !open) || (!dm && !ae && !open && text[pos] != '=')) && plain_tokens(text, pos)
            is Some ==> tokens_grown(old_ts, new_ts) && new_ts.len() == old_ts.len() + 1 && plain_tokens(text, pos)
            == then_tokens((new_ts.last().kind, new_ts.last().value@), plain_tokens(text, npos)) && !nopen && !nconc,
        text[pos] == '=' ==> nopen && npos == pos + 1 && nconc == false && tokens_grown(old_ts, new_ts)
            && new_ts.len() == old_ts.len() + (if open {
            2int
        } else {
            1int
        }) && (open ==> new_ts[old_ts.len() as int].kind == TokenKind::TClassEnd && new_ts[old_ts.len() as int].value
            == Value::Null) && new_ts.last().kind == TokenKind::TClassBegin && new_ts.last().value == Value::Null,
        (text[pos] == '[' || text[pos] == '{') && open ==> !nopen && npos == pos + 1 && nconc == false && tokens_grown(
            old_ts,
            new_ts,
        ) && new_ts.len() == old_ts.len() + 2 && new_ts[old_ts.len() as int].kind == TokenKind::TClassEnd
            && new_ts[old_ts.len() as int].value == Value::Null && new_ts.last().kind == (if text[pos] == '[' {
            TokenKind::ListBegin
        } else {
            TokenKind::MapBegin
        }) && new_ts.last().value == Value::Null,
        ({
            let e = ascii_name_end(text, pos);
            let id = text.subrange(pos, e);
            let top_open = old_ts.len() > 0 && old_ts.last().kind == TokenKind::TClassBegin && old_ts.last().value
                is Null;
            &&& plain_name_at(text, pos) && open && top_open ==> new_ts.len() == old_ts.len() && new_ts.drop_last()
                == old_ts.drop_last() && new_ts.last().kind == TokenKind::TClassBegin && new_ts.last().value@
                == ValueModel::Str(id) && npos == e && nopen && nconc == false
            &&& plain_name_at(text, pos) && open && !top_open ==> tokens_grown(old_ts, new_ts) && new_ts.len()
                == old_ts.len() + 1 && new_ts.last().kind == TokenKind::Field && new_ts.last().value@ == ValueModel::Str(
                id,
            ) && npos == e && nopen && nconc == false
        }),
    ensures
        def_state(text, new_ts, npos, nopen, nconc, nb, res.0, res.1, full),
{
    reveal(def_state);
    reveal(def_tokens);
    let c = text[pos];
    if new_ts.len() > 0 {
        crate::value::lemma_value_view(new_ts.last().value);
    }
    lemma_ascii_name_end(text, pos);
    if c == '=' {
        lemma_ascii_name_end(text, pos + 1);
    }
    if dm {
        if !lexer_ws(c) {
            lemma_plain_step_after(text, pos, npos, old_ts, new_ts, nb);
        }
        (true, false)
    } else if ae {
        let e = ascii_name_end(text, pos);
        let t = (TokenKind::TClassBegin, ValueModel::Str(text.subrange(pos, e)));
        assert forall|j: int| 0 <= j < new_ts.len() - 1 implies #[trigger] new_ts[j] == old_ts[j] by {
            assert(new_ts.drop_last()[j] == old_ts.drop_last()[j]);
        }
        assert(new_ts.skip(nb) =~= old_ts.skip(nb).drop_last().push(new_ts.last()));
        assert(token_models(new_ts.skip(nb)) =~= token_models(old_ts.skip(nb).drop_last()).push(t));
        assert(token_models(old_ts.skip(nb).drop_last()).push(t) + def_tokens(text, e, true)->Some_0
            =~= token_models(old_ts.skip(nb).drop_last()) + (seq![t] + def_tokens(text, e, true)->Some_0));
        (false, false)
    } else if lexer_ws(c) {
        (false, false)
    } else if c == '=' {
        let e = ascii_name_end(text, pos + 1);
        let t = (TokenKind::TClassBegin, ValueModel::Str(text.subrange(pos + 1, e)));
        let rest = def_tokens(text, e, true)->Some_0;
        if open {
            let te = (TokenKind::TClassEnd, ValueModel::Null);
            crate::value::lemma_value_view(new_ts[old_ts.len() as int].value);
            assert(new_ts.skip(nb).drop_last() =~= old_ts.skip(nb).push(new_ts[old_ts.len() as int]));
            assert(token_models(new_ts.skip(nb).drop_last()) =~= token_models(old_ts.skip(nb)).push(te));
            assert(token_models(old_ts.skip(nb)).push(te) + (seq![t] + rest) =~= token_models(old_ts.skip(nb)) + (seq![
                te,
            ] + (seq![t] + rest)));
        } else {
            assert(new_ts.skip(nb).drop_last() =~= old_ts.skip(nb));
        }
        (false, true)
    } else if open && (c == '[' || c == '{') {
        let te = (TokenKind::TClassEnd, ValueModel::Null);
        let tb = (new_ts.last().kind, ValueModel::Null);
        crate::value::lemma_value_view(new_ts.last().value);
        crate::value::lemma_value_view(new_ts[old_ts.len() as int].value);
        let rest = plain_tokens(text, pos + 1)->Some_0;
        assert(new_ts.skip(nb) =~= old_ts.skip(nb).push(new_ts[old_ts.len() as int]).push(new_ts.last()));
        assert(token_models(new_ts.skip(nb)) =~= token_models(old_ts.skip(nb)).push(te).push(tb));
        assert(token_models(old_ts.skip(nb)).push(te).push(tb) + rest =~= token_models(old_ts.skip(nb)) + (seq![te]
            + (seq![tb] + rest)));
        (true, false)
    } else if open {
        let e = ascii_name_end(text, pos);
        let t = (TokenKind::Field, ValueModel::Str(text.subrange(pos, e)));
        let rest = def_tokens(text, e, true)->Some_0;
        assert(new_ts.skip(nb) =~= old_ts.skip(nb).push(new_ts.last()));
        assert(token_models(new_ts.skip(nb)) =~= token_models(old_ts.skip(nb)).push(t));
        assert(token_models(old_ts.skip(nb)).push(t) + rest =~= token_models(old_ts.skip(nb)) + (seq![t] + rest));
        (false, false)
    } else {
        lemma_plain_step_after(text, pos, npos, old_ts, new_ts, nb);
        (true, false)
    }
}

/// One token read from plain data text after `n` other tokens: what was
/// read after those and what is left still make up the text's tokens.
proof fn lemma_plain_step_after(text: Seq<char>, pos: int, npos: int, old_ts: Seq<Token>, new_ts: Seq<Token>, n: int)
    requires
        0 <= pos < text.len(),
        0 <= n <= old_ts.len(),
        tokens_grown(old_ts, new_ts),
        new_ts.len() == old_ts.len() + 1,
        plain_tokens(text, pos) == then_tokens((new_ts.last().kind, new_ts.last().value@), plain_tokens(text, npos)),
        plain_tokens(text, pos) is Some,
    ensures
        plain_tokens(text, npos) is Some,
        token_models(new_ts.skip(n)) + plain_tokens(text, npos)->Some_0 == token_models(old_ts.skip(n)) + plain_tokens(
            text,
            pos,
        )->Some_0,
{
    let t = (new_ts.last().kind, new_ts.last().value@);
    let rest = plain_tokens(text, npos)->Some_0;
    assert(new_ts =~= old_ts.push(new_ts.last()));
    assert(new_ts.skip(n) =~= old_ts.skip(n).push(new_ts.last()));
    assert(token_models(new_ts.skip(n)) =~= token_models(old_ts.skip(n)).push(t));
    assert(token_models(old_ts.skip(n)).push(t) + rest =~= token_models(old_ts.skip(n)) + (seq![t] + rest));
}

/// The kinds and values of tokens.
pub open spec fn token_models(ts: Seq<Token>) -> Seq<(TokenKind, ValueModel)> {
    ts.map_values(|t: Token| (t.kind, t.value@))
}

/// Whether the text is a valid header line, a file comment, and nothing
/// but whitespace after it.
pub open spec fn comment_only_body(text: Seq<char>) -> bool {
    let q = index_from(text, after_header(text) + 2, '>');
    &&& first_newline(text) matches Some(nl) && header_of(text.take(nl)) is Ok
    &&& file_comment(text) is Some
    &&& forall|i: int| q < i < text.len() ==> lexer_ws(#[trigger] text[i])
}

/// Whether the text has a valid header line followed by a `#` that is
/// not followed by `<`: the text's first error is then 160.
pub open spec fn comment_syntax_error(text: Seq<char>) -> bool {
    first_newline(text) matches Some(nl) && header_of(text.take(nl)) is Ok && bad_file_comment(text)
}

/// Where a file comment would start: the first char after the header
/// line's newline that the lexer does not skip.
pub open spec fn after_header(text: Seq<char>) -> int {
    match first_newline(text) {
        Some(nl) => ws_end(text, nl),
        None => text.len() as int,
    }
}

/// The text of the file comment, if the text has one: `#<`, the escaped
/// text, and `>`, just after the header line (past chars that the lexer
/// skips).
pub open spec fn file_comment(text: Seq<char>) -> Option<Seq<char>> {
    let p = after_header(text);
    if p + 1 < text.len() && text[p] == '#' && text[p + 1] == '<' && index_from(text, p + 2, '>')
        < text.len() {
        Some(unescaped(text.subrange(p + 2, index_from(text, p + 2, '>'))))
    } else {
        None
    }
}

/// Whether a file comment (if there is one) stands alone: no `&` follows
/// it to join a str to it.
pub open spec fn file_comment_alone(text: Seq<char>) -> bool {
    let p = after_header(text);
    let k = ws_end(text, index_from(text, p + 2, '>') + 1);
    !(p < text.len() && text[p] == '#') || k >= text.len() || text[k] != '&'
}

/// Whether the lexer skips every char from `a` up to `b`.
pub open spec fn ws_between(text: Seq<char>, a: int, b: int) -> bool {
    &&& b <= text.len()
    &&& forall|j: int| #![trigger text[j]] a <= j < b ==> lexer_ws(text[j])
}

proof fn lemma_ws_between_at(text: Seq<char>, a: int, b: int, j: int)
    requires
        ws_between(text, a, b),
        a <= j < b,
    ensures
        j < text.len(),
        lexer_ws(text[j]),
{
    assert(lexer_ws(text[j]));
}

/// The chars from `i` up to `ws_end(text, i)` are ones the lexer skips,
/// and the one there (if any) is not.
pub proof fn lemma_ws_end(text: Seq<char>, i: int)
    requires
        0 <= i <= text.len(),
    ensures
        i <= ws_end(text, i),
        ws_between(text, i, ws_end(text, i)),
        ws_end(text, i) < text.len() ==> !lexer_ws(text[ws_end(text, i)]),
    decreases text.len() - i,
{
    if 0 <= i < text.len() && lexer_ws(text[i]) {
        lemma_ws_end(text, i + 1);
        assert(ws_end(text, i) == ws_end(text, i + 1));
        assert forall|j: int| #![trigger text[j]] i <= j < ws_end(text, i) implies lexer_ws(text[j]) by {
            if j > i {
                lemma_ws_between_at(text, i + 1, ws_end(text, i + 1), j);
            }
        }
        assert(ws_between(text, i, ws_end(text, i)));
    } else {
        assert(ws_end(text, i) == i);
        assert(ws_between(text, i, i));
    }
}

/// The first `c` from `i` on is at `i` or later, and within the text.
pub proof fn lemma_index_from_bounds(text: Seq<char>, i: int, c: char)
    requires
        0 <= i <= text.len(),
    ensures
        i <= index_from(text, i, c) <= text.len(),
        index_from(text, i, c) < text.len() ==> text[index_from(text, i, c)] == c,
    decreases text.len() - i,
{
    if i < text.len() && text[i] != c {
        lemma_index_from_bounds(text, i + 1, c);
    }
}

/// Where the import lines start: just past the file comment if there is
/// one, else where it would start.
pub open spec fn imports_start(text: Seq<char>) -> int {
    let p = after_header(text);
    if p < text.len() && text[p] == '#' {
        index_from(text, p + 2, '>') + 1
    } else {
        p
    }
}

/// Whether an import line starts at the first char from `i` on that the
/// lexer does not skip: a `!`, with the rest of its line after it.
pub open spec fn import_line_at(text: Seq<char>, i: int) -> bool {
    let k = ws_end(text, i);
    &&& 0 <= i <= k < text.len()
    &&& text[k] == '!'
    &&& i < index_from(text, k + 1, '\n') <= text.len()
}

/// The names of the import lines from `i` on: each runs from a `!` (after
/// chars that the lexer skips) to the end of its line, trimmed.
pub open spec fn imports_from(text: Seq<char>, i: int) -> Seq<Seq<char>>
    decreases text.len() - i,
{
    if import_line_at(text, i) {
        let k = ws_end(text, i);
        let e = index_from(text, k + 1, '\n');
        seq![trimmed(text.subrange(k + 1, e))] + imports_from(text, e)
    } else {
        seq![]
    }
}

/// Where the import lines from `i` on end.
pub open spec fn imports_end(text: Seq<char>, i: int) -> int
    decreases text.len() - i,
{
    if import_line_at(text, i) {
        imports_end(text, index_from(text, ws_end(text, i) + 1, '\n'))
    } else {
        i
    }
}

/// Whether nothing joins (`&`) to the last import line.
pub open spec fn imports_alone(text: Seq<char>) -> bool {
    let k = ws_end(text, imports_end(text, imports_start(text)));
    k >= text.len() || text[k] != '&'
}

/// Whether a token is an import of the given name.
pub open spec fn import_token(t: Token, name: Seq<char>) -> bool {
    t.kind == TokenKind::Import && t.value@ == ValueModel::Str(name)
}

/// Whether the tokens from `base` on start with an import token for each
/// of the names, in order.
pub open spec fn imports_lexed(tokens: Seq<Token>, base: int, names: Seq<Seq<char>>) -> bool {
    &&& 0 <= base
    &&& base + names.len() <= tokens.len()
    &&& forall|j: int| 0 <= j < names.len() ==> import_token(#[trigger] tokens.skip(base)[j], names[j])
}

/// Whether the tokens from `base` on are exactly one import token for
/// each of the names, then a token that is not an import.
pub open spec fn import_run(tokens: Seq<Token>, base: int, names: Seq<Seq<char>>) -> bool {
    &&& imports_lexed(tokens, base, names)
    &&& base + names.len() < tokens.len()
    &&& tokens[base + names.len()].kind != TokenKind::Import
}

/// Lexing a token that keeps the old ones keeps a run of imports and what
/// ends it.
proof fn lemma_import_run_kept(old: Seq<Token>, new: Seq<Token>, base: int, names: Seq<Seq<char>>)
    requires
        import_run(old, base, names),
        tokens_kept(old, new) || tokens_grown(old, new),
    ensures
        import_run(new, base, names),
{
    assert forall|j: int| 0 <= j < names.len() implies import_token(#[trigger] new.skip(base)[j], names[j]) by {
        assert(import_token(old.skip(base)[j], names[j]));
        assert(new[base + j] == old[base + j]);
    }
    assert(new[base + names.len()].kind == old[base + names.len()].kind);
}

/// An import token lexed after a run of imports extends the run.
proof fn lemma_imports_lexed_grown(old: Seq<Token>, new: Seq<Token>, base: int, names: Seq<Seq<char>>, name: Seq<
    char,
>)
    requires
        imports_lexed(old, base, names),
        old.len() == base + names.len(),
        tokens_grown(old, new),
        new.len() == old.len() + 1,
        new.last().kind == TokenKind::Import,
        new.last().value@ == ValueModel::Str(name),
    ensures
        imports_lexed(new, base, names.push(name)),
{
    assert forall|j: int| 0 <= j < names.len() + 1 implies import_token(
        #[trigger] new.skip(base)[j],
        names.push(name)[j],
    ) by {
        if j < names.len() {
            assert(import_token(old.skip(base)[j], names[j]));
            assert(new[base + j] == old[base + j]);
        }
    }
}

/// A token other than an import lexed after a run of imports ends it.
proof fn lemma_imports_lexed_grown_other(old: Seq<Token>, new: Seq<Token>, base: int, names: Seq<Seq<char>>)
    requires
        imports_lexed(old, base, names),
        old.len() == base + names.len(),
        tokens_grown(old, new),
        tokens_kept(old, new),
    ensures
        import_run(new, base, names),
{
    assert forall|j: int| 0 <= j < names.len() implies import_token(#[trigger] new.skip(base)[j], names[j]) by {
        assert(import_token(old.skip(base)[j], names[j]));
        assert(new[base + j] == old[base + j]);
    }
}

/// Where the tokens after the file comment start: 1 if there is a file
/// comment, else 0.
pub open spec fn after_comment_index(text: Seq<char>) -> int {
    if file_comment(text) is Some {
        1
    } else {
        0
    }
}

/// The message of the warning for a version newer than this library's.
pub open spec fn version_message(v: u16) -> Seq<char> {
    "version "@ + crate::text::nat_text(v as nat) + " > current 1"@
}

/// Lexes UXF text: reads the header (see `scan_header`), warning (141) if
/// its version is newer than 1, then the file comment and the tokens, and
/// ends them with an end-of-file token.
#[verifier::rlimit(100)]
pub fn tokenize(text: &str, filename: &str) -> (r: Result<Lexed, UxfError>)
    requires
        text@.len() < usize::MAX,
    ensures
        r matches Ok(l) ==> l.tokens@.len() > 0 && l.tokens@.last().kind == TokenKind::Eof && scalar_tokens(
            l.tokens@,
        ),
        match first_newline(text@) {
            None => r matches Err(e) && e.code == 110 && e.lino == 1 && e.filename@ == filename@
                && e.message@ == header_message(110),
            Some(nl) => match header_of(text@.take(nl)) {
                Ok((v, custom)) => (r matches Ok(l) ==> l.custom@ == custom && l.events@.len() == (if v > 1 {
                    1int
                } else {
                    0int
                }) && (v > 1 ==> l.events@[0].code == 141 && l.events@[0].kind == crate::event::EventKind::Warning
                    && l.events@[0].lino == 1 && l.events@[0].filename@ == filename@ && l.events@[0].message@
                    == version_message(v))),
                Err(code) => r matches Err(e) && e.code == code && e.lino == 1 && e.filename@
                    == filename@ && e.message@ == header_message(code),
            },
        },
        empty_body(text@) ==> (r matches Ok(l) && l.tokens@.len() == 1 && l.tokens@[0].kind == TokenKind::Eof),
        plain_import_body(text@) ==> (r matches Ok(l) && l.tokens@.len() > 0 && l.tokens@.last().kind == TokenKind::Eof
            && l.tokens@.len() - 1 >= after_comment_index(text@) + imports_from(text@, imports_start(text@)).len()
            && token_models(l.tokens@.drop_last().skip(
            after_comment_index(text@) + imports_from(text@, imports_start(text@)).len(),
        )) == def_tokens(text@, after_imports(text@), false)->Some_0 && (forall|i: int|
            0 <= i < l.tokens@.len() && ((#[trigger] l.tokens@[i]).kind == TokenKind::ListBegin || l.tokens@[i].kind
                == TokenKind::MapBegin) ==> l.tokens@[i].ktype@.len() == 0 && l.tokens@[i].vtype@.len() == 0
                && l.tokens@[i].comment@.len() == 0) && (forall|i: int|
            0 <= i < l.tokens@.len() && (#[trigger] l.tokens@[i]).kind == TokenKind::Field ==> l.tokens@[i].vtype@.len()
                == 0) && forall|i: int|
            0 <= i < l.tokens@.len() && (#[trigger] l.tokens@[i]).kind == TokenKind::TClassBegin
                ==> l.tokens@[i].comment@.len() == 0),
        comment_only_body(text@) ==> (r matches Ok(l) && l.tokens@.len() == 2 && l.tokens@[0].kind
            == TokenKind::FileComment && l.tokens@[0].value@ == ValueModel::Str(file_comment(text@)->Some_0)
            && l.tokens@[1].kind == TokenKind::Eof),
        comment_syntax_error(text@) ==> (r matches Err(e) && e.code == 160 && e.filename@ == filename@ && e.message@
            == comment_syntax_message(char_after(text@, after_header(text@)))),
        file_comment_alone(text@) && imports_alone(text@) ==> (r matches Ok(l) ==> import_run(
            l.tokens@,
            after_comment_index(text@),
            imports_from(text@, imports_start(text@)),
        )),
        file_comment_alone(text@) ==> (r matches Ok(l) ==> match file_comment(text@) {
            Some(c) => l.tokens@[0].kind == TokenKind::FileComment && l.tokens@[0].value@ == ValueModel::Str(
                c,
            ),
            None => forall|i: int| 0 <= i < l.tokens@.len() ==> (#[trigger] l.tokens@[i]).kind
                != TokenKind::FileComment,
        }),
{
    let chars = crate::text::chars_of(text);
    let (nl, v, custom) = match scan_header(chars.as_slice(), filename) {
        Ok(h) => h,
        Err(e) => return Err(e),
    };
    proof {
        crate::header::lemma_first_newline_bound(chars@);
    }
    let mut lx = Lexer {
        filename: String::from_str(filename),
        pos: nl,
        lino: 1,
        in_tclass: false,
        concatenate: false,
        tokens: Vec::new(),
        events: Vec::new(),
    };
    if v > 1 {
        let mut m: Vec<char> = Vec::new();
        push_str(&mut m, "version ");
        push_nat(&mut m, v as u64);
        push_str(&mut m, " > current 1");
        proof {
            reveal_strlit("version ");
            reveal_strlit(" > current 1");
            assert(m@ =~= version_message(v));
        }
        let message = str_for_chars(m.as_slice());
        lx.events.push(Event::new_warning(141, message.as_str(), filename, 1));
    }
    let ghost first_events = lx.events@;
    let ghost p = ws_end(chars@, nl as int);
    let ghost q = index_from(chars@, p + 2, '>');
    let ghost q2 = ws_end(chars@, q + 1);
    proof {
        lemma_ws_end(chars@, nl as int);
        if empty_body(text@) {
            lemma_ws_end_all(chars@, nl as int);
        }
        assert(after_header(chars@) == p);
    }
    match lx.maybe_read_file_comment(chars.as_slice()) {
        Ok(()) => {},
        Err(e) => return Err(e),
    }
    let ghost has_comment = p < chars@.len() && chars@[p] == '#';
    let ghost fc = lx.tokens@[0];
    let ghost clean = file_comment_alone(text@) && imports_alone(text@);
    let ghost base: int = if has_comment {
        1
    } else {
        0
    };
    let ghost s0 = imports_start(chars@);
    let ghost full = imports_from(chars@, s0);
    let ghost mut n: int = 0;
    let ghost mut cur: int = s0;
    let ghost mut done = false;
    let ghost pi = plain_import_body(text@);
    let ghost ie = after_imports(chars@);
    let ghost pfull2 = def_tokens(chars@, ie, false)->Some_0;
    let ghost mut dm = false;
    let ghost mut ae = false;
    proof {
        if has_comment {
            lemma_ws_end(chars@, q + 1);
        }
        assert(after_header(chars@) == p);
        assert(!bad_file_comment(text@));
        lemma_ws_end(chars@, s0);
        assert(full.take(0) =~= Seq::<Seq<char>>::empty());
    }
    while lx.pos < chars.len()
        invariant
            lx.wf(chars@),
            lx.events@ == first_events,
            chars@ == text@,
            first_newline(text@) == Some(nl as int),
            header_of(text@.take(nl as int)) is Ok,
            has_comment == (p < chars@.len() && chars@[p] == '#'),
            !bad_file_comment(text@),
            empty_body(text@) ==> lx.tokens@.len() == 0 && lx.pos == chars@.len(),
            after_header(text@) == p,
            pi == plain_import_body(text@),
            ie == after_imports(chars@),
            pi ==> clean && pfull2 == def_tokens(chars@, ie, false)->Some_0,
            pi && !done ==> !lx.in_tclass,
            pi ==> forall|i: int|
                0 <= i < lx.tokens@.len() && ((#[trigger] lx.tokens@[i]).kind == TokenKind::ListBegin
                    || lx.tokens@[i].kind == TokenKind::MapBegin) ==> lx.tokens@[i].ktype@.len() == 0
                    && lx.tokens@[i].vtype@.len() == 0 && lx.tokens@[i].comment@.len() == 0,
            pi ==> forall|i: int|
                0 <= i < lx.tokens@.len() && (#[trigger] lx.tokens@[i]).kind == TokenKind::Field
                    ==> lx.tokens@[i].vtype@.len() == 0,
            pi ==> forall|i: int|
                0 <= i < lx.tokens@.len() && (#[trigger] lx.tokens@[i]).kind == TokenKind::TClassBegin
                    ==> lx.tokens@[i].comment@.len() == 0,
            pi && done ==> ie <= lx.pos && !lx.concatenate && def_state(
                chars@,
                lx.tokens@,
                lx.pos as int,
                lx.in_tclass,
                lx.concatenate,
                base + full.len(),
                dm,
                ae,
                pfull2,
            ),
            comment_only_body(text@) ==> lx.tokens@.len() == 1 && lx.pos >= q + 1 && !lx.concatenate
                && lx.tokens@[0].kind == TokenKind::FileComment && lx.tokens@[0].value@ == ValueModel::Str(
                file_comment(text@)->Some_0,
            ),
            has_comment ==> q + 1 <= q2,
            has_comment ==> ws_between(chars@, q + 1, q2),
            has_comment ==> q2 < chars@.len() ==> !lexer_ws(chars@[q2]),
            has_comment && file_comment_alone(text@) ==> (q2 < chars@.len() ==> chars@[q2] != '&'),
            has_comment ==> lx.tokens@.len() >= 1,
            has_comment && file_comment_alone(text@) ==> lx.tokens@[0] == fc,
            has_comment && file_comment_alone(text@) ==> (lx.tokens@.len() == 1 ==> !lx.concatenate
                && lx.pos <= q2),
            has_comment ==> lx.pos >= q + 1,
            has_comment ==> fc.kind == TokenKind::FileComment,
            !has_comment ==> forall|i: int| 0 <= i < lx.tokens@.len() ==> (#[trigger] lx.tokens@[i]).kind
                != TokenKind::FileComment,
            clean == (file_comment_alone(text@) && imports_alone(text@)),
            base == (if has_comment {
                1int
            } else {
                0int
            }),
            s0 == imports_start(chars@),
            full == imports_from(chars@, s0),
            has_comment ==> s0 == q + 1,
            clean ==> 0 <= cur <= chars@.len() && 0 <= n <= full.len(),
            clean ==> imports_lexed(lx.tokens@, base, full.take(n)),
            clean && !done ==> lx.tokens@.len() == base + n && imports_from(chars@, cur) == full.skip(n) && cur
                <= lx.pos <= ws_end(chars@, cur) && !lx.concatenate && imports_end(chars@, cur) == imports_end(
                chars@,
                s0,
            ),
            clean && done ==> n == full.len() && import_run(lx.tokens@, base, full),
        decreases chars@.len() - lx.pos,
    {
        proof {
            if has_comment && lx.tokens@.len() == 1 && lx.pos < q2 {
                lemma_ws_between_at(chars@, q + 1, q2, lx.pos as int);
            }
            if clean && !done {
                lemma_ws_end(chars@, cur);
                if lx.pos < ws_end(chars@, cur) {
                    lemma_ws_between_at(chars@, cur, ws_end(chars@, cur), lx.pos as int);
                }
            }
        }
        let ghost old_pos = lx.pos as int;
        let ghost old_tokens = lx.tokens@;
        let ghost old_open = lx.in_tclass;
        proof {
            if pi && !done {
                lemma_ws_end(chars@, cur);
                if old_pos == ws_end(chars@, cur) && chars@[old_pos] != '!' {
                    assert(imports_end(chars@, cur) == cur);
                    assert(!import_line_at(chars@, cur));
                    assert(full.skip(n).len() == 0);
                    lemma_def_ws(chars@, cur, old_pos, false);
                    assert(old_tokens.skip(base + full.len()) =~= Seq::<Token>::empty());
                    assert(token_models(old_tokens.skip(base + full.len())) + pfull2 =~= pfull2);
                    assert(def_state(chars@, old_tokens, old_pos, false, false, base + full.len(), false, false, pfull2))
                        by {
                        reveal(def_state);
                    }
                    lemma_def_ok(chars@, old_tokens, old_pos, false, false, base + full.len(), false, false, pfull2);
                }
            }
            if pi && done {
                lemma_def_ok(chars@, old_tokens, old_pos, old_open, lx.concatenate, base + full.len(), dm, ae, pfull2);
            }
            if pi {
                lemma_ascii_name_end(chars@, old_pos);
                if chars@[old_pos] == '=' {
                    lemma_ascii_name_end(chars@, old_pos + 1);
                }
            }
            if pi {
                let c = chars@[old_pos];
                if '0' <= c <= '9' {
                    lemma_number_end_bounds(chars@, old_pos + 1);
                }
                if c == '-' && old_pos + 1 < chars@.len() {
                    lemma_number_end_bounds(chars@, old_pos + 2);
                }
                if c == '<' {
                    lemma_index_from_bounds(chars@, old_pos + 1, '>');
                }
            }
        }
        match lx.scan_next(chars.as_slice()) {
            Ok(()) => {},
            Err(e) => return Err(e),
        }
        proof {
            if pi && done {
                crate::value::lemma_value_view(lx.tokens@.last().value);
                let res = lemma_def_step(
                    chars@,
                    old_tokens,
                    lx.tokens@,
                    old_pos,
                    lx.pos as int,
                    old_open,
                    lx.in_tclass,
                    lx.concatenate,
                    base + full.len(),
                    dm,
                    ae,
                    pfull2,
                );
                dm = res.0;
                ae = res.1;
            }
        }
        proof {
            if clean {
                if done {
                    lemma_import_run_kept(old_tokens, lx.tokens@, base, full);
                } else {
                    let k = ws_end(chars@, cur);
                    if old_pos < k {
                        assert(lx.tokens@ == old_tokens);
                    } else if chars@[k] == '!' {
                        lemma_index_from_bounds(chars@, k + 1, '\n');
                        let e = index_from(chars@, k + 1, '\n');
                        assert(import_line_at(chars@, cur));
                        assert(full.skip(n) == seq![trimmed(chars@.subrange(k + 1, e))] + imports_from(chars@, e));
                        assert(full.skip(n)[0] == full[n]);
                        assert(full.skip(n + 1) =~= full.skip(n).skip(1));
                        lemma_imports_lexed_grown(old_tokens, lx.tokens@, base, full.take(n), full[n]);
                        assert(full.take(n).push(full[n]) =~= full.take(n + 1));
                        lemma_ws_end(chars@, e);
                        n = n + 1;
                        cur = e;
                    } else {
                        assert(!import_line_at(chars@, cur));
                        assert(full.skip(n).len() == 0);
                        assert(full.take(n) =~= full);
                        assert(imports_end(chars@, cur) == cur);
                        assert(chars@[k] != '&');
                        assert(!lexer_ws(chars@[k]));
                        assert(opens_nothing(old_tokens)) by {
                            if n > 0 {
                                assert(import_token(old_tokens.skip(base)[n - 1], full.take(n)[n - 1]));
                            } else if has_comment {
                                assert(old_tokens[0] == fc);
                            }
                        }
                        lemma_imports_lexed_grown_other(old_tokens, lx.tokens@, base, full);
                        if pi {
                            crate::value::lemma_value_view(lx.tokens@.last().value);
                            let res = lemma_def_step(
                                chars@,
                                old_tokens,
                                lx.tokens@,
                                old_pos,
                                lx.pos as int,
                                false,
                                lx.in_tclass,
                                lx.concatenate,
                                base + full.len(),
                                false,
                                false,
                                pfull2,
                            );
                            dm = res.0;
                            ae = res.1;
                        }
                        done = true;
                    }
                }
            }
        }
    }
    proof {
        if clean && !done {
            lemma_ws_end(chars@, cur);
            assert(!import_line_at(chars@, cur));
            assert(full.skip(n).len() == 0);
            assert(full.take(n) =~= full);
            if pi {
                reveal(def_tokens);
                lemma_def_ws(chars@, cur, chars@.len() as int, false);
                assert(lx.tokens@.skip(base + full.len()) =~= Seq::<Token>::empty());
                assert(token_models(lx.tokens@.skip(base + full.len())) =~= Seq::<(TokenKind, ValueModel)>::empty());
            }
        }
        if pi && done {
            lemma_def_end(chars@, lx.tokens@, lx.in_tclass, lx.concatenate, base + full.len(), dm, ae, pfull2);
            assert(token_models(lx.tokens@.skip(base + full.len())) + Seq::<(TokenKind, ValueModel)>::empty()
                =~= token_models(lx.tokens@.skip(base + full.len())));
        }
    }
    let lino = lx.lino;
    let ghost before = lx.tokens@;
    lx.tokens.push(Token::new(TokenKind::Eof, Value::Null, lino));
    proof {
        if clean {
            assert(tokens_grown(before, lx.tokens@));
            if done {
                lemma_import_run_kept(before, lx.tokens@, base, full);
            } else {
                assert(tokens_kept(before, lx.tokens@));
                lemma_imports_lexed_grown_other(before, lx.tokens@, base, full);
            }
            assert(base == after_comment_index(text@));
        }
        if pi {
            assert(lx.tokens@.drop_last() =~= before);
        }
    }
    Ok(Lexed { custom: str_for_chars(custom.as_slice()), tokens: lx.tokens, events: lx.events })
}


} // verus!
