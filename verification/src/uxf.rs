//! A UXF document: an optional custom header text, an optional file
//! comment, its tclasses and imports, and one collection value.
use crate::error::UxfError;
use crate::header::{first_newline, header_of, lemma_first_newline_at, lemma_header_of_written, trimmed};
use crate::lexer::{
    digits_only, number_char, number_end, after_header, file_comment, file_comment_alone, import_line_at, imports_alone, imports_end, imports_from,
    imports_start, index_from, lexer_ws, ws_end,
};
use crate::util::{escaped, law_escaped_has_no_angle_brackets, law_unescape_escape, str_for_chars};
use crate::parser::header_error;
use crate::imports::{
    entry_keys, import_entries, index_map_clear, index_map_contains_key, index_map_key_at,
    index_map_len, index_map_new, index_map_value_at, keys_unique,
};
use crate::tclass::{tclass_text, TClass, TClassModel};
use crate::tclasses::{tclass_models, ttypes_of, ttypes_sorted, TClasses};
use crate::text::{push_nat, push_str};
use crate::value::{
    comment_text, push_comment_text, push_value_text, value_text, List, ListModel, Value, ValueModel,
};
use crate::key::KeyModel;
use crate::visit::{push_visits, tclasses_in, visit_models, visit_trace, Visit};
use indexmap::IndexMap;
use vstd::prelude::*;

verus! {

/// What to disregard when comparing UXF documents (a set of flags).
#[derive(Clone, Copy, Debug, PartialEq, Eq, Structural, Default)]
pub struct Compare {
    pub bits: u8,
}

impl Compare {
    /// Compare everything.
    pub fn exact() -> (c: Compare)
        ensures
            c.bits == 0,
    {
        Compare { bits: 0 }
    }

    /// Disregard comments.
    pub fn ignore_comments() -> (c: Compare)
        ensures
            c.bits == 1,
    {
        Compare { bits: 1 }
    }

    /// Disregard tclasses that no table uses.
    pub fn ignore_unused_ttypes() -> (c: Compare)
        ensures
            c.bits == 2,
    {
        Compare { bits: 2 }
    }

    /// Disregard imports.
    pub fn ignore_imports() -> (c: Compare)
        ensures
            c.bits == 4,
    {
        Compare { bits: 4 }
    }

    /// Disregard comments, unused tclasses, and imports.
    pub fn equivalent() -> (c: Compare)
        ensures
            c.bits == 7,
    {
        Compare { bits: 7 }
    }

    /// Whether comments are disregarded.
    pub open spec fn ignores_comments_spec(&self) -> bool {
        self.bits & 1 == 1
    }

    /// Whether tclasses that no table uses are disregarded.
    pub open spec fn ignores_unused_spec(&self) -> bool {
        self.bits & 2 == 2
    }

    /// Whether imports are disregarded.
    pub open spec fn ignores_imports_spec(&self) -> bool {
        self.bits & 4 == 4
    }

    /// Returns whether every flag of `other` is set in this one.
    pub fn contains(&self, other: Compare) -> (b: bool)
        ensures
            b == (self.bits & other.bits == other.bits),
    {
        self.bits & other.bits == other.bits
    }
}

/// What a UXF document is: its custom header text, file comment, value,
/// tclasses (in ttype order), and imports (ttype and import, in the order
/// first imported).
pub struct UxfModel {
    pub custom: Seq<char>,
    pub comment: Seq<char>,
    pub value: ValueModel,
    pub tclasses: Seq<TClassModel>,
    pub imports: Seq<(Seq<char>, Seq<char>)>,
}

/// A UXF document: a custom header text, a file comment, and one value,
/// which is a list, map, or table; with the tclasses that its tables use
/// and the imports that some of them came from.
#[derive(Debug)]
pub struct Uxf {
    custom: String,
    comment: String,
    value: Value,
    pub(crate) tclasses: TClasses,
    pub(crate) imports: IndexMap<String, String>,
}

impl Uxf {
    /// The value is a collection and each imported ttype occurs once.
    #[verifier::type_invariant]
    spec fn well_formed(&self) -> bool {
        &&& (self.value is List || self.value is UxfMap || self.value is Table)
        &&& keys_unique(import_entries(self.imports))
    }
}

impl View for Uxf {
    type V = UxfModel;

    closed spec fn view(&self) -> UxfModel {
        UxfModel {
            custom: self.custom@,
            comment: self.comment@,
            value: self.value@,
            tclasses: self.tclasses@,
            imports: import_entries(self.imports),
        }
    }
}

/// Whether a value model is a list, map, or table.
pub open spec fn is_collection_model(v: ValueModel) -> bool {
    v is List || v is UxfMap || v is Table
}

/// The imports, each once, in the order first imported.
pub open spec fn unique_imports(es: Seq<(Seq<char>, Seq<char>)>) -> Seq<Seq<char>>
    decreases es.len(),
{
    if es.len() == 0 {
        seq![]
    } else {
        let u = unique_imports(es.drop_last());
        if u.contains(es.last().1) {
            u
        } else {
            u.push(es.last().1)
        }
    }
}

/// `!import` and a newline for each import.
pub open spec fn imports_text(files: Seq<Seq<char>>) -> Seq<char>
    decreases files.len(),
{
    if files.len() == 0 {
        seq![]
    } else {
        imports_text(files.drop_last()) + seq!['!'] + files.last() + seq!['\n']
    }
}

/// The definition and a newline for each tclass whose ttype was not
/// imported.
pub open spec fn tclasses_text(ts: Seq<TClassModel>, imported: Seq<Seq<char>>) -> Seq<char>
    decreases ts.len(),
{
    if ts.len() == 0 {
        seq![]
    } else if imported.contains(ts.last().0) {
        tclasses_text(ts.drop_last(), imported)
    } else {
        tclasses_text(ts.drop_last(), imported) + tclass_text(ts.last()) + seq!['\n']
    }
}

/// The header line: `uxf 1`, then a space and the custom text if there is
/// one, then a newline.
pub open spec fn header_text(custom: Seq<char>) -> Seq<char> {
    "uxf 1"@ + (if custom.len() > 0 {
        seq![' '] + custom
    } else {
        seq![]
    }) + seq!['\n']
}

/// The UXF text of a document: the header, the file comment (if any) and a
/// newline, the imports, the tclass definitions that were not imported,
/// then the value and a newline.
pub open spec fn uxf_text(u: UxfModel) -> Seq<char> {
    header_text(u.custom) + (if u.comment.len() > 0 {
        comment_text(u.comment) + seq!['\n']
    } else {
        seq![]
    }) + imports_text(unique_imports(u.imports)) + tclasses_text(u.tclasses, entry_keys(u.imports))
        + value_text(u.value) + seq!['\n']
}

/// Writing a document and reading it back keeps its custom text: the text
/// that `Uxf::to_string` writes (`uxf_text`) starts with a header line that
/// reads as version 1 with the document's custom text, so `parse` and
/// `parse_options` give that custom text back whenever they succeed on it.
/// This holds for custom texts without a newline and without whitespace at
/// either end (the header line cannot keep those).
pub proof fn law_custom_survives_writing(m: UxfModel)
    requires
        !m.custom.contains('\n'),
        trimmed(m.custom) == m.custom,
    ensures
        header_error(uxf_text(m)) is None,
        match first_newline(uxf_text(m)) {
            Some(nl) => header_of(uxf_text(m).take(nl)) == Ok::<(u16, Seq<char>), u16>((1u16, m.custom)),
            None => false,
        },
        first_newline(uxf_text(m)) == Some(header_text(m.custom).len() - 1),
{
    reveal_strlit("uxf 1");
    let line = "uxf 1"@ + (if m.custom.len() > 0 {
        seq![' '] + m.custom
    } else {
        seq![]
    });
    let text = uxf_text(m);
    assert(header_text(m.custom) =~= line + seq!['\n']);
    let n = line.len() as int;
    assert(text[n] == '\n');
    assert(text.take(n) =~= line);
    assert(!line.contains('\n')) by {
        if line.contains('\n') {
            let i = choose|i: int| 0 <= i < line.len() && line[i] == '\n';
            if i >= 5 {
                assert(m.custom[i - 6] == '\n');
            }
        }
    }
    lemma_first_newline_at(text, n);
    lemma_header_of_written(m.custom);
}

/// What follows the header line and file comment in `uxf_text`.
pub open spec fn body_text(u: UxfModel) -> Seq<char> {
    imports_text(unique_imports(u.imports)) + tclasses_text(u.tclasses, entry_keys(u.imports))
        + value_text(u.value) + seq!['\n']
}

/// A char that can start the body: `!` (an import), `=` (a tclass), or the
/// opening bracket of a collection.
pub open spec fn body_start(c: char) -> bool {
    c == '!' || c == '=' || c == '[' || c == '{' || c == '('
}

proof fn lemma_imports_text_start(files: Seq<Seq<char>>)
    ensures
        imports_text(files).len() > 0 ==> imports_text(files)[0] == '!',
    decreases files.len(),
{
    if files.len() > 0 {
        lemma_imports_text_start(files.drop_last());
    }
}

proof fn lemma_tclasses_text_start(ts: Seq<TClassModel>, imported: Seq<Seq<char>>)
    ensures
        tclasses_text(ts, imported).len() > 0 ==> tclasses_text(ts, imported)[0] == '=',
    decreases ts.len(),
{
    if ts.len() > 0 {
        lemma_tclasses_text_start(ts.drop_last(), imported);
    }
}

/// The body of a document whose value is a collection is not empty and
/// starts with a char that the lexer neither skips nor reads as a comment
/// or a join.
proof fn lemma_body_start(u: UxfModel)
    requires
        is_collection_model(u.value),
    ensures
        body_text(u).len() > 0,
        body_start(body_text(u)[0]),
{
    let a = imports_text(unique_imports(u.imports));
    let b = tclasses_text(u.tclasses, entry_keys(u.imports));
    let c = value_text(u.value);
    lemma_imports_text_start(unique_imports(u.imports));
    lemma_tclasses_text_start(u.tclasses, entry_keys(u.imports));
    assert(c.len() > 0 && (c[0] == '[' || c[0] == '{' || c[0] == '('));
    assert(body_text(u) =~= a + (b + (c + seq!['\n'])));
}

/// Where every char of `text` from `i` up to `j` differs from `c`, and the
/// one at `j` is `c`, the first `c` from `i` on is at `j`.
proof fn lemma_index_from_at(text: Seq<char>, i: int, j: int, c: char)
    requires
        0 <= i <= j < text.len(),
        text[j] == c,
        forall|k: int| i <= k < j ==> text[k] != c,
    ensures
        index_from(text, i, c) == j,
    decreases j - i,
{
    if i < j {
        lemma_index_from_at(text, i + 1, j, c);
    }
}

/// Writing a document and reading it back keeps its file comment: in the
/// text that `Uxf::to_string` writes, the lexer finds the document's
/// comment as the file comment when it is not empty, and no file comment
/// otherwise, and no `&` joins anything to it; so `parse` and
/// `parse_options` give the comment back whenever they succeed on it.
pub proof fn law_comment_survives_writing(m: UxfModel)
    requires
        !m.custom.contains('\n'),
        is_collection_model(m.value),
    ensures
        file_comment_alone(uxf_text(m)),
        file_comment(uxf_text(m)) == (if m.comment.len() > 0 {
            Some(m.comment)
        } else {
            None::<Seq<char>>
        }),
{
    reveal_strlit("uxf 1");
    let line = "uxf 1"@ + (if m.custom.len() > 0 {
        seq![' '] + m.custom
    } else {
        seq![]
    });
    let text = uxf_text(m);
    let cm = if m.comment.len() > 0 {
        comment_text(m.comment) + seq!['\n']
    } else {
        seq![]
    };
    let body = body_text(m);
    assert(header_text(m.custom) =~= line + seq!['\n']);
    assert(text =~= line + seq!['\n'] + cm + body);
    let n = line.len() as int;
    assert(text[n] == '\n');
    assert(text.take(n) =~= line);
    assert(!line.contains('\n')) by {
        if line.contains('\n') {
            let i = choose|i: int| 0 <= i < line.len() && line[i] == '\n';
            if i >= 5 {
                assert(m.custom[i - 6] == '\n');
            }
        }
    }
    lemma_first_newline_at(text, n);
    lemma_body_start(m);
    let p = n + 1;
    assert(ws_end(text, p) == p) by {
        assert(!lexer_ws(text[p]));
    }
    assert(ws_end(text, n) == ws_end(text, p));
    assert(after_header(text) == p);
    if m.comment.len() > 0 {
        let e = escaped(m.comment);
        let q = p + 2 + e.len();
        assert(cm =~= seq!['#', '<'] + e + seq!['>', '\n']);
        assert(text[p] == '#' && text[p + 1] == '<');
        law_escaped_has_no_angle_brackets(m.comment);
        assert forall|k: int| p + 2 <= k < q implies text[k] != '>' by {
            assert(text[k] == e[k - p - 2]);
        }
        assert(text[q] == '>');
        lemma_index_from_at(text, p + 2, q, '>');
        assert(text.subrange(p + 2, q) =~= e);
        law_unescape_escape(m.comment);
        assert(text[q + 1] == '\n');
        assert(text[q + 2] == body[0]);
        assert(ws_end(text, q + 2) == q + 2) by {
            assert(!lexer_ws(text[q + 2]));
        }
        assert(ws_end(text, q + 1) == ws_end(text, q + 2));
    } else {
        assert(text[p] == body[0]);
    }
}

/// Whether every table in the document's value has a ttype among the
/// document's tclasses.
pub open spec fn tables_defined(u: UxfModel) -> bool {
    forall|k: int|
        0 <= k < tclasses_in(u.value).len() ==> ttypes_of(u.tclasses).contains(#[trigger] tclasses_in(u.value)[k].0)
}

/// `imports_text` read from the front: the first import line, then the
/// rest.
proof fn lemma_imports_text_front(files: Seq<Seq<char>>)
    requires
        files.len() > 0,
    ensures
        imports_text(files) == seq!['!'] + files[0] + seq!['\n'] + imports_text(files.skip(1)),
    decreases files.len(),
{
    if files.len() == 1 {
        assert(files.skip(1) =~= Seq::<Seq<char>>::empty());
        assert(files.drop_last() =~= Seq::<Seq<char>>::empty());
        assert(imports_text(files.drop_last()) == Seq::<char>::empty());
        assert(files.last() == files[0]);
        assert(imports_text(files) =~= seq!['!'] + files[0] + seq!['\n']);
    } else {
        let d = files.drop_last();
        lemma_imports_text_front(d);
        assert(d.skip(1) =~= files.skip(1).drop_last());
        assert(files.skip(1).last() == files.last());
        assert(d[0] == files[0]);
        let head = seq!['!'] + files[0] + seq!['\n'];
        let tail = seq!['!'] + files.last() + seq!['\n'];
        assert(imports_text(files) == imports_text(d) + tail);
        assert(imports_text(files.skip(1)) == imports_text(d.skip(1)) + tail);
        assert(imports_text(files) =~= head + (imports_text(d.skip(1)) + tail));
    }
}

/// The import lines that `imports_text` writes are read back, name by
/// name, where nothing but skipped chars comes before them and a char
/// that neither starts an import nor is skipped comes after them.
proof fn lemma_imports_from_written(t: Seq<char>, a: int, a2: int, files: Seq<Seq<char>>)
    requires
        0 <= a <= a2,
        ws_end(t, a) == ws_end(t, a2),
        a2 + imports_text(files).len() < t.len(),
        t.subrange(a2, a2 + imports_text(files).len()) == imports_text(files),
        forall|i: int| 0 <= i < files.len() ==> !(#[trigger] files[i]).contains('\n') && trimmed(files[i]) == files[i],
        !lexer_ws(t[a2 + imports_text(files).len()]),
        t[a2 + imports_text(files).len()] != '!',
    ensures
        imports_from(t, a) == files,
        ws_end(t, imports_end(t, a)) == a2 + imports_text(files).len(),
    decreases files.len(),
{
    let b = a2 + imports_text(files).len();
    if files.len() == 0 {
        assert(ws_end(t, a2) == a2);
        assert(!import_line_at(t, a));
        assert(imports_from(t, a) =~= files);
    } else {
        lemma_imports_text_front(files);
        let f0 = files[0];
        let rest = imports_text(files.skip(1));
        let w = imports_text(files);
        assert(w == seq!['!'] + f0 + seq!['\n'] + rest);
        assert(t[a2] == w[0]);
        assert(t[a2] == '!');
        assert(ws_end(t, a2) == a2);
        let e = a2 + 1 + f0.len();
        assert(!f0.contains('\n'));
        assert forall|k: int| a2 + 1 <= k < e implies t[k] != '\n' by {
            assert(t[k] == w[k - a2]);
            assert(w[k - a2] == f0[k - a2 - 1]);
        }
        assert(t[e] == w[e - a2]);
        assert(t[e] == '\n');
        lemma_index_from_at(t, a2 + 1, e, '\n');
        assert forall|k: int| 0 <= k < f0.len() implies t[a2 + 1 + k] == f0[k] by {
            assert(t[a2 + 1 + k] == w[1 + k]);
        }
        assert(t.subrange(a2 + 1, e) =~= f0);
        assert(import_line_at(t, a));
        assert(ws_end(t, e) == ws_end(t, e + 1));
        assert forall|k: int| 0 <= k < rest.len() implies t[e + 1 + k] == rest[k] by {
            assert(t[e + 1 + k] == w[e + 1 + k - a2]);
        }
        assert(t.subrange(e + 1, e + 1 + rest.len()) =~= rest);
        assert forall|i: int| 0 <= i < files.skip(1).len() implies !(#[trigger] files.skip(1)[i]).contains('\n')
            && trimmed(files.skip(1)[i]) == files.skip(1)[i] by {
            assert(files.skip(1)[i] == files[i + 1]);
        }
        lemma_imports_from_written(t, e, e + 1, files.skip(1));
        assert(imports_from(t, a) == seq![f0] + imports_from(t, e));
        assert(seq![f0] + files.skip(1) =~= files);
    }
}

/// Where written text puts the imports: the text from `imports_start`
/// skips to the imports text (past the newline that ends the file comment,
/// if there is one), and a body char follows it.
#[verifier::rlimit(40)]
proof fn lemma_written_layout(m: UxfModel) -> (a2: int)
    requires
        !m.custom.contains('\n'),
        is_collection_model(m.value),
    ensures
        0 <= imports_start(uxf_text(m)) <= a2,
        ws_end(uxf_text(m), imports_start(uxf_text(m))) == ws_end(uxf_text(m), a2),
        a2 + imports_text(unique_imports(m.imports)).len() < uxf_text(m).len(),
        uxf_text(m).subrange(a2, a2 + imports_text(unique_imports(m.imports)).len()) == imports_text(
            unique_imports(m.imports),
        ),
        ({
            let c = uxf_text(m)[a2 + imports_text(unique_imports(m.imports)).len()];
            c == '=' || c == '[' || c == '{' || c == '('
        }),
        a2 == header_text(m.custom).len() + (if m.comment.len() > 0 {
            comment_text(m.comment).len() + 1int
        } else {
            0int
        }),
        m.comment.len() == 0 ==> uxf_text(m)[after_header(uxf_text(m))] != '#' && after_header(uxf_text(m))
            < uxf_text(m).len(),
{
    reveal_strlit("uxf 1");
    let line = "uxf 1"@ + (if m.custom.len() > 0 {
        seq![' '] + m.custom
    } else {
        seq![]
    });
    let text = uxf_text(m);
    let cm = if m.comment.len() > 0 {
        comment_text(m.comment) + seq!['\n']
    } else {
        seq![]
    };
    let imp = imports_text(unique_imports(m.imports));
    let rest = tclasses_text(m.tclasses, entry_keys(m.imports)) + value_text(m.value) + seq!['\n'];
    assert(header_text(m.custom) =~= line + seq!['\n']);
    assert(text =~= line + seq!['\n'] + cm + imp + rest);
    let n = line.len() as int;
    assert(text[n] == '\n');
    assert(text.take(n) =~= line);
    assert(!line.contains('\n')) by {
        if line.contains('\n') {
            let i = choose|i: int| 0 <= i < line.len() && line[i] == '\n';
            if i >= 5 {
                assert(m.custom[i - 6] == '\n');
            }
        }
    }
    lemma_first_newline_at(text, n);
    lemma_tclasses_text_start(m.tclasses, entry_keys(m.imports));
    let c = value_text(m.value);
    assert(c.len() > 0 && (c[0] == '[' || c[0] == '{' || c[0] == '('));
    assert(rest.len() > 0 && (rest[0] == '=' || rest[0] == '[' || rest[0] == '{' || rest[0] == '('));
    let a2 = n + 1 + cm.len();
    assert(text[a2 + imp.len()] == rest[0]);
    assert(text.subrange(a2, a2 + imp.len()) =~= imp);
    lemma_body_start(m);
    let body = body_text(m);
    assert(body =~= imp + rest);
    let p = n + 1;
    assert(ws_end(text, p) == p) by {
        assert(!lexer_ws(text[p]));
    }
    assert(ws_end(text, n) == ws_end(text, p));
    assert(after_header(text) == p);
    if m.comment.len() > 0 {
        let e = escaped(m.comment);
        let q = p + 2 + e.len();
        assert(cm =~= seq!['#', '<'] + e + seq!['>', '\n']);
        assert(text[p] == '#' && text[p + 1] == '<');
        law_escaped_has_no_angle_brackets(m.comment);
        assert forall|k: int| p + 2 <= k < q implies text[k] != '>' by {
            assert(text[k] == e[k - p - 2]);
        }
        assert(text[q] == '>');
        lemma_index_from_at(text, p + 2, q, '>');
        assert(imports_start(text) == q + 1);
        assert(text[q + 1] == '\n');
        assert(a2 == q + 2);
        assert(ws_end(text, q + 1) == ws_end(text, q + 2));
    } else {
        assert(text[p] == body[0]);
        assert(imports_start(text) == p);
    }
    a2
}

/// Writing a document and reading back its imports gives its imports:
/// in the text that `Uxf::to_string` writes, the import lines after the
/// header and file comment name the document's imports, each once, in the
/// order first imported, and nothing joins to the last of them; so
/// `import_names` gives them back whenever it succeeds on that text. This
/// holds for import names that hold no newline and no whitespace at either
/// end (an import line cannot keep those).
pub proof fn law_imports_survive_writing(m: UxfModel)
    requires
        !m.custom.contains('\n'),
        is_collection_model(m.value),
        forall|i: int|
            0 <= i < unique_imports(m.imports).len() ==> !(#[trigger] unique_imports(m.imports)[i]).contains('\n')
                && trimmed(unique_imports(m.imports)[i]) == unique_imports(m.imports)[i],
    ensures
        file_comment_alone(uxf_text(m)),
        imports_alone(uxf_text(m)),
        imports_from(uxf_text(m), imports_start(uxf_text(m))) == unique_imports(m.imports),
{
    law_comment_survives_writing(m);
    let text = uxf_text(m);
    let a2 = lemma_written_layout(m);
    let files = unique_imports(m.imports);
    let b = a2 + imports_text(files).len();
    lemma_imports_from_written(text, imports_start(text), a2, files);
    assert(ws_end(text, b) == b) by {
        assert(!lexer_ws(text[b]));
    }
}

/// The text of the error for setting a value that is not a collection.
pub open spec fn not_collection_message(typename: Seq<char>) -> Seq<char> {
    "Uxf value must be a List, Map, or Table, got "@ + typename
}

/// Whether `ts` (in ttype order) holds, for each ttype among the given
/// tclasses, the last of them with that ttype, and nothing else.
pub open spec fn last_of_each(ts: Seq<TClassModel>, found: Seq<TClassModel>) -> bool {
    &&& ttypes_sorted(ts)
    &&& forall|i: int| 0 <= i < found.len() ==> #[trigger] ttypes_of(ts).contains(found[i].0)
    &&& forall|j: int| 0 <= j < ts.len() ==> #[trigger] last_of_its_ttype(found, ts[j])
}

/// Whether `t` is among the given tclasses, with no later one of its
/// ttype.
pub open spec fn last_of_its_ttype(found: Seq<TClassModel>, t: TClassModel) -> bool {
    exists|i: int|
        0 <= i < found.len() && #[trigger] found[i] == t && forall|k: int|
            i < k < found.len() ==> #[trigger] found[k].0 != t.0
}

/// Where `after` is `before` with `t` put in (replacing the tclass of its
/// ttype, or inserted), each other tclass of `after` was in `before`.
proof fn lemma_old_index(before: Seq<TClassModel>, after: Seq<TClassModel>, t: TClassModel, j: int) -> (jj:
    int)
    requires
        ttypes_sorted(before),
        0 <= j < after.len(),
        after[j] != t,
        ttypes_of(before).contains(t.0) ==> exists|q: int|
            0 <= q < before.len() && before[q].0 == t.0 && after == before.update(q, t),
        !ttypes_of(before).contains(t.0) ==> exists|p: int|
            0 <= p <= before.len() && after == before.insert(p, t),
    ensures
        0 <= jj < before.len(),
        before[jj] == after[j],
        before[jj].0 != t.0,
{
    if ttypes_of(before).contains(t.0) {
        let q = choose|q: int| 0 <= q < before.len() && before[q].0 == t.0 && after == before.update(q, t);
        assert(j != q);
        if before[j].0 == t.0 {
            crate::key::lemma_key_lt_irreflexive(crate::key::KeyModel::Str(t.0));
        }
        j
    } else {
        let p = choose|p: int| 0 <= p <= before.len() && after == before.insert(p, t);
        let jj = if j < p {
            j
        } else {
            j - 1
        };
        assert(ttypes_of(before)[jj] == before[jj].0);
        jj
    }
}

impl Uxf {
    /// Returns a new document with the given custom text and comment, and
    /// an empty list as its value.
    pub fn new(custom: &str, comment: &str) -> (u: Uxf)
        ensures
            u@.custom == custom@,
            u@.comment == comment@,
            u@.value == ValueModel::List(ListModel { vtype: seq![], comment: seq![], values: seq![] }),
            u@.tclasses.len() == 0,
            u@.imports.len() == 0,
    {
        proof {
            broadcast use crate::value::lemma_value_view;
        }
        Uxf {
            custom: String::from_str(custom),
            comment: String::from_str(comment),
            value: Value::List(List::default()),
            tclasses: TClasses::new(),
            imports: index_map_new(),
        }
    }

    /// Returns the custom header text, which may be empty.
    pub fn custom(&self) -> (r: &str)
        ensures
            r@ == self@.custom,
    {
        self.custom.as_str()
    }

    /// Sets the custom header text.
    pub fn set_custom(&mut self, custom: &str)
        ensures
            final(self)@ == (UxfModel { custom: custom@, ..old(self)@ }),
    {
        proof {
            use_type_invariant(&*self);
        }
        self.custom = String::from_str(custom);
    }

    /// Returns the file comment, which may be empty.
    pub fn comment(&self) -> (r: &str)
        ensures
            r@ == self@.comment,
    {
        self.comment.as_str()
    }

    /// Sets the file comment.
    pub fn set_comment(&mut self, comment: &str)
        ensures
            final(self)@ == (UxfModel { comment: comment@, ..old(self)@ }),
    {
        proof {
            use_type_invariant(&*self);
        }
        self.comment = String::from_str(comment);
    }

    /// Returns the value: a list, map, or table.
    pub fn value(&self) -> (r: &Value)
        ensures
            r@ == self@.value,
            is_collection_model(r@),
    {
        proof {
            use_type_invariant(self);
            broadcast use crate::value::lemma_value_view;
        }
        &self.value
    }

    /// Sets the value, or returns an error (100) if it is not a list, map,
    /// or table (the document is then unchanged). The imports are dropped
    /// and the tclasses become those of the value's tables (for each
    /// ttype, the last one met in walk order).
    pub fn set_value(&mut self, value: Value) -> (r: Result<(), UxfError>)
        ensures
            is_collection_model(value@) ==> r is Ok && final(self)@.custom == old(self)@.custom
                && final(self)@.comment == old(self)@.comment && final(self)@.value == value@
                && final(self)@.imports.len() == 0 && last_of_each(
                final(self)@.tclasses,
                tclasses_in(value@),
            ),
            !is_collection_model(value@) ==> final(self)@ == old(self)@ && (r matches Err(e) && e.code
                == 100 && e.filename@ == "-"@ && e.lino == 0 && e.message@ == not_collection_message(
                crate::value::typename_of(value@),
            )),
    {
        proof {
            broadcast use crate::value::lemma_value_view;
            use_type_invariant(&*self);
        }
        if !value.is_collection() {
            let message = String::from_str("Uxf value must be a List, Map, or Table, got ").concat(
                value.typename(),
            );
            return Err(UxfError::new(100, message, "-", 0));
        }
        let found = value.tclasses();
        let mut tclasses = TClasses::new();
        let mut i: usize = 0;
        while i < found.len()
            invariant
                i <= found@.len(),
                last_of_each(tclasses@, tclass_models(found@.take(i as int))),
            decreases found@.len() - i,
        {
            let ghost before = tclasses@;
            tclasses.insert(found[i].clone_tclass());
            proof {
                let fs = tclass_models(found@.take(i + 1));
                let prev = tclass_models(found@.take(i as int));
                let t = found@[i as int]@;
                assert(fs =~= prev.push(t));
                assert forall|a: int| 0 <= a < fs.len() implies #[trigger] ttypes_of(tclasses@).contains(fs[a].0) by {
                    if a < i {
                        assert(fs[a] == prev[a]);
                        assert(ttypes_of(before).contains(prev[a].0));
                        let j = choose|j: int| 0 <= j < ttypes_of(before).len() && ttypes_of(before)[j] == prev[a].0;
                        if ttypes_of(before).contains(t.0) {
                            let q = choose|q: int| 0 <= q < before.len() && before[q].0 == t.0 && tclasses@ == before.update(q, t);
                            assert(ttypes_of(tclasses@)[j] == prev[a].0);
                        } else {
                            let p = choose|p: int| 0 <= p <= before.len() && tclasses@ == before.insert(p, t);
                            if j < p {
                                assert(ttypes_of(tclasses@)[j] == prev[a].0);
                            } else {
                                assert(ttypes_of(tclasses@)[j + 1] == prev[a].0);
                            }
                        }
                    } else {
                        if ttypes_of(before).contains(t.0) {
                            let q = choose|q: int| 0 <= q < before.len() && before[q].0 == t.0 && tclasses@ == before.update(q, t);
                            assert(ttypes_of(tclasses@)[q] == t.0);
                        } else {
                            let p = choose|p: int| 0 <= p <= before.len() && tclasses@ == before.insert(p, t);
                            assert(ttypes_of(tclasses@)[p] == t.0);
                        }
                    }
                }
                assert forall|j: int| 0 <= j < tclasses@.len() implies #[trigger] last_of_its_ttype(fs, tclasses@[j]) by {
                    if tclasses@[j] == t {
                        assert(fs[i as int] == t);
                    } else {
                        let jj = lemma_old_index(before, tclasses@, t, j);
                        assert(last_of_its_ttype(prev, before[jj]));
                        let a = choose|a: int| 0 <= a < prev.len() && #[trigger] prev[a] == before[jj]
                            && forall|k: int| a < k < prev.len() ==> #[trigger] prev[k].0 != before[jj].0;
                        assert(fs[a] == prev[a]);
                        assert forall|k: int| a < k < fs.len() implies #[trigger] fs[k].0 != fs[a].0 by {
                            if k < i {
                                assert(fs[k] == prev[k]);
                            } else {
                                assert(fs[k] == t);
                            }
                        }
                    }
                }
            }
            i += 1;
        }
        assert(found@.take(found@.len() as int) =~= found@);
        self.tclasses = tclasses;
        let mut imports = index_map_new();
        std::mem::swap(&mut imports, &mut self.imports);
        self.value = value;
        Ok(())
    }

    /// Replaces the tclasses and imports (as a parse ends).
    pub(crate) fn install(&mut self, tclasses: TClasses, imports: IndexMap<String, String>)
        requires
            keys_unique(import_entries(imports)),
        ensures
            final(self)@ == (UxfModel { tclasses: tclasses@, imports: import_entries(imports), ..old(self)@ }),
    {
        proof {
            use_type_invariant(&*self);
        }
        self.tclasses = tclasses;
        self.imports = imports;
    }

    /// Returns the tclass of the given ttype, if there is one.
    pub fn tclass(&self, ttype: &str) -> (r: Option<&TClass>)
        ensures
            r is Some == ttypes_of(self@.tclasses).contains(ttype@),
            r matches Some(t) ==> t@.0 == ttype@ && self@.tclasses.contains(t@),
    {
        self.tclasses.get(ttype)
    }

    /// Returns the UXF text of this document, with the value in compact
    /// form: the header, the file comment, each import once, the
    /// definitions of the tclasses that were not imported (in ttype order),
    /// and the value, each followed by a newline.
    pub fn to_string(&self) -> (s: String)
        ensures
            s@ == uxf_text(self@),
    {
        proof {
            use_type_invariant(self);
        }
        let mut out: Vec<char> = Vec::new();
        push_str(&mut out, "uxf ");
        push_nat(&mut out, 1);
        if !self.custom.as_str().is_empty() {
            out.push(' ');
            push_str(&mut out, self.custom.as_str());
        }
        out.push('\n');
        proof {
            reveal_strlit("uxf ");
            reveal_strlit("uxf 1");
            assert(crate::text::nat_text(1) =~= seq!['1']) by {
                reveal_with_fuel(crate::text::nat_text, 2);
            }
            assert(out@ =~= header_text(self@.custom));
        }
        if !self.comment.as_str().is_empty() {
            push_comment_text(&mut out, self.comment.as_str());
            out.push('\n');
        }
        let ghost after_comment = out@;
        let ghost es = import_entries(self.imports);
        let n = index_map_len(&self.imports);
        let mut seen: Vec<String> = Vec::new();
        let mut i: usize = 0;
        assert(es.take(0) =~= Seq::<(Seq<char>, Seq<char>)>::empty());
        while i < n
            invariant
                i <= n,
                n == es.len(),
                es == import_entries(self.imports),
                seen@.len() == unique_imports(es.take(i as int)).len(),
                forall|k: int| 0 <= k < seen@.len() ==> #[trigger] seen@[k]@ == unique_imports(es.take(i as int))[k],
                out@ == after_comment + imports_text(unique_imports(es.take(i as int))),
            decreases n - i,
        {
            let file = index_map_value_at(&self.imports, i);
            let ghost u = unique_imports(es.take(i as int));
            let mut found = false;
            let mut k: usize = 0;
            while k < seen.len()
                invariant
                    k <= seen@.len(),
                    seen@.len() == u.len(),
                    forall|q: int| 0 <= q < seen@.len() ==> #[trigger] seen@[q]@ == u[q],
                    found == (exists|q: int| 0 <= q < k && u[q] == file@),
                decreases seen@.len() - k,
            {
                if seen[k].eq(file) {
                    found = true;
                }
                k += 1;
            }
            proof {
                assert(es.take(i + 1).drop_last() =~= es.take(i as int));
                assert(es.take(i + 1).last() == es[i as int]);
                if found {
                    let q = choose|q: int| 0 <= q < k && u[q] == file@;
                    assert(u.contains(file@));
                } else {
                    assert(!u.contains(file@));
                }
            }
            if !found {
                out.push('!');
                push_str(&mut out, file.as_str());
                out.push('\n');
                seen.push(file.clone());
                proof {
                    assert(unique_imports(es.take(i + 1)) == u.push(file@));
                    assert(u.push(file@).drop_last() =~= u);
                    assert(out@ =~= after_comment + imports_text(unique_imports(es.take(i + 1))));
                }
            }
            i += 1;
        }
        assert(es.take(n as int) =~= es);
        let ghost after_imports = out@;
        let ts = self.tclasses.items();
        let ghost tm = self@.tclasses;
        let ghost keys = entry_keys(es);
        let mut j: usize = 0;
        assert(tm.take(0) =~= Seq::<TClassModel>::empty());
        while j < ts.len()
            invariant
                j <= ts@.len(),
                tm == self@.tclasses,
                tm == tclass_models(ts@),
                keys == entry_keys(import_entries(self.imports)),
                out@ == after_imports + tclasses_text(tm.take(j as int), keys),
            decreases ts@.len() - j,
        {
            proof {
                assert(tm.take(j + 1).drop_last() =~= tm.take(j as int));
                assert(tm.take(j + 1).last() == tm[j as int]);
                assert(tm[j as int] == ts@[j as int]@);
            }
            if !index_map_contains_key(&self.imports, ts[j].ttype()) {
                ts[j].push_text(&mut out);
                out.push('\n');
            }
            j += 1;
            assert(out@ =~= after_imports + tclasses_text(tm.take(j as int), keys));
        }
        assert(tm.take(ts@.len() as int) =~= tm);
        push_value_text(&mut out, &self.value);
        out.push('\n');
        assert(out@ =~= uxf_text(self@));
        str_for_chars(out.as_slice())
    }

    /// Returns `true` if this document and `other` are the same, where
    /// `compare` may say to disregard comments, tclasses, or imports: the
    /// custom texts must be equal; the file comments equal (unless
    /// disregarded); the imports the same entries in any order (unless
    /// disregarded); the tclasses the same ttypes and fields (unless
    /// disregarded); and the values the same (see `value_alike`; comments
    /// count unless disregarded).
    pub fn is_equivalent(&self, other: &Uxf, compare: Compare) -> (b: bool)
        ensures
            b == uxf_equivalent(self@, other@, compare),
    {
        if !self.custom.eq(&other.custom) {
            return false;
        }
        if compare.bits & 1 != 1 && !self.comment.eq(&other.comment) {
            return false;
        }
        if compare.bits & 4 != 4 && !same_entries(&self.imports, &other.imports) {
            return false;
        }
        if compare.bits & 2 != 2 && !same_tclasses(&self.tclasses, &other.tclasses) {
            return false;
        }
        crate::value::same_value_with(&self.value, &other.value, compare.bits & 1 == 1)
    }
}

/// Whether two entry sequences hold the same entries, in any order.
pub open spec fn entries_same(a: Seq<(Seq<char>, Seq<char>)>, b: Seq<(Seq<char>, Seq<char>)>) -> bool {
    a.len() == b.len() && forall|i: int| 0 <= i < a.len() ==> #[trigger] b.contains(a[i])
}

/// Whether two tclass sequences have the same ttypes and fields, in turn.
pub open spec fn tclasses_same(a: Seq<TClassModel>, b: Seq<TClassModel>) -> bool {
    a.len() == b.len() && forall|i: int| #![trigger a[i]] 0 <= i < a.len() ==> a[i].0 == b[i].0 && a[i].1 == b[i].1
}

/// Whether two documents are the same as far as `compare` asks.
pub open spec fn uxf_equivalent(a: UxfModel, b: UxfModel, compare: Compare) -> bool {
    &&& a.custom == b.custom
    &&& (compare.ignores_comments_spec() || a.comment == b.comment)
    &&& (compare.ignores_imports_spec() || entries_same(a.imports, b.imports))
    &&& (compare.ignores_unused_spec() || tclasses_same(a.tclasses, b.tclasses))
    &&& crate::value::value_alike(a.value, b.value, compare.ignores_comments_spec())
}

/// Every document is equivalent to itself, whatever is ignored; and two
/// documents that compare equal exactly (ignoring nothing) are equivalent
/// whatever is ignored.
pub proof fn law_equivalent_reflexive(a: UxfModel, b: UxfModel, compare: Compare)
    ensures
        uxf_equivalent(a, a, compare),
        uxf_equivalent(a, b, Compare { bits: 0 }) ==> uxf_equivalent(a, b, compare),
{
    crate::value::law_value_alike(a.value, a.value, compare.ignores_comments_spec());
    crate::value::law_value_alike(a.value, b.value, compare.ignores_comments_spec());
    assert((0u8 & 1u8) == 0u8 && (0u8 & 2u8) == 0u8 && (0u8 & 4u8) == 0u8) by (bit_vector);
    assert(entries_same(a.imports, a.imports)) by {
        assert forall|i: int| 0 <= i < a.imports.len() implies #[trigger] a.imports.contains(
            a.imports[i],
        ) by {}
    }
}

fn same_entries(a: &IndexMap<String, String>, b: &IndexMap<String, String>) -> (r: bool)
    ensures
        r == entries_same(import_entries(*a), import_entries(*b)),
{
    let ghost (ea, eb) = (import_entries(*a), import_entries(*b));
    let n = index_map_len(a);
    if n != index_map_len(b) {
        return false;
    }
    let mut i: usize = 0;
    while i < n
        invariant
            i <= n,
            n == ea.len(),
            ea.len() == eb.len(),
            ea == import_entries(*a),
            eb == import_entries(*b),
            forall|k: int| 0 <= k < i ==> #[trigger] eb.contains(ea[k]),
        decreases n - i,
    {
        let ka = index_map_key_at(a, i);
        let va = index_map_value_at(a, i);
        let mut found = false;
        let mut j: usize = 0;
        while j < n
            invariant
                j <= n,
                n == eb.len(),
                eb == import_entries(*b),
                found == exists|q: int| 0 <= q < j && eb[q] == (ka@, va@),
            decreases n - j,
        {
            if index_map_key_at(b, j).eq(ka) && index_map_value_at(b, j).eq(va) {
                found = true;
            }
            j += 1;
        }
        if !found {
            assert(!eb.contains(ea[i as int]));
            return false;
        }
        i += 1;
    }
    true
}

fn same_tclasses(a: &TClasses, b: &TClasses) -> (r: bool)
    ensures
        r == tclasses_same(a@, b@),
{
    let ta = a.items();
    let tb = b.items();
    if ta.len() != tb.len() {
        return false;
    }
    let mut i: usize = 0;
    while i < ta.len()
        invariant
            i <= ta@.len(),
            ta@.len() == tb@.len(),
            tclass_models(ta@) == a@,
            tclass_models(tb@) == b@,
            forall|k: int| #![trigger a@[k]] 0 <= k < i ==> a@[k].0 == b@[k].0 && a@[k].1 == b@[k].1,
        decreases ta@.len() - i,
    {
        assert(a@[i as int] == ta@[i as int]@);
        assert(b@[i as int] == tb@[i as int]@);
        if !ta[i].same_as(&tb[i]) {
            return false;
        }
        i += 1;
    }
    true
}

impl Default for Uxf {
    /// A document with no custom text or comment and an empty list.
    fn default() -> (u: Uxf)
        ensures
            u@.custom.len() == 0,
            u@.comment.len() == 0,
            u@.value == ValueModel::List(ListModel { vtype: seq![], comment: seq![], values: seq![] }),
            u@.tclasses.len() == 0,
            u@.imports.len() == 0,
    {
        proof {
            reveal_strlit("");
        }
        Uxf::new("", "")
    }
}

impl PartialEq for Uxf {
    fn eq(&self, other: &Self) -> (r: bool) {
        self.is_equivalent(other, Compare::exact())
    }
}

impl vstd::std_specs::cmp::PartialEqSpecImpl for Uxf {
    open spec fn obeys_eq_spec() -> bool {
        true
    }

    open spec fn eq_spec(&self, other: &Uxf) -> bool {
        uxf_equivalent(self@, other@, Compare { bits: 0 })
    }
}

impl Eq for Uxf {
}


// ---------------------------------------------------------------------
// Walking a document

/// The list that stands for a tclass in a walk over a document: its vtype
/// is the ttype and its comment the tclass comment; it holds one empty list
/// per field, whose vtype is the field's vtype (empty for any) and whose
/// comment is the field's name.
pub open spec fn tclass_list(t: TClassModel) -> ValueModel {
    ValueModel::List(
        ListModel {
            vtype: t.0,
            comment: t.2,
            values: Seq::new(
                t.1.len(),
                |i: int|
                    ValueModel::List(
                        ListModel {
                            vtype: match t.1[i].1 {
                                Some(v) => v,
                                None => seq![],
                            },
                            comment: t.1[i].0,
                            values: seq![],
                        },
                    ),
            ),
        },
    )
}

/// An `Import` step for each imported file.
pub open spec fn imports_trace(files: Seq<Seq<char>>) -> Seq<(Visit, ValueModel)> {
    Seq::new(files.len(), |i: int| (Visit::Import, ValueModel::Str(files[i])))
}

/// A `Ttype` step for each tclass whose ttype was not imported.
pub open spec fn ttypes_trace(ts: Seq<TClassModel>, imported: Seq<Seq<char>>) -> Seq<(Visit, ValueModel)>
    decreases ts.len(),
{
    if ts.len() == 0 {
        seq![]
    } else if imported.contains(ts.last().0) {
        ttypes_trace(ts.drop_last(), imported)
    } else {
        ttypes_trace(ts.drop_last(), imported).push((Visit::Ttype, tclass_list(ts.last())))
    }
}

/// The steps of a walk over a document: `UxfBegin` with the file comment,
/// an `Import` step per imported file (each once), a `Ttype` step per
/// tclass that was not imported, the walk over the value, and `UxfEnd`.
pub open spec fn uxf_trace(u: UxfModel) -> Seq<(Visit, ValueModel)> {
    seq![(Visit::UxfBegin, ValueModel::Str(u.comment))] + imports_trace(unique_imports(u.imports))
        + ttypes_trace(u.tclasses, entry_keys(u.imports)) + visit_trace(u.value) + seq![
        (Visit::UxfEnd, ValueModel::Null),
    ]
}

/// The list that stands for `t` in a walk (see `tclass_list`).
fn tclass_as_list(t: &TClass) -> (v: Value)
    ensures
        v@ == tclass_list(t@),
{
    proof {
        broadcast use crate::value::lemma_value_view;
    }
    let mut lst = List::with_parts(t.ttype(), t.comment());
    let fields = t.fields();
    let empty = String::new();
    let mut i: usize = 0;
    while i < fields.len()
        invariant
            i <= fields@.len(),
            crate::field::field_models(fields@) == t@.1,
            lst@.vtype == t@.0,
            lst@.comment == t@.2,
            lst@.values == tclass_list(t@)->List_0.values.take(i as int),
            empty@ == Seq::<char>::empty(),
        decreases fields@.len() - i,
    {
        let f = &fields[i];
        let vt = match f.vtype() {
            Some(v) => v,
            None => empty.as_str(),
        };
        proof {
            assert(f@ == crate::field::field_models(fields@)[i as int]);
            assert(i < t@.1.len());
            assert(t@.1[i as int] == f@);
            assert(vt@ == match f@.1 {
                Some(v) => v,
                None => Seq::<char>::empty(),
            });
        }
        let fl = List::with_parts(vt, f.name());
        let ghost before = lst@.values;
        let item = Value::List(fl);
        proof {
            crate::value::lemma_value_view(item);
        }
        assert(item@ == tclass_list(t@)->List_0.values[i as int]);
        lst.push(item);
        proof {
            assert(tclass_list(t@)->List_0.values.take(i + 1) =~= before.push(
                tclass_list(t@)->List_0.values[i as int],
            ));
        }
        i += 1;
    }
    assert(tclass_list(t@)->List_0.values.take(i as int) =~= tclass_list(t@)->List_0.values);
    let v = Value::List(lst);
    proof {
        crate::value::lemma_value_view(v);
    }
    v
}

impl Uxf {
    /// Returns the steps of a walk over the file comment, the imports, the
    /// tclasses that were not imported, and every value in this document
    /// (see `uxf_trace`).
    pub fn visit(&self) -> (r: Vec<(Visit, Value)>)
        ensures
            visit_models(r@) == uxf_trace(self@),
    {
        proof {
            broadcast use crate::value::lemma_value_view;
        }
        let mut out: Vec<(Visit, Value)> = Vec::new();
        out.push((Visit::UxfBegin, Value::Str(String::from_str(self.comment.as_str()))));
        let ghost first = seq![(Visit::UxfBegin, ValueModel::Str(self@.comment))];
        assert(visit_models(out@) =~= first);
        let ghost es = import_entries(self.imports);
        let n = index_map_len(&self.imports);
        let mut seen: Vec<String> = Vec::new();
        let mut i: usize = 0;
        assert(es.take(0) =~= Seq::<(Seq<char>, Seq<char>)>::empty());
        assert(imports_trace(seq![]) =~= Seq::<(Visit, ValueModel)>::empty());
        while i < n
            invariant
                i <= n,
                n == es.len(),
                es == import_entries(self.imports),
                first == seq![(Visit::UxfBegin, ValueModel::Str(self@.comment))],
                seen@.len() == unique_imports(es.take(i as int)).len(),
                forall|k: int| 0 <= k < seen@.len() ==> #[trigger] seen@[k]@ == unique_imports(es.take(i as int))[k],
                visit_models(out@) == first + imports_trace(unique_imports(es.take(i as int))),
            decreases n - i,
        {
            let file = index_map_value_at(&self.imports, i);
            let ghost u = unique_imports(es.take(i as int));
            let mut found = false;
            let mut k: usize = 0;
            while k < seen.len()
                invariant
                    k <= seen@.len(),
                    seen@.len() == u.len(),
                    forall|q: int| 0 <= q < seen@.len() ==> #[trigger] seen@[q]@ == u[q],
                    found == (exists|q: int| 0 <= q < k && u[q] == file@),
                decreases seen@.len() - k,
            {
                if seen[k].eq(file) {
                    found = true;
                }
                k += 1;
            }
            proof {
                assert(es.take(i + 1).drop_last() =~= es.take(i as int));
                assert(es.take(i + 1).last() == es[i as int]);
                if found {
                    let q = choose|q: int| 0 <= q < k && u[q] == file@;
                    assert(u.contains(file@));
                } else {
                    assert(!u.contains(file@));
                }
            }
            if !found {
                let ghost before = out@;
                let fc = String::from_str(file.as_str());
                let step = (Visit::Import, Value::Str(fc));
                proof {
                    crate::value::lemma_value_view(step.1);
                }
                assert(step.1@ == ValueModel::Str(file@));
                out.push(step);
                seen.push(file.clone());
                proof {
                    assert(out@ == before.push(step));
                    assert(unique_imports(es.take(i + 1)) == u.push(file@));
                    assert(imports_trace(u.push(file@)) =~= imports_trace(u).push(
                        (Visit::Import, ValueModel::Str(file@)),
                    ));
                    assert(visit_models(out@) =~= visit_models(before).push(
                        (Visit::Import, ValueModel::Str(file@)),
                    ));
                }
            }
            i += 1;
        }
        assert(es.take(n as int) =~= es);
        let ghost after_imports = visit_models(out@);
        let ts = self.tclasses.items();
        let ghost tm = self@.tclasses;
        let ghost keys = entry_keys(es);
        let mut j: usize = 0;
        assert(tm.take(0) =~= Seq::<TClassModel>::empty());
        assert(after_imports + ttypes_trace(tm.take(0), keys) =~= after_imports);
        while j < ts.len()
            invariant
                j <= ts@.len(),
                tm == self@.tclasses,
                tm == tclass_models(ts@),
                keys == entry_keys(import_entries(self.imports)),
                visit_models(out@) == after_imports + ttypes_trace(tm.take(j as int), keys),
            decreases ts@.len() - j,
        {
            proof {
                assert(tm.take(j + 1).drop_last() =~= tm.take(j as int));
                assert(tm.take(j + 1).last() == tm[j as int]);
                assert(tm[j as int] == ts@[j as int]@);
            }
            if !index_map_contains_key(&self.imports, ts[j].ttype()) {
                let ghost before = out@;
                let v = tclass_as_list(&ts[j]);
                out.push((Visit::Ttype, v));
                proof {
                    assert(visit_models(out@) =~= visit_models(before).push((Visit::Ttype, v@)));
                }
            }
            j += 1;
            assert(visit_models(out@) =~= after_imports + ttypes_trace(tm.take(j as int), keys));
        }
        assert(tm.take(ts@.len() as int) =~= tm);
        let ghost before_value = visit_models(out@);
        push_visits(&mut out, &self.value);
        let ghost before_end = out@;
        out.push((Visit::UxfEnd, Value::Null));
        proof {
            assert(visit_models(out@) =~= visit_models(before_end).push((Visit::UxfEnd, ValueModel::Null)));
            assert(visit_models(out@) =~= uxf_trace(self@));
        }
        out
    }
}


// ---------------------------------------------------------------------
// Reading back the text of ints

/// The digit chars are digits, and read back as their values.
proof fn lemma_digit_char(d: int)
    requires
        0 <= d <= 9,
    ensures
        '0' <= crate::text::digit_char(d) <= '9',
        crate::numbers::digit_value(crate::text::digit_char(d)) == d,
{
    reveal_with_fuel(crate::text::digit_char, 1);
}

/// The decimal text of a natural number is a run of digits that reads
/// back as that number.
proof fn lemma_nat_text_reads_back(n: nat)
    requires
        n <= i64::MAX,
    ensures
        digits_only(crate::text::nat_text(n)),
        crate::text::nat_text(n).len() >= 1,
        crate::numbers::i64_scan(crate::text::nat_text(n), false) == Ok::<int, Seq<char>>(n as int),
    decreases n,
{
    let t = crate::text::nat_text(n);
    if n < 10 {
        lemma_digit_char(n as int);
        assert(t.drop_last() =~= Seq::<char>::empty());
        assert(t.last() == crate::text::digit_char(n as int));
        assert(crate::numbers::i64_scan(t.drop_last(), false) == Ok::<int, Seq<char>>(0));
    } else {
        let q = n / 10;
        let r = (n % 10) as int;
        lemma_nat_text_reads_back(q);
        lemma_digit_char(r);
        assert(t.drop_last() =~= crate::text::nat_text(q));
        assert(q * 10 + r == n) by (nonlinear_arith)
            requires
                q == n / 10,
                r == n % 10,
        ;
        assert forall|i: int| 0 <= i < t.len() implies '0' <= #[trigger] t[i] <= '9' by {
            if i < t.len() - 1 {
                assert(t[i] == crate::text::nat_text(q)[i]);
            }
        }
        assert(t.last() == crate::text::digit_char(r));
        assert(crate::numbers::i64_scan(t.drop_last(), false) == Ok::<int, Seq<char>>(q as int));
        assert(crate::numbers::is_digit(t.last()));
        assert(q * 10 + crate::numbers::digit_value(t.last()) == n);
    }
}

/// The decimal text of a natural number is a nonempty run of digits.
proof fn lemma_nat_text_digits(n: nat)
    ensures
        digits_only(crate::text::nat_text(n)),
        crate::text::nat_text(n).len() >= 1,
    decreases n,
{
    let t = crate::text::nat_text(n);
    if n < 10 {
        lemma_digit_char(n as int);
    } else {
        lemma_nat_text_digits(n / 10);
        lemma_digit_char((n % 10) as int);
        assert forall|i: int| 0 <= i < t.len() implies '0' <= #[trigger] t[i] <= '9' by {
            if i < t.len() - 1 {
                assert(t[i] == crate::text::nat_text(n / 10)[i]);
            }
        }
    }
}

/// The decimal text of a natural number read after a `-` gives its
/// negation.
proof fn lemma_nat_text_reads_back_negated(n: nat)
    requires
        n <= 9223372036854775808,
    ensures
        crate::numbers::i64_scan(crate::text::nat_text(n), true) == Ok::<int, Seq<char>>(-(n as int)),
    decreases n,
{
    let t = crate::text::nat_text(n);
    if n < 10 {
        lemma_digit_char(n as int);
        assert(t.drop_last() =~= Seq::<char>::empty());
        assert(t.last() == crate::text::digit_char(n as int));
        assert(crate::numbers::i64_scan(t.drop_last(), true) == Ok::<int, Seq<char>>(0));
    } else {
        let q = n / 10;
        let r = (n % 10) as int;
        lemma_nat_text_reads_back_negated(q);
        lemma_digit_char(r);
        assert(t.drop_last() =~= crate::text::nat_text(q));
        assert(q * 10 + r == n) by (nonlinear_arith)
            requires
                q == n / 10,
                r == n % 10,
        ;
        assert(t.last() == crate::text::digit_char(r));
        assert(crate::numbers::i64_scan(t.drop_last(), true) == Ok::<int, Seq<char>>(-(q as int)));
        assert(crate::numbers::is_digit(t.last()));
        assert(-(q as int) * 10 - crate::numbers::digit_value(t.last()) == -(n as int));
    }
}

/// A run of number chars that ends before a char that is not one ends
/// there.
proof fn lemma_number_end_at(text: Seq<char>, i: int, e: int)
    requires
        0 <= i <= e <= text.len(),
        forall|j: int| i <= j < e ==> number_char(#[trigger] text[j]),
        e == text.len() || !number_char(text[e]),
    ensures
        number_end(text, i) == e,
    decreases e - i,
{
    if i < e {
        lemma_number_end_at(text, i + 1, e);
    }
}

/// `joined_text` read from the front: the first value's text, then (if
/// there are more) the separator and the rest.
proof fn lemma_joined_front(vs: Seq<ValueModel>, sep: char)
    requires
        vs.len() >= 1,
    ensures
        crate::value::joined_text(vs, sep) == if vs.len() == 1 {
            crate::value::value_text(vs[0])
        } else {
            crate::value::value_text(vs[0]) + seq![sep] + crate::value::joined_text(vs.skip(1), sep)
        },
    decreases vs.len(),
{
    if vs.len() > 2 {
        lemma_joined_front(vs.drop_last(), sep);
        assert(vs.drop_last().skip(1) =~= vs.skip(1).drop_last());
        assert(vs.skip(1).last() == vs.last());
        assert(vs.drop_last()[0] == vs[0]);
        let a = crate::value::value_text(vs[0]);
        let b = crate::value::joined_text(vs.skip(1).drop_last(), sep);
        let c = crate::value::value_text(vs.last());
        assert(crate::value::joined_text(vs, sep) == (a + seq![sep] + b) + seq![sep] + c);
        assert(crate::value::joined_text(vs.skip(1), sep) == b + seq![sep] + c);
        assert((a + seq![sep] + b) + seq![sep] + c =~= a + seq![sep] + (b + seq![sep] + c));
    } else if vs.len() == 2 {
        assert(vs.drop_last() =~= seq![vs[0]]);
        assert(vs.skip(1) =~= seq![vs[1]]);
        assert(crate::value::joined_text(vs.skip(1), sep) == crate::value::value_text(vs[1]));
        assert(crate::value::joined_text(vs.drop_last(), sep) == crate::value::value_text(vs[0]));
        assert(vs.last() == vs[1]);
    }
}




// ---------------------------------------------------------------------
// Writing and reading back plain data: nested lists and maps of scalars

/// Whether a value is null, an int, a real whose text reads back as it
/// (see `real_text_ok`), a str, a list with no vtype and no comment whose
/// values are such values, or a map with no ktype, no vtype
/// and no comment whose keys are ints or strs (in order) and whose values
/// are such values.
pub open spec fn plain_value(v: ValueModel) -> bool
    decreases v, 1int,
{
    match v {
        ValueModel::Null => true,
        ValueModel::Int(_) => true,
        ValueModel::Str(_) => true,
        ValueModel::Real(x) => real_text_ok(x),
        ValueModel::List(l) => l.vtype.len() == 0 && l.comment.len() == 0 && plain_values(l.values),
        ValueModel::UxfMap(m) => m.ktype.len() == 0 && m.vtype.len() == 0 && m.comment.len() == 0
            && crate::value::keys_sorted(crate::value::keys_of(m.items)) && plain_items(m.items),
        _ => false,
    }
}

/// Whether every value is a plain value (see `plain_value`).
pub open spec fn plain_values(vs: Seq<ValueModel>) -> bool
    decreases vs, 0int,
{
    vs.len() == 0 || (plain_value(vs[0]) && plain_values(vs.skip(1)))
}

/// Whether a real's text reads back as that real: number chars, with an
/// optional leading `-`, that start with a digit, hold a `.` or an
/// exponent, and have real syntax (and, without a `-`, no `:` or `T` and
/// not two `-`s, which would make a date).
pub open spec fn real_text_ok(x: Seq<char>) -> bool {
    if x.len() > 0 && x[0] == '-' {
        real_digits_ok(x.skip(1))
    } else {
        real_digits_ok(x) && !crate::lexer::number_marks(x).1 && crate::lexer::number_marks(x).2 != 2
    }
}

/// Whether a real's text after any leading `-` is number chars that start
/// with a digit, hold a `.` or an exponent, and have real syntax.
pub open spec fn real_digits_ok(n: Seq<char>) -> bool {
    &&& n.len() > 0 && '0' <= n[0] <= '9'
    &&& forall|j: int| 0 <= j < n.len() ==> number_char(#[trigger] n[j])
    &&& crate::lexer::number_marks(n).0
    &&& crate::numbers::real_syntax(n)
}

/// Whether every item has an int or str key and a plain value (see
/// `plain_value`).
pub open spec fn plain_items(items: Seq<(KeyModel, ValueModel)>) -> bool
    decreases items, 0int,
{
    items.len() == 0 || ((items[0].0 is Int || items[0].0 is Str) && plain_value(items[0].1) && plain_items(
        items.skip(1),
    ))
}

/// The value that an int or str key is (null for other keys).
pub open spec fn key_value(k: KeyModel) -> ValueModel {
    match k {
        KeyModel::Int(i) => ValueModel::Int(i),
        KeyModel::Str(x) => ValueModel::Str(x),
        _ => ValueModel::Null,
    }
}

/// The token (kind and value) of an int or str key.
pub open spec fn key_token(k: KeyModel) -> (crate::token::TokenKind, ValueModel) {
    match k {
        KeyModel::Str(x) => (crate::token::TokenKind::Str, ValueModel::Str(x)),
        _ => (crate::token::TokenKind::Int, key_value(k)),
    }
}

/// The tokens of map items: each key's token, then its value's tokens.
pub open spec fn items_tokens(items: Seq<(KeyModel, ValueModel)>) -> Seq<(crate::token::TokenKind, ValueModel)>
    decreases items, 0int,
{
    if items.len() == 0 {
        seq![]
    } else {
        seq![key_token(items[0].0)] + value_tokens(items[0].1) + items_tokens(items.skip(1))
    }
}

/// The tokens (kind and value) that the text of a plain value reads as.
pub open spec fn value_tokens(v: ValueModel) -> Seq<(crate::token::TokenKind, ValueModel)>
    decreases v, 1int,
{
    match v {
        ValueModel::List(l) => seq![(crate::token::TokenKind::ListBegin, ValueModel::Null)] + values_tokens(l.values)
            + seq![(crate::token::TokenKind::ListEnd, ValueModel::Null)],
        ValueModel::Int(i) => seq![(crate::token::TokenKind::Int, v)],
        ValueModel::Str(_) => seq![(crate::token::TokenKind::Str, v)],
        ValueModel::Real(_) => seq![(crate::token::TokenKind::Real, v)],
        ValueModel::UxfMap(m) => seq![(crate::token::TokenKind::MapBegin, ValueModel::Null)] + items_tokens(m.items)
            + seq![(crate::token::TokenKind::MapEnd, ValueModel::Null)],
        _ => seq![(crate::token::TokenKind::Null, ValueModel::Null)],
    }
}

/// The tokens of the values, in turn.
pub open spec fn values_tokens(vs: Seq<ValueModel>) -> Seq<(crate::token::TokenKind, ValueModel)>
    decreases vs, 0int,
{
    if vs.len() == 0 {
        seq![]
    } else {
        value_tokens(vs[0]) + values_tokens(vs.skip(1))
    }
}

/// The tokens of `pre`, then those that `rest` holds, if it holds some.
pub open spec fn tokens_then(
    pre: Seq<(crate::token::TokenKind, ValueModel)>,
    rest: Option<Seq<(crate::token::TokenKind, ValueModel)>>,
) -> Option<Seq<(crate::token::TokenKind, ValueModel)>> {
    match rest {
        Some(r) => Some(pre + r),
        None => None,
    }
}

/// Lexing the text of a null, an int or a str gives its token, then
/// whatever the text after it gives.
proof fn lemma_plain_tokens_scalar(text: Seq<char>, a: int, v: ValueModel)
    requires
        v is Null || v is Int || v is Str || (v matches ValueModel::Real(x) && real_text_ok(x)),
        0 <= a,
        a + crate::value::value_text(v).len() <= text.len(),
        text.subrange(a, a + crate::value::value_text(v).len()) == crate::value::value_text(v),
        a + crate::value::value_text(v).len() == text.len() || !number_char(
            text[a + crate::value::value_text(v).len()],
        ),
    ensures
        crate::lexer::plain_tokens(text, a) == tokens_then(
            value_tokens(v),
            crate::lexer::plain_tokens(text, a + crate::value::value_text(v).len()),
        ),
{
    let t = crate::value::value_text(v);
    let e = a + t.len();
    assert(forall|j: int| 0 <= j < t.len() ==> text[a + j] == #[trigger] t[j]) by {
        assert forall|j: int| 0 <= j < t.len() implies text[a + j] == #[trigger] t[j] by {
            assert(text.subrange(a, e)[j] == text[a + j]);
        }
    }
    match v {
        ValueModel::Null => {
            assert(t == seq!['?']);
            assert(text[a] == t[0]);
        },
        ValueModel::Int(i) => {
            let neg = i < 0;
            let d = crate::text::nat_text((if neg { -(i as int) } else { i as int }) as nat);
            assert(t == if neg { seq!['-'] + d } else { d });
            lemma_nat_text_digits((if neg { -(i as int) } else { i as int }) as nat);
            if neg {
                lemma_nat_text_reads_back_negated((-(i as int)) as nat);
            } else {
                lemma_nat_text_reads_back(i as nat);
            }
            let s0: int = if neg { a + 1 } else { a };
            assert forall|j: int| s0 <= j < e implies '0' <= #[trigger] text[j] <= '9' by {
                assert(text[j] == t[j - a]);
                assert(t[j - a] == d[j - s0]);
            }
            if neg {
                assert(text[a] == t[0]);
                assert(text[a + 1] == t[1]);
            }
            lemma_number_end_at(text, s0, e);
            assert(text.subrange(s0, e) =~= d) by {
                assert forall|j: int| 0 <= j < d.len() implies text.subrange(s0, e)[j] == d[j] by {
                    assert(text[s0 + j] == t[s0 - a + j]);
                }
            }
            if neg {
                assert(crate::numbers::i64_of(seq!['-'] + d) == crate::numbers::i64_scan(d, true)) by {
                    assert((seq!['-'] + d).skip(1) =~= d);
                }
            } else {
                assert(text[a] == t[0]);
                assert(crate::numbers::i64_of(d) == crate::numbers::i64_scan(d, false));
            }
        },
        ValueModel::Real(x) => {
            assert(t == x);
            let neg = x.len() > 0 && x[0] == '-';
            let s0: int = if neg { a + 1 } else { a };
            let n = if neg { x.skip(1) } else { x };
            assert(real_digits_ok(n));
            assert(e - s0 == n.len());
            assert forall|j: int| s0 <= j < e implies number_char(#[trigger] text[j]) by {
                assert(text[j] == t[j - a]);
                assert(n[j - s0] == x[j - a]);
                assert(number_char(n[j - s0]));
            }
            lemma_number_end_at(text, s0, e);
            assert(text.subrange(s0, e) =~= n) by {
                assert forall|j: int| 0 <= j < n.len() implies text.subrange(s0, e)[j] == n[j] by {
                    assert(text[s0 + j] == t[s0 - a + j]);
                }
            }
            assert(text[a] == t[0]);
            if neg {
                assert(text[a + 1] == t[1]);
                assert(seq!['-'] + n =~= x);
                assert(!digits_only(n)) by {
                    if digits_only(n) {
                        crate::lexer::lemma_digits_marks(n);
                    }
                }
            } else {
                assert(!digits_only(n)) by {
                    if digits_only(n) {
                        crate::lexer::lemma_digits_marks(n);
                    }
                }
            }
        },
        ValueModel::Str(x) => {
            let es = crate::util::escaped(x);
            assert(t == seq!['<'] + es + seq!['>']);
            assert(text[a] == t[0]);
            crate::util::law_escaped_has_no_angle_brackets(x);
            crate::util::law_unescape_escape(x);
            assert forall|k: int| a + 1 <= k < e - 1 implies text[k] != '>' by {
                assert(text[k] == t[k - a]);
                assert(t[k - a] == es[k - a - 1]);
            }
            assert(text[e - 1] == t[t.len() - 1]);
            lemma_index_from_at(text, a + 1, e - 1, '>');
            assert(text.subrange(a + 1, e - 1) =~= es) by {
                assert forall|j: int| 0 <= j < es.len() implies text.subrange(a + 1, e - 1)[j] == es[j] by {
                    assert(text[a + 1 + j] == t[1 + j]);
                }
            }
        },
        _ => {},
    }
}

/// Lexing the text of a plain value gives its tokens, then whatever the
/// text after it gives.
proof fn lemma_plain_tokens_value(text: Seq<char>, a: int, v: ValueModel)
    requires
        plain_value(v),
        0 <= a,
        a + crate::value::value_text(v).len() <= text.len(),
        text.subrange(a, a + crate::value::value_text(v).len()) == crate::value::value_text(v),
        a + crate::value::value_text(v).len() == text.len() || !number_char(
            text[a + crate::value::value_text(v).len()],
        ),
    ensures
        crate::lexer::plain_tokens(text, a) == tokens_then(
            value_tokens(v),
            crate::lexer::plain_tokens(text, a + crate::value::value_text(v).len()),
        ),
    decreases v, 1int,
{
    let t = crate::value::value_text(v);
    let e = a + t.len();
    assert(forall|j: int| 0 <= j < t.len() ==> text[a + j] == #[trigger] t[j]) by {
        assert forall|j: int| 0 <= j < t.len() implies text[a + j] == #[trigger] t[j] by {
            assert(text.subrange(a, e)[j] == text[a + j]);
        }
    }
    match v {
        ValueModel::List(l) => {
            let w = crate::value::joined_text(l.values, '\n');
            assert(crate::value::list_head(l) =~= seq!['[']);
            assert(t == seq!['['] + w + seq![']']);
            assert(text[a] == t[0]);
            assert(text[a + 1 + w.len() as int] == t[1 + w.len() as int]);
            assert(text.subrange(a + 1, a + 1 + w.len()) =~= w) by {
                assert forall|j: int| 0 <= j < w.len() implies text.subrange(a + 1, a + 1 + w.len())[j] == w[j] by {
                    assert(text[a + 1 + j] == t[1 + j]);
                }
            }
            lemma_plain_tokens_values(text, a + 1, l.values);
            let r = crate::lexer::plain_tokens(text, e);
            if r is Some {
                assert(seq![(crate::token::TokenKind::ListBegin, ValueModel::Null)] + (values_tokens(l.values) + (seq![
                    (crate::token::TokenKind::ListEnd, ValueModel::Null),
                ] + r->Some_0)) =~= value_tokens(v) + r->Some_0);
            }
        },
        ValueModel::UxfMap(m) => {
            let w = crate::value::items_text(m.items);
            assert(crate::value::map_head(m) =~= seq!['{']);
            assert(t == seq!['{'] + w + seq!['}']);
            assert(text[a] == t[0]);
            assert(text[a + 1 + w.len() as int] == t[1 + w.len() as int]);
            assert(text.subrange(a + 1, a + 1 + w.len()) =~= w) by {
                assert forall|j: int| 0 <= j < w.len() implies text.subrange(a + 1, a + 1 + w.len())[j] == w[j] by {
                    assert(text[a + 1 + j] == t[1 + j]);
                }
            }
            lemma_plain_tokens_items(text, a + 1, m.items);
            let r = crate::lexer::plain_tokens(text, e);
            if r is Some {
                assert(seq![(crate::token::TokenKind::MapBegin, ValueModel::Null)] + (items_tokens(m.items) + (seq![
                    (crate::token::TokenKind::MapEnd, ValueModel::Null),
                ] + r->Some_0)) =~= value_tokens(v) + r->Some_0);
            }
        },
        _ => {
            lemma_plain_tokens_scalar(text, a, v);
        },
    }
}

/// The text of one map item: the key, a space, the value.
pub open spec fn item_text(p: (KeyModel, ValueModel)) -> Seq<char> {
    crate::value::key_text(p.0) + seq![' '] + crate::value::value_text(p.1)
}

/// The text of map items, from the front: the first item, then (if there
/// are more) a newline and the rest.
proof fn lemma_items_front(items: Seq<(KeyModel, ValueModel)>)
    requires
        items.len() >= 1,
    ensures
        crate::value::items_text(items) == if items.len() == 1 {
            item_text(items[0])
        } else {
            item_text(items[0]) + seq!['\n'] + crate::value::items_text(items.skip(1))
        },
    decreases items.len(),
{
    if items.len() > 2 {
        lemma_items_front(items.drop_last());
        assert(items.drop_last().skip(1) =~= items.skip(1).drop_last());
        assert(items.skip(1).last() == items.last());
        assert(items.drop_last()[0] == items[0]);
        let a = item_text(items[0]);
        let b = crate::value::items_text(items.skip(1).drop_last());
        let c = item_text(items.last());
        assert(crate::value::items_text(items) == (a + seq!['\n'] + b) + seq!['\n'] + c);
        assert(crate::value::items_text(items.skip(1)) == b + seq!['\n'] + c);
        assert((a + seq!['\n'] + b) + seq!['\n'] + c =~= a + seq!['\n'] + (b + seq!['\n'] + c));
    } else if items.len() == 2 {
        assert(items.drop_last() =~= seq![items[0]]);
        assert(items.skip(1) =~= seq![items[1]]);
        assert(items.last() == items[1]);
        assert(crate::value::items_text(items.drop_last()) == item_text(items[0]));
        assert(crate::value::items_text(items.skip(1)) == item_text(items[1]));
    }
}

/// Lexing the texts of plain map items, one per line, up to a `}` gives
/// their tokens, then whatever the text from the `}` on gives.
#[verifier::rlimit(60)]
proof fn lemma_plain_tokens_items(text: Seq<char>, b: int, items: Seq<(KeyModel, ValueModel)>)
    requires
        plain_items(items),
        0 <= b,
        b + crate::value::items_text(items).len() < text.len(),
        text.subrange(b, b + crate::value::items_text(items).len()) == crate::value::items_text(items),
        text[b + crate::value::items_text(items).len()] == '}',
    ensures
        crate::lexer::plain_tokens(text, b) == tokens_then(
            items_tokens(items),
            crate::lexer::plain_tokens(text, b + crate::value::items_text(items).len()),
        ),
    decreases items, 0int,
{
    let w = crate::value::items_text(items);
    if items.len() == 0 {
        assert(w.len() == 0);
        let r = crate::lexer::plain_tokens(text, b);
        if r is Some {
            assert(Seq::<(crate::token::TokenKind, ValueModel)>::empty() + r->Some_0 =~= r->Some_0);
        }
    } else {
        lemma_items_front(items);
        let it = item_text(items[0]);
        let kv = key_value(items[0].0);
        let kt = crate::value::value_text(kv);
        let vt = crate::value::value_text(items[0].1);
        assert(crate::value::key_text(items[0].0) == kt);
        assert(it == kt + seq![' '] + vt);
        let e = b + it.len();
        let k1 = b + kt.len();
        assert(decreases_to!(items => items[0]));
        assert(forall|j: int| 0 <= j < w.len() ==> text[b + j] == #[trigger] w[j]) by {
            assert forall|j: int| 0 <= j < w.len() implies text[b + j] == #[trigger] w[j] by {
                assert(text.subrange(b, b + w.len())[j] == text[b + j]);
            }
        }
        assert(forall|j: int| 0 <= j < it.len() ==> w[j] == #[trigger] it[j]);
        assert(text.subrange(b, k1) =~= kt) by {
            assert forall|j: int| 0 <= j < kt.len() implies text.subrange(b, k1)[j] == kt[j] by {
                assert(text[b + j] == w[j]);
                assert(it[j] == kt[j]);
            }
        }
        assert(text[k1] == w[kt.len() as int]);
        assert(it[kt.len() as int] == ' ');
        lemma_plain_tokens_scalar(text, b, kv);
        assert(value_tokens(kv) == seq![key_token(items[0].0)]);
        assert(crate::lexer::plain_tokens(text, k1) == crate::lexer::plain_tokens(text, k1 + 1));
        assert(text.subrange(k1 + 1, e) =~= vt) by {
            assert forall|j: int| 0 <= j < vt.len() implies text.subrange(k1 + 1, e)[j] == vt[j] by {
                assert(text[k1 + 1 + j] == w[kt.len() + 1 + j]);
                assert(it[kt.len() + 1 + j] == vt[j]);
            }
        }
        if items.len() == 1 {
            assert(w == it);
        } else {
            assert(text[e] == w[it.len() as int]);
        }
        lemma_plain_tokens_value(text, k1 + 1, items[0].1);
        let t0 = seq![key_token(items[0].0)] + value_tokens(items[0].1);
        if items.len() == 1 {
            assert(items_tokens(items) =~= t0) by {
                assert(items.skip(1).len() == 0);
            }
            let r = crate::lexer::plain_tokens(text, e);
            if r is Some {
                assert(seq![key_token(items[0].0)] + (value_tokens(items[0].1) + r->Some_0) =~= t0 + r->Some_0);
            }
        } else {
            let w2 = crate::value::items_text(items.skip(1));
            assert(w == it + seq!['\n'] + w2);
            assert(text.subrange(e + 1, e + 1 + w2.len()) =~= w2) by {
                assert forall|j: int| 0 <= j < w2.len() implies text.subrange(e + 1, e + 1 + w2.len())[j] == w2[j] by {
                    assert(text[e + 1 + j] == w[it.len() + 1 + j]);
                }
            }
            assert(e + 1 + w2.len() == b + w.len());
            lemma_plain_tokens_items(text, e + 1, items.skip(1));
            assert(crate::lexer::plain_tokens(text, e) == crate::lexer::plain_tokens(text, e + 1));
            let r = crate::lexer::plain_tokens(text, b + w.len());
            if r is Some {
                assert(seq![key_token(items[0].0)] + (value_tokens(items[0].1) + (items_tokens(items.skip(1))
                    + r->Some_0)) =~= items_tokens(items) + r->Some_0);
            }
        }
    }
}

/// Lexing the texts of plain values, one per line, up to a `]` gives their
/// tokens, then whatever the text from the `]` on gives.
proof fn lemma_plain_tokens_values(text: Seq<char>, b: int, vs: Seq<ValueModel>)
    requires
        plain_values(vs),
        0 <= b,
        b + crate::value::joined_text(vs, '\n').len() < text.len(),
        text.subrange(b, b + crate::value::joined_text(vs, '\n').len()) == crate::value::joined_text(vs, '\n'),
        text[b + crate::value::joined_text(vs, '\n').len()] == ']',
    ensures
        crate::lexer::plain_tokens(text, b) == tokens_then(
            values_tokens(vs),
            crate::lexer::plain_tokens(text, b + crate::value::joined_text(vs, '\n').len()),
        ),
    decreases vs, 0int,
{
    let w = crate::value::joined_text(vs, '\n');
    if vs.len() == 0 {
        assert(w.len() == 0);
        let r = crate::lexer::plain_tokens(text, b);
        if r is Some {
            assert(Seq::<(crate::token::TokenKind, ValueModel)>::empty() + r->Some_0 =~= r->Some_0);
        }
    } else {
        lemma_joined_front(vs, '\n');
        let t0 = crate::value::value_text(vs[0]);
        let e = b + t0.len();
        assert(decreases_to!(vs => vs[0]));
        assert(text.subrange(b, e) =~= t0) by {
            assert forall|j: int| 0 <= j < t0.len() implies text.subrange(b, e)[j] == t0[j] by {
                assert(text[b + j] == text.subrange(b, b + w.len())[j]);
                assert(w[j] == t0[j]);
            }
        }
        if vs.len() == 1 {
            assert(w == t0);
        } else {
            assert(text[e] == text.subrange(b, b + w.len())[t0.len() as int]);
            assert(w[t0.len() as int] == '\n');
        }
        lemma_plain_tokens_value(text, b, vs[0]);
        if vs.len() == 1 {
            assert(values_tokens(vs) =~= value_tokens(vs[0])) by {
                assert(vs.skip(1).len() == 0);
            }
        } else {
            let w2 = crate::value::joined_text(vs.skip(1), '\n');
            assert(w == t0 + seq!['\n'] + w2);
            assert(text.subrange(e + 1, e + 1 + w2.len()) =~= w2) by {
                assert forall|j: int| 0 <= j < w2.len() implies text.subrange(e + 1, e + 1 + w2.len())[j] == w2[j] by {
                    assert(text[e + 1 + j] == text.subrange(b, b + w.len())[t0.len() + 1 + j]);
                    assert(w[t0.len() + 1 + j] == w2[j]);
                }
            }
            lemma_plain_tokens_values(text, e + 1, vs.skip(1));
            assert(crate::lexer::plain_tokens(text, e) == crate::lexer::plain_tokens(text, e + 1));
            let r = crate::lexer::plain_tokens(text, b + w.len());
            if r is Some {
                assert(value_tokens(vs[0]) + (values_tokens(vs.skip(1)) + r->Some_0) =~= values_tokens(vs)
                    + r->Some_0);
            }
        }
    }
}


/// While a collection is open, a finished value that it takes may as well
/// be in it already.
proof fn lemma_run_flush(
    ts: Seq<(crate::token::TokenKind, ValueModel)>,
    pos: int,
    stack: Seq<crate::parser::OpenModel>,
    x: ValueModel,
)
    requires
        crate::parser::stack_after(stack, Some(x)) is Some,
        0 <= pos,
    ensures
        crate::parser::list_run(ts, pos, stack, Some(x)) == crate::parser::list_run(
            ts,
            pos,
            crate::parser::stack_after(stack, Some(x))->Some_0,
            None,
        ),
{
}

/// Reading the tokens of a plain value finishes that value.
proof fn lemma_run_value(
    ts: Seq<(crate::token::TokenKind, ValueModel)>,
    pos: int,
    stack: Seq<crate::parser::OpenModel>,
    v: ValueModel,
)
    requires
        plain_value(v),
        stack.len() > 0 || v is List || v is UxfMap,
        0 <= pos,
        pos + value_tokens(v).len() <= ts.len(),
        forall|j: int| 0 <= j < value_tokens(v).len() ==> ts[pos + j] == #[trigger] value_tokens(v)[j],
    ensures
        crate::parser::list_run(ts, pos, stack, None) == crate::parser::list_run(
            ts,
            pos + value_tokens(v).len(),
            stack,
            Some(v),
        ),
    decreases v, 1int,
{
    let vt = value_tokens(v);
    assert(ts[pos] == vt[0]);
    match v {
        ValueModel::List(l) => {
            let wt = values_tokens(l.values);
            let inner = stack.push(crate::parser::OpenModel::InList(seq![]));
            assert forall|j: int| 0 <= j < wt.len() implies ts[pos + 1 + j] == #[trigger] wt[j] by {
                assert(ts[pos + (1 + j)] == vt[1 + j]);
            }
            lemma_run_values(ts, pos + 1, inner, l.values);
            assert(inner.update(stack.len() as int, crate::parser::OpenModel::InList(seq![] + l.values))
                =~= stack.push(crate::parser::OpenModel::InList(l.values)));
            assert(ts[pos + (1 + wt.len())] == vt[1 + wt.len() as int]);
            assert(stack.push(crate::parser::OpenModel::InList(l.values)).drop_last() =~= stack);
            assert(crate::parser::plain_list(l.values) == v) by {
                assert(l.vtype =~= Seq::<char>::empty());
                assert(l.comment =~= Seq::<char>::empty());
            }
        },
        ValueModel::UxfMap(m) => {
            let wt = items_tokens(m.items);
            let inner = stack.push(crate::parser::OpenModel::InMap(seq![], None));
            assert forall|j: int| 0 <= j < wt.len() implies ts[pos + 1 + j] == #[trigger] wt[j] by {
                assert(ts[pos + (1 + j)] == vt[1 + j]);
            }
            assert(Seq::<(KeyModel, ValueModel)>::empty() + m.items =~= m.items);
            lemma_run_items(ts, pos + 1, inner, m.items);
            assert(inner.update(stack.len() as int, crate::parser::OpenModel::InMap(seq![] + m.items, None))
                =~= stack.push(crate::parser::OpenModel::InMap(m.items, None)));
            assert(ts[pos + (1 + wt.len())] == vt[1 + wt.len() as int]);
            assert(stack.push(crate::parser::OpenModel::InMap(m.items, None)).drop_last() =~= stack);
            assert(crate::parser::plain_map(m.items) == v) by {
                assert(m.ktype =~= Seq::<char>::empty());
                assert(m.vtype =~= Seq::<char>::empty());
                assert(m.comment =~= Seq::<char>::empty());
            }
        },
        _ => {},
    }
}

/// Setting the value of a key greater than every key of the items puts
/// the item last.
proof fn lemma_map_put_last(items: Seq<(KeyModel, ValueModel)>, k: KeyModel, v: ValueModel)
    requires
        crate::value::keys_sorted(crate::value::keys_of(items.push((k, v)))),
    ensures
        crate::map::map_put(items, k, v) == items.push((k, v)),
    decreases items.len(),
{
    if items.len() > 0 {
        let ks = crate::value::keys_of(items.push((k, v)));
        assert(ks[0] == items[0].0);
        assert(ks[items.len() as int] == k);
        assert(crate::key::key_lt(items[0].0, k));
        crate::key::lemma_key_lt_irreflexive(k);
        if crate::key::key_lt(k, items[0].0) {
            crate::key::lemma_key_lt_transitive(k, items[0].0, k);
        }
        let rest = items.skip(1);
        assert(rest.push((k, v)) =~= items.push((k, v)).skip(1));
        assert(crate::value::keys_sorted(crate::value::keys_of(rest.push((k, v))))) by {
            let ks2 = crate::value::keys_of(rest.push((k, v)));
            assert forall|i: int, j: int| 0 <= i < j < ks2.len() implies crate::key::key_lt(
                #[trigger] ks2[i],
                #[trigger] ks2[j],
            ) by {
                assert(ks2[i] == ks[i + 1]);
                assert(ks2[j] == ks[j + 1]);
            }
        }
        lemma_map_put_last(rest, k, v);
        assert(seq![items[0]] + rest.push((k, v)) =~= items.push((k, v)));
    }
}

/// Reading the tokens of plain map items inside an open map that waits for
/// no key puts them into it, after its items, when the keys are in order.
proof fn lemma_run_items(
    ts: Seq<(crate::token::TokenKind, ValueModel)>,
    pos: int,
    stack: Seq<crate::parser::OpenModel>,
    items: Seq<(KeyModel, ValueModel)>,
)
    requires
        plain_items(items),
        stack.len() > 0,
        stack.last() matches crate::parser::OpenModel::InMap(before, None) && crate::value::keys_sorted(
            crate::value::keys_of(before + items),
        ),
        0 <= pos,
        pos + items_tokens(items).len() <= ts.len(),
        forall|j: int| 0 <= j < items_tokens(items).len() ==> ts[pos + j] == #[trigger] items_tokens(items)[j],
    ensures
        crate::parser::list_run(ts, pos, stack, None) == crate::parser::list_run(
            ts,
            pos + items_tokens(items).len(),
            stack.update(stack.len() - 1, crate::parser::OpenModel::InMap(stack.last()->InMap_0 + items, None)),
            None,
        ),
    decreases items, 0int,
{
    let before = stack.last()->InMap_0;
    if items.len() == 0 {
        assert(before + items =~= before);
        assert(stack.update(stack.len() - 1, crate::parser::OpenModel::InMap(before + items, None)) =~= stack);
    } else {
        assert(decreases_to!(items => items[0]));
        let k = items[0].0;
        let v0 = items[0].1;
        let t0 = value_tokens(v0);
        let wt = items_tokens(items);
        let rt = items_tokens(items.skip(1));
        assert(wt == seq![key_token(k)] + t0 + rt);
        assert(ts[pos] == wt[0]);
        assert(ts[pos] == key_token(k));
        let sk = stack.update(stack.len() - 1, crate::parser::OpenModel::InMap(before, Some(k)));
        assert(crate::parser::stack_after(stack, Some(key_value(k))) == Some(sk));
        lemma_run_flush(ts, pos + 1, stack, key_value(k));
        assert(crate::parser::list_run(ts, pos, stack, None) == crate::parser::list_run(ts, pos + 1, stack, Some(key_value(k))));
        assert forall|j: int| 0 <= j < t0.len() implies ts[pos + 1 + j] == #[trigger] t0[j] by {
            assert(wt[1 + j] == t0[j]);
            assert(ts[pos + (1 + j)] == wt[1 + j]);
        }
        lemma_run_value(ts, pos + 1, sk, v0);
        let p1 = pos + 1 + t0.len();
        let b1 = before.push((k, v0));
        assert(before + items =~= b1 + items.skip(1));
        assert(crate::value::keys_sorted(crate::value::keys_of(b1))) by {
            let ka = crate::value::keys_of(before + items);
            let kb = crate::value::keys_of(b1);
            assert forall|i: int, j: int| 0 <= i < j < kb.len() implies crate::key::key_lt(
                #[trigger] kb[i],
                #[trigger] kb[j],
            ) by {
                assert(kb[i] == ka[i]);
                assert(kb[j] == ka[j]);
            }
        }
        lemma_map_put_last(before, k, v0);
        let s1 = stack.update(stack.len() - 1, crate::parser::OpenModel::InMap(b1, None));
        assert(crate::parser::stack_after(sk, Some(v0)) == Some(s1)) by {
            assert(sk.update(sk.len() - 1, crate::parser::OpenModel::InMap(b1, None)) =~= s1);
        }
        lemma_run_flush(ts, p1, sk, v0);
        assert forall|j: int| 0 <= j < rt.len() implies ts[p1 + j] == #[trigger] rt[j] by {
            assert(wt[1 + t0.len() + j] == rt[j]);
            assert(ts[pos + (1 + t0.len() + j)] == wt[1 + t0.len() + j]);
        }
        lemma_run_items(ts, p1, s1, items.skip(1));
        assert(s1.update(s1.len() - 1, crate::parser::OpenModel::InMap(b1 + items.skip(1), None)) =~= stack.update(
            stack.len() - 1,
            crate::parser::OpenModel::InMap(before + items, None),
        ));
    }
}

/// Reading the tokens of plain values inside an open list puts them into it.
proof fn lemma_run_values(
    ts: Seq<(crate::token::TokenKind, ValueModel)>,
    pos: int,
    stack: Seq<crate::parser::OpenModel>,
    vs: Seq<ValueModel>,
)
    requires
        plain_values(vs),
        stack.len() > 0,
        stack.last() is InList,
        0 <= pos,
        pos + values_tokens(vs).len() <= ts.len(),
        forall|j: int| 0 <= j < values_tokens(vs).len() ==> ts[pos + j] == #[trigger] values_tokens(vs)[j],
    ensures
        crate::parser::list_run(ts, pos, stack, None) == crate::parser::list_run(
            ts,
            pos + values_tokens(vs).len(),
            stack.update(stack.len() - 1, crate::parser::OpenModel::InList(stack.last()->InList_0 + vs)),
            None,
        ),
    decreases vs, 0int,
{
    let ws = stack.last()->InList_0;
    if vs.len() == 0 {
        assert(ws + vs =~= ws);
        assert(stack.update(stack.len() - 1, crate::parser::OpenModel::InList(ws + vs)) =~= stack);
    } else {
        assert(decreases_to!(vs => vs[0]));
        let t0 = value_tokens(vs[0]);
        let wt = values_tokens(vs);
        let rt = values_tokens(vs.skip(1));
        assert(wt == t0 + rt);
        assert forall|j: int| 0 <= j < t0.len() implies ts[pos + j] == #[trigger] t0[j] by {
            assert(wt[j] == t0[j]);
        }
        lemma_run_value(ts, pos, stack, vs[0]);
        let p1 = pos + t0.len();
        let s1 = stack.update(stack.len() - 1, crate::parser::OpenModel::InList(ws.push(vs[0])));
        assert(crate::parser::stack_after(stack, Some(vs[0])) == Some(s1));
        lemma_run_flush(ts, p1, stack, vs[0]);
        assert forall|j: int| 0 <= j < rt.len() implies ts[p1 + j] == #[trigger] rt[j] by {
            assert(wt[t0.len() + j] == rt[j]);
            assert(ts[pos + (t0.len() + j)] == wt[t0.len() + j]);
        }
        lemma_run_values(ts, p1, s1, vs.skip(1));
        assert(ws.push(vs[0]) + vs.skip(1) =~= ws + vs);
        assert(s1.update(s1.len() - 1, crate::parser::OpenModel::InList(ws.push(vs[0]) + vs.skip(1))) =~= stack.update(
            stack.len() - 1,
            crate::parser::OpenModel::InList(ws + vs),
        ));
    }
}

/// Writing a document whose value is a list or a map of nested lists and
/// maps of ints, reals, nulls and strs (see `plain_value`: no ktypes, no
/// vtypes, no comments; map keys are ints or strs, in order), with or without a file comment and
/// with no imports or tclasses, gives a text of plain data whose value
/// reads back as the document's value, under the same header and with the
/// same file comment.
#[verifier::rlimit(80)]
pub proof fn law_plain_data_survives_writing(m: UxfModel)
    requires
        !m.custom.contains('\n'),
        trimmed(m.custom) == m.custom,
        m.imports.len() == 0,
        m.tclasses.len() == 0,
        m.value is List || m.value is UxfMap,
        plain_value(m.value),
    ensures
        crate::lexer::plain_import_body(uxf_text(m)),
        crate::parser::plain_document_value(uxf_text(m)) == Some(m.value),
        match first_newline(uxf_text(m)) {
            Some(nl) => header_of(uxf_text(m).take(nl)) == Ok::<(u16, Seq<char>), u16>((1u16, m.custom)),
            None => false,
        },
        file_comment_alone(uxf_text(m)),
        file_comment(uxf_text(m)) == (if m.comment.len() > 0 {
            Some(m.comment)
        } else {
            None::<Seq<char>>
        }),
{
    law_custom_survives_writing(m);
    law_comment_survives_writing(m);
    let text = uxf_text(m);
    let h = header_text(m.custom);
    let cm = if m.comment.len() > 0 {
        comment_text(m.comment) + seq!['\n']
    } else {
        seq![]
    };
    let t = crate::value::value_text(m.value);
    assert(unique_imports(m.imports) =~= Seq::<Seq<char>>::empty());
    assert(imports_text(unique_imports(m.imports)) =~= Seq::<char>::empty());
    assert(tclasses_text(m.tclasses, entry_keys(m.imports)) =~= Seq::<char>::empty());
    assert(text =~= h + cm + t + seq!['\n']);
    let p = h.len() as int;
    let b = p + cm.len();
    let e = b + t.len();
    assert(text[p - 1] == '\n');
    if m.value is List {
        let l = m.value->List_0;
        assert(crate::value::list_head(l) =~= seq!['[']);
        assert(t == seq!['['] + crate::value::joined_text(l.values, '\n') + seq![']']);
    } else {
        let mm = m.value->UxfMap_0;
        assert(crate::value::map_head(mm) =~= seq!['{']);
        assert(t == seq!['{'] + crate::value::items_text(mm.items) + seq!['}']);
    }
    assert(text[b] == t[0]);
    assert(ws_end(text, b) == b);
    assert(text.subrange(b, e) =~= t);
    assert(text[e] == '\n');
    if m.comment.len() > 0 {
        let es = escaped(m.comment);
        let q = p + 2 + es.len();
        assert(cm =~= seq!['#', '<'] + es + seq!['>', '\n']);
        assert(text[p] == '#' && text[p + 1] == '<');
        law_escaped_has_no_angle_brackets(m.comment);
        assert forall|k: int| p + 2 <= k < q implies text[k] != '>' by {
            assert(text[k] == es[k - p - 2]);
        }
        assert(text[q] == '>');
        lemma_index_from_at(text, p + 2, q, '>');
        assert(q + 2 == b);
        assert(text[q + 1] == '\n');
        assert(ws_end(text, p) == p);
        assert(ws_end(text, p - 1) == p);
        assert(after_header(text) == p);
        assert(crate::lexer::imports_start(text) == b - 1);
        assert(ws_end(text, b - 1) == b);
        assert(!crate::lexer::import_line_at(text, b - 1));
        assert(crate::lexer::after_imports(text) == b - 1);
        assert(crate::lexer::plain_tokens(text, b - 1) == crate::lexer::plain_tokens(text, b));
        assert(crate::lexer::ws_between(text, b - 1, b));
        crate::lexer::lemma_def_ws(text, b - 1, b, false);
    } else {
        assert(b == p);
        assert(ws_end(text, p - 1) == p);
        assert(after_header(text) == p);
        assert(crate::lexer::imports_start(text) == b);
        assert(!crate::lexer::import_line_at(text, b));
        assert(crate::lexer::after_imports(text) == b);
    }
    assert(crate::lexer::imports_from(text, crate::lexer::imports_start(text)).len() == 0);
    lemma_plain_tokens_value(text, b, m.value);
    assert(crate::lexer::plain_tokens(text, e + 1) == Some(Seq::<(crate::token::TokenKind, ValueModel)>::empty()));
    assert(crate::lexer::plain_tokens(text, e) == crate::lexer::plain_tokens(text, e + 1));
    let vt = value_tokens(m.value);
    assert(crate::lexer::plain_tokens(text, b) == Some(vt)) by {
        assert(vt + Seq::<(crate::token::TokenKind, ValueModel)>::empty() =~= vt);
    }
    assert(crate::lexer::def_tokens(text, b, false) == crate::lexer::plain_tokens(text, b)) by {
        reveal(crate::lexer::def_tokens);
    }
    lemma_run_value(vt, 0, seq![], m.value);
}

/// Where the import lines from `i` on end lies between `i` and the end.
proof fn lemma_imports_end_bounds(text: Seq<char>, i: int)
    requires
        0 <= i <= text.len(),
    ensures
        i <= imports_end(text, i) <= text.len(),
    decreases text.len() - i,
{
    if import_line_at(text, i) {
        lemma_imports_end_bounds(text, index_from(text, ws_end(text, i) + 1, '\n'));
    }
}

/// Writing a document whose value is plain data (see `plain_value`), with
/// or without a file comment and imports and with no tclasses, gives a
/// text of plain data after its header, file comment and import lines
/// (see `plain_import_body`), whose import lines name the document's
/// imports, each once, in the order first imported; so `tokenize` and
/// `import_names` succeed on it, and `import_names` gives those imports.
#[verifier::rlimit(60)]
pub proof fn law_plain_data_imports_written(m: UxfModel)
    requires
        !m.custom.contains('\n'),
        trimmed(m.custom) == m.custom,
        forall|i: int|
            0 <= i < unique_imports(m.imports).len() ==> !(#[trigger] unique_imports(m.imports)[i]).contains('\n')
                && trimmed(unique_imports(m.imports)[i]) == unique_imports(m.imports)[i],
        m.tclasses.len() == 0,
        m.value is List || m.value is UxfMap,
        plain_value(m.value),
    ensures
        crate::lexer::plain_import_body(uxf_text(m)),
        imports_from(uxf_text(m), imports_start(uxf_text(m))) == unique_imports(m.imports),
{
    law_custom_survives_writing(m);
    law_comment_survives_writing(m);
    law_imports_survive_writing(m);
    let text = uxf_text(m);
    let a2 = lemma_written_layout(m);
    let files = unique_imports(m.imports);
    let imp = imports_text(files);
    let b = a2 + imp.len();
    lemma_imports_from_written(text, imports_start(text), a2, files);
    let h = header_text(m.custom);
    let cm = if m.comment.len() > 0 {
        comment_text(m.comment) + seq!['\n']
    } else {
        seq![]
    };
    let t = crate::value::value_text(m.value);
    assert(tclasses_text(m.tclasses, entry_keys(m.imports)) =~= Seq::<char>::empty());
    assert(text =~= h + cm + imp + t + seq!['\n']);
    assert(b == h.len() + cm.len() + imp.len());
    let e = b + t.len();
    assert(text.subrange(b, e) =~= t);
    assert(text[e] == '\n');
    let ie = crate::lexer::after_imports(text);
    crate::lexer::lemma_ws_end(text, imports_start(text));
    lemma_imports_end_bounds(text, imports_start(text));
    crate::lexer::lemma_ws_end(text, ie);
    crate::lexer::lemma_plain_ws(text, ie, b);
    crate::lexer::lemma_def_ws(text, ie, b, false);
    lemma_plain_tokens_value(text, b, m.value);
    assert(crate::lexer::plain_tokens(text, e + 1) == Some(Seq::<(crate::token::TokenKind, ValueModel)>::empty()));
    assert(crate::lexer::plain_tokens(text, e) == crate::lexer::plain_tokens(text, e + 1));
    assert(crate::lexer::def_tokens(text, b, false) == crate::lexer::plain_tokens(text, b)) by {
        reveal(crate::lexer::def_tokens);
    }
}

// ---------------------------------------------------------------------
// Writing and reading back tclass definitions

/// Whether a name reads back as itself from a definition's text: an ASCII
/// letter or underscore, then ASCII letters, digits and underscores, at
/// most 33 chars, and neither `yes`, `no` nor a built-in type name.
pub open spec fn plain_name(n: Seq<char>) -> bool {
    &&& 0 < n.len() <= 33
    &&& n[0] == '_' || crate::text::ascii_letter(n[0])
    &&& forall|j: int| 0 <= j < n.len() ==> crate::lexer::ascii_name_char(#[trigger] n[j])
    &&& !crate::consts::is_bool_word(n)
    &&& !crate::consts::is_vtype_word(n)
}

/// A tclass's ttype and field names.
pub open spec fn tclass_def(t: TClassModel) -> (Seq<char>, Seq<Seq<char>>) {
    (t.0, t.1.map_values(|f: crate::field::FieldModel| f.0))
}

/// Whether a tclass reads back from its definition's text: no comment,
/// plain names, no vtypes, and valid (see `mdef_ok`).
pub open spec fn plain_tclass(t: TClassModel) -> bool {
    &&& t.2.len() == 0
    &&& plain_name(t.0)
    &&& forall|j: int| 0 <= j < t.1.len() ==> plain_name((#[trigger] t.1[j]).0) && t.1[j].1 is None
    &&& crate::parser::mdef_ok(tclass_def(t))
}

/// The tokens (kind and value) of fields.
pub open spec fn field_tokens(fs: Seq<crate::field::FieldModel>) -> Seq<(crate::token::TokenKind, ValueModel)> {
    fs.map_values(|f: crate::field::FieldModel| (crate::token::TokenKind::Field, ValueModel::Str(f.0)))
}

/// The tokens (kind and value) of a tclass's definition.
pub open spec fn tclass_tokens(t: TClassModel) -> Seq<(crate::token::TokenKind, ValueModel)> {
    seq![(crate::token::TokenKind::TClassBegin, ValueModel::Str(t.0))] + field_tokens(t.1) + seq![
        (crate::token::TokenKind::TClassEnd, ValueModel::Null),
    ]
}

/// The tokens of the tclasses' definitions, in turn.
pub open spec fn tclasses_tokens(ts: Seq<TClassModel>) -> Seq<(crate::token::TokenKind, ValueModel)>
    decreases ts.len(),
{
    if ts.len() == 0 {
        seq![]
    } else {
        tclass_tokens(ts[0]) + tclasses_tokens(ts.skip(1))
    }
}

proof fn lemma_fields_text_front(fs: Seq<crate::field::FieldModel>)
    requires
        fs.len() > 0,
    ensures
        crate::tclass::fields_text(fs) == seq![' '] + crate::field::Field::text_of(fs[0]) + crate::tclass::fields_text(
            fs.skip(1),
        ),
    decreases fs.len(),
{
    if fs.len() == 1 {
        assert(fs.drop_last() =~= Seq::<crate::field::FieldModel>::empty());
        assert(fs.skip(1) =~= Seq::<crate::field::FieldModel>::empty());
        assert(fs.last() == fs[0]);
        assert(crate::tclass::fields_text(fs.drop_last()) == Seq::<char>::empty());
        assert(crate::tclass::fields_text(fs.skip(1)) == Seq::<char>::empty());
        assert(crate::tclass::fields_text(fs) =~= seq![' '] + crate::field::Field::text_of(fs[0]) + Seq::<char>::empty());
    } else {
        lemma_fields_text_front(fs.drop_last());
        assert(fs.drop_last().skip(1) =~= fs.skip(1).drop_last());
        assert(fs.skip(1).last() == fs.last());
        assert(fs.drop_last()[0] == fs[0]);
        let a = seq![' '] + crate::field::Field::text_of(fs[0]);
        let b = crate::tclass::fields_text(fs.skip(1).drop_last());
        let c = seq![' '] + crate::field::Field::text_of(fs.last());
        assert(crate::tclass::fields_text(fs) == (a + b) + c);
        assert(crate::tclass::fields_text(fs.skip(1)) == b + c);
        assert((a + b) + c =~= a + (b + c));
    }
}

proof fn lemma_tclasses_text_front(ts: Seq<TClassModel>)
    requires
        ts.len() > 0,
    ensures
        tclasses_text(ts, seq![]) == tclass_text(ts[0]) + seq!['\n'] + tclasses_text(ts.skip(1), seq![]),
    decreases ts.len(),
{
    let none = Seq::<Seq<char>>::empty();
    assert(!none.contains(ts.last().0));
    if ts.len() == 1 {
        assert(ts.drop_last() =~= Seq::<TClassModel>::empty());
        assert(ts.skip(1) =~= Seq::<TClassModel>::empty());
        assert(ts.last() == ts[0]);
        assert(tclasses_text(ts.drop_last(), none) == Seq::<char>::empty());
        assert(tclasses_text(ts.skip(1), none) == Seq::<char>::empty());
        assert(tclasses_text(ts, none) =~= tclass_text(ts[0]) + seq!['\n'] + Seq::<char>::empty());
    } else {
        lemma_tclasses_text_front(ts.drop_last());
        assert(ts.drop_last().skip(1) =~= ts.skip(1).drop_last());
        assert(ts.skip(1).last() == ts.last());
        assert(ts.drop_last()[0] == ts[0]);
        let a = tclass_text(ts[0]) + seq!['\n'];
        let b = tclasses_text(ts.skip(1).drop_last(), none);
        let c = tclass_text(ts.last()) + seq!['\n'];
        assert(tclasses_text(ts, none) == (a + b) + c);
        assert(tclasses_text(ts.skip(1), none) == b + c);
        assert((a + b) + c =~= a + (b + c));
    }
}

proof fn lemma_ascii_end_at(text: Seq<char>, i: int, e: int)
    requires
        0 <= i <= e < text.len(),
        forall|j: int| i <= j < e ==> crate::lexer::ascii_name_char(#[trigger] text[j]),
        !crate::lexer::ascii_name_char(text[e]),
    ensures
        crate::lexer::ascii_name_end(text, i) == e,
    decreases e - i,
{
    if i < e {
        lemma_ascii_end_at(text, i + 1, e);
    }
}

/// A plain name in the text, followed by a space or a newline, reads as
/// itself.
proof fn lemma_name_read(text: Seq<char>, a: int, n: Seq<char>)
    requires
        plain_name(n),
        0 <= a,
        a + n.len() < text.len(),
        text.subrange(a, a + n.len()) == n,
        text[a + n.len()] == ' ' || text[a + n.len()] == '\n',
    ensures
        crate::lexer::plain_name_at(text, a),
        crate::lexer::ascii_name_end(text, a) == a + n.len(),
{
    assert forall|j: int| a <= j < a + n.len() implies crate::lexer::ascii_name_char(#[trigger] text[j]) by {
        assert(text[j] == text.subrange(a, a + n.len())[j - a]);
        assert(crate::lexer::ascii_name_char(n[j - a]));
    }
    lemma_ascii_end_at(text, a, a + n.len());
    assert(text[a] == n[0]);
}

/// Where a definition is open, its end token comes before the next
/// definition or the data.
proof fn lemma_def_close(text: Seq<char>, i: int)
    requires
        0 <= i < text.len(),
        text[i] == '=' || text[i] == '[' || text[i] == '{',
    ensures
        crate::lexer::def_tokens(text, i, true) == crate::lexer::then_tokens(
            (crate::token::TokenKind::TClassEnd, ValueModel::Null),
            crate::lexer::def_tokens(text, i, false),
        ),
{
    reveal(crate::lexer::def_tokens);
}

/// Lexing the text of plain fields (each a space and a name), inside an
/// open definition and up to a newline, gives their field tokens.
proof fn lemma_def_fields(text: Seq<char>, a: int, fs: Seq<crate::field::FieldModel>)
    requires
        forall|j: int| 0 <= j < fs.len() ==> plain_name((#[trigger] fs[j]).0) && fs[j].1 is None,
        0 <= a,
        a + crate::tclass::fields_text(fs).len() < text.len(),
        text.subrange(a, a + crate::tclass::fields_text(fs).len()) == crate::tclass::fields_text(fs),
        text[a + crate::tclass::fields_text(fs).len()] == '\n',
    ensures
        crate::lexer::def_tokens(text, a, true) == tokens_then(
            field_tokens(fs),
            crate::lexer::def_tokens(text, a + crate::tclass::fields_text(fs).len(), true),
        ),
    decreases fs.len(),
{
    reveal(crate::lexer::def_tokens);
    let ft = crate::tclass::fields_text(fs);
    let r = crate::lexer::def_tokens(text, a + ft.len(), true);
    if fs.len() == 0 {
        assert(ft.len() == 0);
        if r is Some {
            assert(field_tokens(fs) + r->Some_0 =~= r->Some_0);
        }
    } else {
        lemma_fields_text_front(fs);
        let n = fs[0].0;
        let rest = crate::tclass::fields_text(fs.skip(1));
        assert(crate::field::Field::text_of(fs[0]) == n);
        assert(ft == seq![' '] + n + rest);
        assert(forall|j: int| 0 <= j < ft.len() ==> text[a + j] == #[trigger] ft[j]) by {
            assert forall|j: int| 0 <= j < ft.len() implies text[a + j] == #[trigger] ft[j] by {
                assert(text.subrange(a, a + ft.len())[j] == text[a + j]);
            }
        }
        assert(text[a] == ft[0]);
        assert(text.subrange(a + 1, a + 1 + n.len()) =~= n) by {
            assert forall|j: int| 0 <= j < n.len() implies text.subrange(a + 1, a + 1 + n.len())[j] == n[j] by {
                assert(text[a + 1 + j] == ft[1 + j]);
            }
        }
        let e = a + 1 + n.len();
        if rest.len() > 0 {
            lemma_fields_text_front(fs.skip(1));
            assert(text[e] == ft[1 + n.len() as int]);
        }
        lemma_name_read(text, a + 1, n);
        assert(crate::lexer::def_tokens(text, a, true) == crate::lexer::def_tokens(text, a + 1, true));
        assert forall|j: int| 0 <= j < fs.skip(1).len() implies plain_name((#[trigger] fs.skip(1)[j]).0) && fs.skip(
            1,
        )[j].1 is None by {
            assert(fs.skip(1)[j] == fs[j + 1]);
        }
        assert(text.subrange(e, e + rest.len()) =~= rest) by {
            assert forall|j: int| 0 <= j < rest.len() implies text.subrange(e, e + rest.len())[j] == rest[j] by {
                assert(text[e + j] == ft[1 + n.len() + j]);
            }
        }
        lemma_def_fields(text, e, fs.skip(1));
        let t = (crate::token::TokenKind::Field, ValueModel::Str(n));
        assert(field_tokens(fs) =~= seq![t] + field_tokens(fs.skip(1)));
        if r is Some {
            assert(seq![t] + (field_tokens(fs.skip(1)) + r->Some_0) =~= field_tokens(fs) + r->Some_0);
        }
    }
}

/// Lexing the text of plain tclass definitions (each on its own line),
/// up to the data's `[` or `{`, gives their tokens and then those of the
/// data.
#[verifier::rlimit(100)]
proof fn lemma_def_tclasses(text: Seq<char>, a: int, ts: Seq<TClassModel>)
    requires
        forall|i: int| 0 <= i < ts.len() ==> plain_tclass(#[trigger] ts[i]),
        0 <= a,
        a + tclasses_text(ts, seq![]).len() < text.len(),
        text.subrange(a, a + tclasses_text(ts, seq![]).len()) == tclasses_text(ts, seq![]),
        text[a + tclasses_text(ts, seq![]).len()] == '[' || text[a + tclasses_text(ts, seq![]).len()] == '{',
    ensures
        crate::lexer::def_tokens(text, a, false) == tokens_then(
            tclasses_tokens(ts),
            crate::lexer::plain_tokens(text, a + tclasses_text(ts, seq![]).len()),
        ),
    decreases ts.len(),
{
    reveal(crate::lexer::def_tokens);
    let tt = tclasses_text(ts, seq![]);
    let r = crate::lexer::plain_tokens(text, a + tt.len());
    if ts.len() == 0 {
        assert(tt.len() == 0);
        if r is Some {
            assert(tclasses_tokens(ts) + r->Some_0 =~= r->Some_0);
        }
    } else {
        lemma_tclasses_text_front(ts);
        let t0 = ts[0];
        assert(plain_tclass(t0));
        let n = t0.0;
        let ft = crate::tclass::fields_text(t0.1);
        let rest = tclasses_text(ts.skip(1), seq![]);
        assert(tclass_text(t0) =~= seq!['='] + n + ft);
        assert(tt == seq!['='] + n + ft + seq!['\n'] + rest);
        assert(forall|j: int| 0 <= j < tt.len() ==> text[a + j] == #[trigger] tt[j]) by {
            assert forall|j: int| 0 <= j < tt.len() implies text[a + j] == #[trigger] tt[j] by {
                assert(text.subrange(a, a + tt.len())[j] == text[a + j]);
            }
        }
        assert(text[a] == tt[0]);
        assert(text.subrange(a + 1, a + 1 + n.len()) =~= n) by {
            assert forall|j: int| 0 <= j < n.len() implies text.subrange(a + 1, a + 1 + n.len())[j] == n[j] by {
                assert(text[a + 1 + j] == tt[1 + j]);
            }
        }
        let e = a + 1 + n.len();
        if ft.len() > 0 {
            lemma_fields_text_front(t0.1);
        }
        assert(text[e] == tt[1 + n.len() as int]);
        lemma_name_read(text, a + 1, n);
        assert(text.subrange(e, e + ft.len()) =~= ft) by {
            assert forall|j: int| 0 <= j < ft.len() implies text.subrange(e, e + ft.len())[j] == ft[j] by {
                assert(text[e + j] == tt[1 + n.len() + j]);
            }
        }
        let nl = e + ft.len();
        assert(text[nl] == tt[1 + n.len() + ft.len() as int]);
        lemma_def_fields(text, e, t0.1);
        let next = nl + 1;
        assert(crate::lexer::def_tokens(text, nl, true) == crate::lexer::def_tokens(text, next, true));
        assert forall|i: int| 0 <= i < ts.skip(1).len() implies plain_tclass(#[trigger] ts.skip(1)[i]) by {
            assert(ts.skip(1)[i] == ts[i + 1]);
        }
        assert(text.subrange(next, next + rest.len()) =~= rest) by {
            assert forall|j: int| 0 <= j < rest.len() implies text.subrange(next, next + rest.len())[j] == rest[j] by {
                assert(text[next + j] == tt[1 + n.len() + ft.len() + 1 + j]);
            }
        }
        assert(next + rest.len() == a + tt.len());
        if rest.len() > 0 {
            lemma_tclasses_text_start(ts.skip(1), seq![]);
            assert(text[next] == rest[0]);
        }
        lemma_def_close(text, next);
        lemma_def_tclasses(text, next, ts.skip(1));
        let tb = (crate::token::TokenKind::TClassBegin, ValueModel::Str(n));
        let te = (crate::token::TokenKind::TClassEnd, ValueModel::Null);
        assert(tclasses_tokens(ts) == tclass_tokens(t0) + tclasses_tokens(ts.skip(1)));
        if r is Some {
            assert(seq![tb] + (field_tokens(t0.1) + (seq![te] + (tclasses_tokens(ts.skip(1)) + r->Some_0)))
                =~= tclasses_tokens(ts) + r->Some_0);
        }
    }
}

proof fn lemma_mfield_count_at(ms: Seq<(crate::token::TokenKind, ValueModel)>, i: int, k: int)
    requires
        0 <= i,
        0 <= k,
        i + k <= ms.len(),
        forall|j: int| i <= j < i + k ==> (#[trigger] ms[j]).0 == crate::token::TokenKind::Field,
        i + k < ms.len() ==> ms[i + k].0 != crate::token::TokenKind::Field,
    ensures
        crate::parser::mfield_count(ms, i) == k,
    decreases k,
{
    if k > 0 {
        lemma_mfield_count_at(ms, i + 1, k - 1);
    }
}

proof fn lemma_mfield_count_shift(
    pre: Seq<(crate::token::TokenKind, ValueModel)>,
    ms: Seq<(crate::token::TokenKind, ValueModel)>,
    p: int,
)
    requires
        0 <= p,
    ensures
        crate::parser::mfield_count(pre + ms, pre.len() + p) == crate::parser::mfield_count(ms, p),
    decreases ms.len() - p,
{
    if p < ms.len() {
        assert((pre + ms)[pre.len() + p] == ms[p]);
        lemma_mfield_count_shift(pre, ms, p + 1);
    }
}

/// The definitions that tokens begin with are the same after other tokens.
proof fn lemma_mdefs_shift(
    pre: Seq<(crate::token::TokenKind, ValueModel)>,
    ms: Seq<(crate::token::TokenKind, ValueModel)>,
    p: int,
)
    requires
        0 <= p,
    ensures
        crate::parser::mdefs(pre + ms, pre.len() + p) == crate::parser::mdefs(ms, p),
        crate::parser::mdefs_end(pre + ms, pre.len() + p) == pre.len() + crate::parser::mdefs_end(ms, p),
    decreases ms.len() - p,
{
    let all = pre + ms;
    let q = pre.len() + p;
    if p < ms.len() {
        assert(all[q] == ms[p]);
        if ms[p].0 == crate::token::TokenKind::TClassBegin {
            lemma_mfield_count_shift(pre, ms, p + 1);
            let k = crate::parser::mfield_count(ms, p + 1) as int;
            if p + k + 1 < ms.len() {
                assert(all[q + k + 1] == ms[p + k + 1]);
                if ms[p + k + 1].0 == crate::token::TokenKind::TClassEnd {
                    lemma_mdefs_shift(pre, ms, p + k + 2);
                    assert(Seq::new(k as nat, |j: int| crate::parser::model_str(all[q + 1 + j].1)) =~= Seq::new(
                        k as nat,
                        |j: int| crate::parser::model_str(ms[p + 1 + j].1),
                    )) by {
                        assert forall|j: int| 0 <= j < k implies crate::parser::model_str(all[q + 1 + j].1)
                            == crate::parser::model_str(#[trigger] ms[p + 1 + j].1) by {
                            assert(all[q + 1 + j] == ms[p + 1 + j]);
                        }
                    }
                }
            }
        }
    }
}

/// The tokens of plain tclass definitions, then data, begin with those
/// definitions, all with str names, and end where the data starts.
proof fn lemma_mdefs_tclasses(ts: Seq<TClassModel>, v: Seq<(crate::token::TokenKind, ValueModel)>)
    requires
        forall|i: int| 0 <= i < ts.len() ==> plain_tclass(#[trigger] ts[i]),
        v.len() > 0,
        v[0].0 == crate::token::TokenKind::ListBegin || v[0].0 == crate::token::TokenKind::MapBegin,
    ensures
        crate::parser::mdefs(tclasses_tokens(ts) + v, 0) == ts.map_values(|t: TClassModel| tclass_def(t)),
        crate::parser::mdefs_end(tclasses_tokens(ts) + v, 0) == tclasses_tokens(ts).len(),
        forall|j: int|
            0 <= j < tclasses_tokens(ts).len() && ((tclasses_tokens(ts) + v)[j].0 == crate::token::TokenKind::TClassBegin
                || (tclasses_tokens(ts) + v)[j].0 == crate::token::TokenKind::Field) ==> (#[trigger] (tclasses_tokens(ts)
                + v)[j]).1 is Str,
    decreases ts.len(),
{
    let ms = tclasses_tokens(ts) + v;
    if ts.len() == 0 {
        assert(ms =~= v);
        assert(ts.map_values(|t: TClassModel| tclass_def(t)) =~= Seq::<(Seq<char>, Seq<Seq<char>>)>::empty());
    } else {
        let t0 = ts[0];
        assert(plain_tclass(t0));
        let x = tclass_tokens(t0);
        let rest = ts.skip(1);
        let y = tclasses_tokens(rest) + v;
        assert(ms =~= x + y);
        let k = t0.1.len() as int;
        assert forall|i: int| 0 <= i < rest.len() implies plain_tclass(#[trigger] rest[i]) by {
            assert(rest[i] == ts[i + 1]);
        }
        lemma_mdefs_tclasses(rest, v);
        assert(x.len() == k + 2);
        assert forall|j: int| 1 <= j < 1 + k implies (#[trigger] ms[j]).0 == crate::token::TokenKind::Field by {
            assert(ms[j] == x[j]);
        }
        assert(ms[k + 1] == x[k + 1]);
        lemma_mfield_count_at(ms, 1, k);
        assert(ms[0] == x[0]);
        lemma_mdefs_shift(x, y, 0);
        assert(Seq::new(k as nat, |j: int| crate::parser::model_str(ms[1 + j].1)) =~= tclass_def(t0).1) by {
            assert forall|j: int| 0 <= j < k implies crate::parser::model_str(ms[1 + j].1) == tclass_def(t0).1[j] by {
                assert(ms[1 + j] == x[1 + j]);
            }
        }
        assert(ts.map_values(|t: TClassModel| tclass_def(t)) =~= seq![tclass_def(t0)] + rest.map_values(
            |t: TClassModel| tclass_def(t),
        ));
        assert forall|j: int|
            0 <= j < tclasses_tokens(ts).len() && (ms[j].0 == crate::token::TokenKind::TClassBegin || ms[j].0
                == crate::token::TokenKind::Field) implies (#[trigger] ms[j]).1 is Str by {
            if j < x.len() {
                assert(ms[j] == x[j]);
            } else {
                assert(ms[j] == y[j - x.len()]);
            }
        }
    }
}

/// Writing a document whose tclasses read back from their definitions
/// (see `plain_tclass`; of distinct ttypes) and whose value is a list or a
/// map of plain data (see `plain_value`), with or without a file comment
/// and with no imports, gives a text that reads back as a document with
/// the same tclasses and the same value (see `plain_document`), under the
/// same header and with the same file comment.
#[verifier::rlimit(100)]
pub proof fn law_plain_document_survives_writing(m: UxfModel)
    requires
        !m.custom.contains('\n'),
        trimmed(m.custom) == m.custom,
        m.imports.len() == 0,
        forall|i: int| 0 <= i < m.tclasses.len() ==> plain_tclass(#[trigger] m.tclasses[i]),
        forall|i: int, j: int| 0 <= i < j < m.tclasses.len() ==> (#[trigger] m.tclasses[i]).0 != (#[trigger] m.tclasses[j]).0,
        m.value is List || m.value is UxfMap,
        plain_value(m.value),
    ensures
        crate::parser::plain_document(uxf_text(m)) == Some((m.tclasses, m.value)),
        match first_newline(uxf_text(m)) {
            Some(nl) => header_of(uxf_text(m).take(nl)) == Ok::<(u16, Seq<char>), u16>((1u16, m.custom)),
            None => false,
        },
        file_comment(uxf_text(m)) == (if m.comment.len() > 0 {
            Some(m.comment)
        } else {
            None::<Seq<char>>
        }),
{
    law_custom_survives_writing(m);
    law_comment_survives_writing(m);
    let text = uxf_text(m);
    let h = header_text(m.custom);
    let cm = if m.comment.len() > 0 {
        comment_text(m.comment) + seq!['\n']
    } else {
        seq![]
    };
    let ts = m.tclasses;
    let t = crate::value::value_text(m.value);
    assert(unique_imports(m.imports) =~= Seq::<Seq<char>>::empty());
    assert(imports_text(unique_imports(m.imports)) =~= Seq::<char>::empty());
    assert(entry_keys(m.imports) =~= Seq::<Seq<char>>::empty());
    let tt = tclasses_text(ts, seq![]);
    assert(text =~= h + cm + tt + t + seq!['\n']);
    let p = h.len() as int;
    let a0 = p + cm.len();
    let b = a0 + tt.len();
    let e = b + t.len();
    assert(text[p - 1] == '\n');
    if m.value is List {
        let l = m.value->List_0;
        assert(crate::value::list_head(l) =~= seq!['[']);
        assert(t == seq!['['] + crate::value::joined_text(l.values, '\n') + seq![']']);
    } else {
        let mm = m.value->UxfMap_0;
        assert(crate::value::map_head(mm) =~= seq!['{']);
        assert(t == seq!['{'] + crate::value::items_text(mm.items) + seq!['}']);
    }
    assert(text[b] == t[0]);
    lemma_tclasses_text_start(ts, seq![]);
    if tt.len() > 0 {
        assert(text[a0] == tt[0]);
    }
    assert(text[a0] == '=' || text[a0] == '[' || text[a0] == '{');
    assert(ws_end(text, a0) == a0);
    assert(text.subrange(a0, b) =~= tt);
    assert(text.subrange(b, e) =~= t);
    assert(text[e] == '\n');
    if m.comment.len() > 0 {
        let es = escaped(m.comment);
        let q = p + 2 + es.len();
        assert(cm =~= seq!['#', '<'] + es + seq!['>', '\n']);
        assert(text[p] == '#' && text[p + 1] == '<');
        law_escaped_has_no_angle_brackets(m.comment);
        assert forall|k: int| p + 2 <= k < q implies text[k] != '>' by {
            assert(text[k] == es[k - p - 2]);
        }
        assert(text[q] == '>');
        lemma_index_from_at(text, p + 2, q, '>');
        assert(q + 2 == a0);
        assert(text[q + 1] == '\n');
        assert(ws_end(text, p) == p);
        assert(ws_end(text, p - 1) == p);
        assert(after_header(text) == p);
        assert(crate::lexer::imports_start(text) == a0 - 1);
        assert(ws_end(text, a0 - 1) == a0);
        assert(!crate::lexer::import_line_at(text, a0 - 1));
        assert(crate::lexer::after_imports(text) == a0 - 1);
        assert(crate::lexer::ws_between(text, a0 - 1, a0));
        crate::lexer::lemma_def_ws(text, a0 - 1, a0, false);
    } else {
        assert(a0 == p);
        assert(ws_end(text, p - 1) == p);
        assert(after_header(text) == p);
        assert(crate::lexer::imports_start(text) == a0);
        assert(!crate::lexer::import_line_at(text, a0));
        assert(crate::lexer::after_imports(text) == a0);
    }
    assert(crate::lexer::imports_from(text, crate::lexer::imports_start(text)).len() == 0);
    lemma_plain_tokens_value(text, b, m.value);
    assert(crate::lexer::plain_tokens(text, e + 1) == Some(Seq::<(crate::token::TokenKind, ValueModel)>::empty()));
    assert(crate::lexer::plain_tokens(text, e) == crate::lexer::plain_tokens(text, e + 1));
    let vt = value_tokens(m.value);
    assert(crate::lexer::plain_tokens(text, b) == Some(vt)) by {
        assert(vt + Seq::<(crate::token::TokenKind, ValueModel)>::empty() =~= vt);
    }
    lemma_def_tclasses(text, a0, ts);
    let tk = tclasses_tokens(ts);
    let ms = tk + vt;
    assert(crate::lexer::def_tokens(text, crate::lexer::after_imports(text), false) == Some(ms));
    assert(vt[0].0 == crate::token::TokenKind::ListBegin || vt[0].0 == crate::token::TokenKind::MapBegin);
    lemma_mdefs_tclasses(ts, vt);
    let ds = crate::parser::mdefs(ms, 0);
    assert forall|i: int| 0 <= i < ds.len() implies crate::parser::mdef_ok(#[trigger] ds[i]) by {
        assert(ds[i] == tclass_def(ts[i]));
        assert(plain_tclass(ts[i]));
    }
    assert forall|i: int, j: int| 0 <= i < j < ds.len() implies (#[trigger] ds[i]).0 != (#[trigger] ds[j]).0 by {
        assert(ds[i] == tclass_def(ts[i]));
        assert(ds[j] == tclass_def(ts[j]));
    }
    assert(ms[tk.len() as int] == vt[0]);
    assert(crate::parser::mdefs_ok(ms, 0));
    crate::parser::lemma_list_run_shift(tk, vt, 0, seq![], None);
    lemma_run_value(vt, 0, seq![], m.value);
    assert(ds.map_values(|d: (Seq<char>, Seq<Seq<char>>)| crate::parser::mdef_tclass(d)) =~= ts) by {
        assert forall|i: int| 0 <= i < ts.len() implies crate::parser::mdef_tclass(#[trigger] ds[i]) == ts[i] by {
            let ti = ts[i];
            assert(ds[i] == tclass_def(ti));
            assert(plain_tclass(ti));
            assert(crate::parser::mdef_tclass(ds[i]).1 =~= ti.1) by {
                assert forall|j: int| 0 <= j < ti.1.len() implies crate::parser::mdef_tclass(ds[i]).1[j] == ti.1[j] by {
                    assert(plain_name((ti.1[j]).0) && ti.1[j].1 is None);
                }
            }
            assert(ti.2 =~= Seq::<char>::empty());
        }
    }
}


/// Two documents whose custom header texts differ are never equivalent,
/// whatever the comparison ignores (so `==` is false on them too).
pub proof fn law_custom_texts_differ(a: UxfModel, b: UxfModel, compare: Compare)
    requires
        a.custom != b.custom,
    ensures
        !uxf_equivalent(a, b, compare),
        !uxf_equivalent(a, b, Compare { bits: 0 }),
{
}

/// Two documents whose file comments differ are not equivalent unless the
/// comparison ignores comments.
pub proof fn law_comments_differ(a: UxfModel, b: UxfModel, compare: Compare)
    requires
        a.comment != b.comment,
        !compare.ignores_comments_spec(),
    ensures
        !uxf_equivalent(a, b, compare),
{
}
} // verus!
