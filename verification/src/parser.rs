//! Parsing UXF text into a `Uxf`: the file comment, the imports, the
//! tclass definitions, and the data, with type checks (and repairs of
//! mistyped values) as the data is read.
//!
//! Imports of files and URLs need reading; the caller reads and parses
//! each one (see `import_names`) and hands the outcome in. System imports
//! (`complex`, `fraction`, `numeric`) need nothing.
use crate::error::UxfError;
use crate::event::Event;
use crate::field::make_fields_x;
use crate::header::{first_newline, header_of, header_message};
use crate::imports::{
    entry_keys, import_entries, index_map_clear, index_map_contains_key, index_map_insert, index_map_key_at, index_map_len, index_map_new,
    index_map_value_at, keys_unique,
};
use crate::lexer::{
    after_comment_index, comment_only_body, empty_body, after_header, char_after, comment_syntax_error, comment_syntax_message, file_comment, file_comment_alone, import_run, import_token, imports_alone, imports_from, imports_start,
    scalar_tokens, tokenize, Lexed,
};
use crate::tclass::{TClass, TClassBuilder, TClassModel};
use crate::tclasses::{tclass_models, ttypes_of, ttypes_sorted, TClasses};
use crate::text::{chars_of, debug_str, push_str, to_lowercase};
use crate::check::vtype_error;
use crate::consts::{is_ktype_word, is_vtype_word};
use crate::map::{map_put, map_types_error, value_key};
use crate::token::{kind_typename, Token, TokenKind};
use crate::util::str_for_chars;
use crate::uxf::{is_collection_model, tables_defined, Uxf};
use crate::key::KeyModel;
use crate::value::{
    push_value_text, typename_of, value_text, List, ListModel, MapModel, Table, TableModel, UxfMap, Value,
    ValueModel,
};
use crate::visit::{tclasses_in, tclasses_in_items, tclasses_in_records, tclasses_in_values};
use indexmap::IndexMap;
use vstd::prelude::*;

verus! {

/// Whether a value is a list, map, or table.
pub open spec fn is_collection(v: Value) -> bool {
    v is List || v is UxfMap || v is Table
}

/// The texts of some strings.
pub open spec fn names_of(v: Seq<String>) -> Seq<Seq<char>> {
    v.map_values(|s: String| s@)
}

/// Whether every name of `a` is a name of `b`.
pub open spec fn names_kept(a: Seq<String>, b: Seq<String>) -> bool {
    forall|x: Seq<char>| names_of(a).contains(x) ==> #[trigger] names_of(b).contains(x)
}

/// Removing the tclass of one ttype keeps those of the others.
proof fn lemma_removed_keeps(before: Seq<TClassModel>, after: Seq<TClassModel>, ttype: Seq<char>)
    requires
        ttypes_of(before).contains(ttype) ==> exists|i: int|
            0 <= i < before.len() && before[i].0 == ttype && after == before.remove(i),
        !ttypes_of(before).contains(ttype) ==> after == before,
    ensures
        forall|x: Seq<char>| x != ttype && ttypes_of(before).contains(x) ==> #[trigger] ttypes_of(after).contains(x),
{
    if ttypes_of(before).contains(ttype) {
        let i = choose|i: int| 0 <= i < before.len() && before[i].0 == ttype && after == before.remove(i);
        assert forall|x: Seq<char>| x != ttype && ttypes_of(before).contains(x) implies #[trigger] ttypes_of(
            after,
        ).contains(x) by {
            let j = choose|j: int| 0 <= j < ttypes_of(before).len() && ttypes_of(before)[j] == x;
            if j < i {
                assert(ttypes_of(after)[j] == x);
            } else {
                assert(j != i);
                assert(ttypes_of(after)[j - 1] == x);
            }
        }
    }
}

/// Whether every table in `v` has a ttype among `names`.
pub open spec fn tables_named_in(v: ValueModel, names: Seq<Seq<char>>) -> bool {
    forall|k: int| 0 <= k < tclasses_in(v).len() ==> names.contains(#[trigger] tclasses_in(v)[k].0)
}

/// Whether every table inside an open collection (the records and
/// pending values of a table, and the table itself) has a ttype among
/// `names`.
pub open spec fn open_named(v: Value, names: Seq<Seq<char>>) -> bool {
    match v {
        Value::List(l) => forall|j: int| 0 <= j < l@.values.len() ==> tables_named_in(#[trigger] l@.values[j], names),
        Value::UxfMap(m) => forall|j: int|
            0 <= j < m@.items.len() ==> tables_named_in(#[trigger] m@.items[j].1, names),
        Value::Table(t) => {
            &&& names.contains(t@.tclass.0)
            &&& forall|r: int, j: int|
                0 <= r < t@.records.len() && 0 <= j < t@.records[r].len() ==> tables_named_in(
                    #[trigger] t@.records[r][j],
                    names,
                )
            &&& forall|j: int| 0 <= j < t.pending().len() ==> tables_named_in(#[trigger] t.pending()[j], names)
        },
        _ => true,
    }
}

proof fn lemma_values_named(vs: Seq<ValueModel>, names: Seq<Seq<char>>)
    requires
        forall|j: int| 0 <= j < vs.len() ==> tables_named_in(#[trigger] vs[j], names),
    ensures
        forall|k: int|
            0 <= k < tclasses_in_values(vs).len() ==> names.contains(#[trigger] tclasses_in_values(vs)[k].0),
    decreases vs.len(),
{
    if vs.len() > 0 {
        lemma_values_named(vs.drop_last(), names);
        let a = tclasses_in_values(vs.drop_last());
        let b = tclasses_in(vs.last());
        assert(tables_named_in(vs[vs.len() - 1], names));
        assert(tclasses_in_values(vs) == a + b);
        assert forall|k: int| 0 <= k < tclasses_in_values(vs).len() implies names.contains(
            #[trigger] tclasses_in_values(vs)[k].0,
        ) by {
            if k < a.len() {
                assert(tclasses_in_values(vs)[k] == a[k]);
            } else {
                assert(tclasses_in_values(vs)[k] == b[k - a.len()]);
            }
        }
    }
}

proof fn lemma_items_named(items: Seq<(KeyModel, ValueModel)>, names: Seq<Seq<char>>)
    requires
        forall|j: int| 0 <= j < items.len() ==> tables_named_in(#[trigger] items[j].1, names),
    ensures
        forall|k: int|
            0 <= k < tclasses_in_items(items).len() ==> names.contains(#[trigger] tclasses_in_items(items)[k].0),
    decreases items.len(),
{
    if items.len() > 0 {
        lemma_items_named(items.drop_last(), names);
        let a = tclasses_in_items(items.drop_last());
        let b = tclasses_in(items.last().1);
        assert(tables_named_in(items[items.len() - 1].1, names));
        assert(tclasses_in_items(items) == a + b);
        assert forall|k: int| 0 <= k < tclasses_in_items(items).len() implies names.contains(
            #[trigger] tclasses_in_items(items)[k].0,
        ) by {
            if k < a.len() {
                assert(tclasses_in_items(items)[k] == a[k]);
            } else {
                assert(tclasses_in_items(items)[k] == b[k - a.len()]);
            }
        }
    }
}

proof fn lemma_records_named(rs: Seq<Seq<ValueModel>>, names: Seq<Seq<char>>)
    requires
        forall|r: int, j: int| 0 <= r < rs.len() && 0 <= j < rs[r].len() ==> tables_named_in(#[trigger] rs[r][j], names),
    ensures
        forall|k: int|
            0 <= k < tclasses_in_records(rs).len() ==> names.contains(#[trigger] tclasses_in_records(rs)[k].0),
    decreases rs.len(),
{
    if rs.len() > 0 {
        lemma_records_named(rs.drop_last(), names);
        let last = rs[rs.len() - 1];
        assert forall|j: int| 0 <= j < last.len() implies tables_named_in(#[trigger] last[j], names) by {
            assert(tables_named_in(rs[rs.len() - 1][j], names));
        }
        lemma_values_named(last, names);
        let a = tclasses_in_records(rs.drop_last());
        let b = tclasses_in_values(last);
        assert(tclasses_in_records(rs) == a + b);
        assert forall|k: int| 0 <= k < tclasses_in_records(rs).len() implies names.contains(
            #[trigger] tclasses_in_records(rs)[k].0,
        ) by {
            if k < a.len() {
                assert(tclasses_in_records(rs)[k] == a[k]);
            } else {
                assert(tclasses_in_records(rs)[k] == b[k - a.len()]);
            }
        }
    }
}

/// Closing a collection whose parts name only `names` gives a value whose
/// tables all do.
proof fn lemma_closed_named(v: Value, names: Seq<Seq<char>>)
    requires
        is_collection(v),
        open_named(v, names),
    ensures
        tables_named_in(v@, names),
{
    crate::value::lemma_value_view(v);
    match v {
        Value::List(l) => {
            lemma_values_named(l@.values, names);
            assert(tclasses_in(v@) == tclasses_in_values(l@.values));
        },
        Value::UxfMap(m) => {
            lemma_items_named(m@.items, names);
            assert(tclasses_in(v@) == tclasses_in_items(m@.items));
        },
        Value::Table(t) => {
            lemma_records_named(t@.records, names);
            let a = seq![t@.tclass];
            let b = tclasses_in_records(t@.records);
            assert(tclasses_in(v@) == a + b);
            assert forall|k: int| 0 <= k < tclasses_in(v@).len() implies names.contains(
                #[trigger] tclasses_in(v@)[k].0,
            ) by {
                if k < 1 {
                    assert(tclasses_in(v@)[k] == t@.tclass);
                } else {
                    assert(tclasses_in(v@)[k] == b[k - 1]);
                }
            }
        },
        _ => {},
    }
}

/// A scalar holds no tables.
proof fn lemma_scalar_named(v: ValueModel, names: Seq<Seq<char>>)
    requires
        !is_collection_model(v),
    ensures
        tables_named_in(v, names),
{
    assert(tclasses_in(v) == Seq::<TClassModel>::empty());
}

/// What holds for some names holds for more.
proof fn lemma_open_named_more(stack: Seq<Value>, n1: Seq<Seq<char>>, n2: Seq<Seq<char>>)
    requires
        forall|i: int| 0 <= i < stack.len() ==> open_named(#[trigger] stack[i], n1),
        forall|x: Seq<char>| n1.contains(x) ==> #[trigger] n2.contains(x),
    ensures
        forall|i: int| 0 <= i < stack.len() ==> open_named(#[trigger] stack[i], n2),
{
    assert forall|i: int| 0 <= i < stack.len() implies open_named(#[trigger] stack[i], n2) by {
        assert(open_named(stack[i], n1));
        match stack[i] {
            Value::List(l) => {
                assert forall|j: int| 0 <= j < l@.values.len() implies tables_named_in(
                    #[trigger] l@.values[j],
                    n2,
                ) by {
                    assert(tables_named_in(l@.values[j], n1));
                }
            },
            Value::UxfMap(m) => {
                assert forall|j: int| 0 <= j < m@.items.len() implies tables_named_in(
                    #[trigger] m@.items[j].1,
                    n2,
                ) by {
                    assert(tables_named_in(m@.items[j].1, n1));
                }
            },
            Value::Table(t) => {
                assert forall|r: int, j: int|
                    0 <= r < t@.records.len() && 0 <= j < t@.records[r].len() implies tables_named_in(
                    #[trigger] t@.records[r][j],
                    n2,
                ) by {
                    assert(tables_named_in(t@.records[r][j], n1));
                }
                assert forall|j: int| 0 <= j < t.pending().len() implies tables_named_in(
                    #[trigger] t.pending()[j],
                    n2,
                ) by {
                    assert(tables_named_in(t.pending()[j], n1));
                }
            },
            _ => {},
        }
    }
}

/// How to treat tclasses when parsing (a set of flags).
#[derive(Clone, Copy, Debug, PartialEq, Eq, Structural, Default)]
pub struct ParserOptions {
    pub bits: u8,
}

impl ParserOptions {
    /// Keep imports and every tclass.
    pub fn standard() -> (o: ParserOptions)
        ensures
            o.bits == 0,
    {
        ParserOptions { bits: 0 }
    }

    /// Drop tclasses that no table uses.
    pub fn drop_unused_ttypes() -> (o: ParserOptions)
        ensures
            o.bits == 1,
    {
        ParserOptions { bits: 1 }
    }

    /// Drop the imports (keeping the imported tclasses that tables use).
    pub fn replace_imports() -> (o: ParserOptions)
        ensures
            o.bits == 2,
    {
        ParserOptions { bits: 2 }
    }

    /// Both: drop unused tclasses and replace imports.
    pub fn as_standalone() -> (o: ParserOptions)
        ensures
            o.bits == 3,
    {
        ParserOptions { bits: 3 }
    }
}

/// The outcome of an import that the caller read and parsed.
#[derive(Debug)]
pub enum Imported {
    /// The tclasses that the import defines.
    TClasses(Vec<TClass>),
    /// The import was imported already (so it is skipped).
    Already,
    /// The import failed with this error code and message (which the
    /// parser reports at the import's line).
    Failed(u16, String),
}

/// A parsed document and the warnings and repairs met on the way.
#[derive(Debug)]
pub struct Parsed {
    pub uxf: Uxf,
    pub events: Vec<Event>,
}

/// The parts of the parser's state that outlive single tokens.
struct Parser {
    filename: String,
    lino: usize,
    is_import: bool,
    tclasses: TClasses,
    imports: IndexMap<String, String>,
    used: Vec<String>,
    events: Vec<Event>,
}

/// Whether two strs are equal.
fn same_str(a: &str, b: &str) -> (r: bool)
    ensures
        r == (a@ == b@),
{
    let cs = chars_of(a);
    crate::consts::is_word(cs.as_slice(), b)
}

/// Whether `s` is one of the vtype names.
fn is_vtype(s: &str) -> (b: bool)
    ensures
        b == crate::consts::is_vtype_word(s@),
{
    let cs = chars_of(s);
    crate::consts::is_vtype_name(cs.as_slice())
}

/// Returns the chars of `s` as a `String` and whether `s` starts with
/// `prefix`.
fn starts_with(s: &str, prefix: &str) -> (b: bool)
    ensures
        b == (s@.len() >= prefix@.len() && s@.take(prefix@.len() as int) == prefix@),
{
    let cs = chars_of(s);
    let ps = chars_of(prefix);
    if cs.len() < ps.len() {
        return false;
    }
    let mut i: usize = 0;
    while i < ps.len()
        invariant
            i <= ps@.len() <= cs@.len(),
            cs@ == s@,
            ps@ == prefix@,
            forall|k: int| 0 <= k < i ==> cs@[k] == ps@[k],
        decreases ps@.len() - i,
    {
        if cs[i] != ps[i] {
            assert(s@.take(prefix@.len() as int)[i as int] != prefix@[i as int]);
            return false;
        }
        i += 1;
    }
    assert(s@.take(prefix@.len() as int) =~= prefix@);
    true
}

/// Whether `s` holds the char `c`.
fn has_char(s: &str, c: char) -> (b: bool)
    ensures
        b == s@.contains(c),
{
    let cs = chars_of(s);
    let i = crate::numbers::find_char(cs.as_slice(), c);
    proof {
        lemma_index_of_char_contains(s@, c);
    }
    i < cs.len()
}

proof fn lemma_index_of_char_contains(s: Seq<char>, c: char)
    ensures
        (crate::numbers::index_of_char(s, c) < s.len()) == s.contains(c),
        crate::numbers::index_of_char(s, c) <= s.len(),
    decreases s.len(),
{
    if s.len() > 0 {
        lemma_index_of_char_contains(s.drop_last(), c);
        if s.drop_last().contains(c) {
            let j = choose|j: int| 0 <= j < s.drop_last().len() && s.drop_last()[j] == c;
            assert(s[j] == c);
        }
        if s.contains(c) {
            let j = choose|j: int| 0 <= j < s.len() && s[j] == c;
            if j < s.len() - 1 {
                assert(s.drop_last()[j] == c);
            }
        }
    }
}

/// Whether `v` holds `s`.
fn contains_string(v: &Vec<String>, s: &str) -> (b: bool)
    ensures
        b == exists|i: int| 0 <= i < v@.len() && (#[trigger] v@[i])@ == s@,
{
    let mut i: usize = 0;
    while i < v.len()
        invariant
            i <= v@.len(),
            forall|k: int| 0 <= k < i ==> (#[trigger] v@[k])@ != s@,
        decreases v@.len() - i,
    {
        if same_str(v[i].as_str(), s) {
            return true;
        }
        i += 1;
    }
    false
}

/// The names, separated by single spaces.
pub open spec fn spaced(names: Seq<Seq<char>>) -> Seq<char>
    decreases names.len(),
{
    if names.len() == 0 {
        seq![]
    } else if names.len() == 1 {
        names[0]
    } else {
        spaced(names.drop_last()) + seq![' '] + names.last()
    }
}

/// `{what} ttype: a` or `{what} ttypes: a b ...`.
fn ttypes_message(what: &str, ttypes: &Vec<String>) -> (r: String)
    ensures
        r@ == what@ + " ttype"@ + (if ttypes@.len() != 1 {
            seq!['s']
        } else {
            seq![]
        }) + ": "@ + spaced(names_of(ttypes@)),
{
    let mut m: Vec<char> = Vec::new();
    push_str(&mut m, what);
    push_str(&mut m, " ttype");
    if ttypes.len() != 1 {
        m.push('s');
    }
    push_str(&mut m, ": ");
    let ghost head = m@;
    let mut i: usize = 0;
    while i < ttypes.len()
        invariant
            i <= ttypes@.len(),
            m@ == head + spaced(names_of(ttypes@).take(i as int)),
        decreases ttypes@.len() - i,
    {
        let ghost before = m@;
        if i > 0 {
            m.push(' ');
        }
        push_str(&mut m, ttypes[i].as_str());
        proof {
            let ns = names_of(ttypes@);
            assert(ns.take(i + 1).drop_last() =~= ns.take(i as int));
            assert(ns.take(i + 1).last() == ttypes@[i as int]@);
            if i == 0 {
                assert(spaced(ns.take(0)) =~= Seq::<char>::empty());
                assert(m@ =~= head + spaced(ns.take(1)));
            } else {
                assert(m@ =~= head + spaced(ns.take(i + 1)));
            }
        }
        i += 1;
    }
    proof {
        reveal_strlit(" ttype");
        reveal_strlit(": ");
        assert(names_of(ttypes@).take(i as int) =~= names_of(ttypes@));
    }
    str_for_chars(m.as_slice())
}

/// What the innermost open collection expects next (empty for any type).
pub open spec fn expected_of(stack: Seq<Value>) -> Seq<char> {
    if stack.len() == 0 {
        seq![]
    } else {
        match stack.last() {
            Value::List(l) => l@.vtype,
            Value::UxfMap(m) => if m.pending() is None {
                m@.ktype
            } else {
                m@.vtype
            },
            Value::Table(t) => if t@.tclass.1.len() == 0 {
                seq![]
            } else {
                match t@.tclass.1[t.pending().len() as int].1 {
                    Some(vt) => vt,
                    None => seq![],
                }
            },
            _ => seq![],
        }
    }
}

/// Whether a value is mistyped where `expected` is expected: it is not
/// null, something is expected, and it is not of that vtype (or the
/// expected name is not a known ttype).
pub open spec fn mistyped(tclasses: Seq<TClassModel>, value: Value, expected: Seq<char>) -> bool {
    &&& !(value is Null)
    &&& expected.len() > 0
    &&& if is_vtype_word(expected) {
        typename_of(value@) != expected
    } else {
        !ttypes_of(tclasses).contains(expected)
    }
}

/// Whether every ttype of `a` is a ttype of `b`.
pub open spec fn ttypes_kept(a: Seq<TClassModel>, b: Seq<TClassModel>) -> bool {
    forall|x: Seq<char>| ttypes_of(a).contains(x) ==> #[trigger] ttypes_of(b).contains(x)
}

/// Whether the entries hold one with this key and value.
pub open spec fn has_entry(es: Seq<(Seq<char>, Seq<char>)>, key: Seq<char>, value: Seq<char>) -> bool {
    exists|j: int| 0 <= j < es.len() && es[j] == (key, value)
}

/// The outcome that the caller gave for the first entry of this name.
pub open spec fn outcome_for(es: Seq<(String, Imported)>, name: Seq<char>) -> Option<Imported>
    decreases es.len(),
{
    if es.len() == 0 {
        None
    } else if es[0].0@ == name {
        Some(es[0].1)
    } else {
        outcome_for(es.skip(1), name)
    }
}

/// Whether an import name names a system import: no URL, and no `.`.
pub open spec fn is_system_import(name: Seq<char>) -> bool {
    !(name.len() >= 7 && name.take(7) == "http://"@) && !(name.len() >= 8 && name.take(8) == "https://"@)
        && !name.contains('.')
}

/// Putting a tclass in where its ttype was (keeping that ttype) or at a
/// new place keeps every ttype.
proof fn lemma_ttypes_kept(old: Seq<TClassModel>, new: Seq<TClassModel>, t: TClassModel)
    requires
        (exists|i: int| 0 <= i < old.len() && old[i].0 == t.0 && new == old.update(i, t)) || (exists|p: int|
            0 <= p <= old.len() && new == old.insert(p, t)),
    ensures
        ttypes_kept(old, new),
        ttypes_of(new).contains(t.0),
        forall|x: Seq<char>| #[trigger] ttypes_of(new).contains(x) ==> ttypes_of(old).contains(x) || x == t.0,
{
    if exists|i: int| 0 <= i < old.len() && old[i].0 == t.0 && new == old.update(i, t) {
        let i = choose|i: int| 0 <= i < old.len() && old[i].0 == t.0 && new == old.update(i, t);
        assert(ttypes_of(new)[i] == t.0);
        assert forall|x: Seq<char>| ttypes_of(old).contains(x) implies #[trigger] ttypes_of(new).contains(x) by {
            let j = choose|j: int| 0 <= j < ttypes_of(old).len() && ttypes_of(old)[j] == x;
            assert(ttypes_of(new)[j] == x);
        }
        assert forall|x: Seq<char>| #[trigger] ttypes_of(new).contains(x) implies ttypes_of(old).contains(x)
            || x == t.0 by {
            let j = choose|j: int| 0 <= j < ttypes_of(new).len() && ttypes_of(new)[j] == x;
            if j != i {
                assert(ttypes_of(old)[j] == x);
            }
        }
    } else {
        let p = choose|p: int| 0 <= p <= old.len() && new == old.insert(p, t);
        assert(ttypes_of(new)[p] == t.0);
        assert forall|x: Seq<char>| ttypes_of(old).contains(x) implies #[trigger] ttypes_of(new).contains(x) by {
            let j = choose|j: int| 0 <= j < ttypes_of(old).len() && ttypes_of(old)[j] == x;
            if j < p {
                assert(ttypes_of(new)[j] == x);
            } else {
                assert(ttypes_of(new)[j + 1] == x);
            }
        }
        assert forall|x: Seq<char>| #[trigger] ttypes_of(new).contains(x) implies ttypes_of(old).contains(x)
            || x == t.0 by {
            let j = choose|j: int| 0 <= j < ttypes_of(new).len() && ttypes_of(new)[j] == x;
            if j < p {
                assert(ttypes_of(old)[j] == x);
            } else if j > p {
                assert(ttypes_of(old)[j - 1] == x);
            }
        }
    }
}

/// Whether the tclasses that a file import brings can all be added: no
/// ttype among them is already defined, and no two of them share one.
pub open spec fn imports_fit(tclasses: Seq<TClassModel>, ts: Seq<TClass>) -> bool {
    forall|k: int|
        0 <= k < ts.len() ==> !ttypes_of(tclasses).contains(#[trigger] ts[k]@.0) && forall|j: int|
            0 <= j < k ==> ts[j]@.0 != ts[k]@.0
}

/// The fields (name and vtype) of a system tclass: `Complex` has two
/// reals, `Real` and `Imag`; the other (`Fraction`) two ints,
/// `numerator` and `denominator`.
pub open spec fn system_pairs(ttype: Seq<char>) -> Seq<(Seq<char>, Seq<char>)> {
    if ttype == "Complex"@ {
        seq![("Real"@, "real"@), ("Imag"@, "real"@)]
    } else {
        seq![("numerator"@, "int"@), ("denominator"@, "int"@)]
    }
}

/// Whether the system tclass of this ttype is valid and agrees with any
/// tclass of its ttype already there.
pub open spec fn system_tclass_fits(tclasses: Seq<TClassModel>, ttype: Seq<char>) -> bool {
    &&& crate::field::first_bad_pair(system_pairs(ttype)) is None
    &&& crate::field::fields_error(crate::field::pair_fields(system_pairs(ttype))) is None
    &&& crate::check::ttype_error(ttype) is None
    &&& forall|i: int|
        0 <= i < tclasses.len() && tclasses[i].0 == ttype ==> tclasses[i].1 == crate::field::pair_fields(
            system_pairs(ttype),
        )
}

/// Whether a vtype names a type that may stand there: none, a vtype, or
/// a known ttype.
pub open spec fn vtype_known(tclasses: Seq<TClassModel>, vtype: Seq<char>) -> bool {
    vtype.len() == 0 || is_vtype_word(vtype) || ttypes_of(tclasses).contains(vtype)
}

/// Whether a list may start at this token.
pub open spec fn list_start_ok(tclasses: Seq<TClassModel>, token: Token) -> bool {
    vtype_known(tclasses, token.vtype@) && (token.vtype@.len() == 0 || vtype_error(token.vtype@) is None)
}

/// Whether a map may start at this token.
pub open spec fn map_start_ok(tclasses: Seq<TClassModel>, token: Token) -> bool {
    &&& token.ktype@.len() == 0 || is_ktype_word(token.ktype@)
    &&& vtype_known(tclasses, token.vtype@)
    &&& map_types_error(token.ktype@, token.vtype@) is None
}

/// Whether a table may start at this token where `expected` is expected.
pub open spec fn table_start_ok(tclasses: Seq<TClassModel>, token: Token, expected: Seq<char>) -> bool {
    ttypes_of(tclasses).contains(token.vtype@) && (expected.len() == 0 || expected == "table"@ || expected
        == token.vtype@)
}

/// The values of the tokens from `a` up to `b`.
pub open spec fn token_values(tokens: Seq<Token>, a: int, b: int) -> Seq<ValueModel> {
    Seq::new((b - a) as nat, |k: int| tokens[a + k].value@)
}

/// Whether the tokens from `start` on are a list start with no vtype, `n`
/// scalars, the list's end, and the end of the file.
pub open spec fn flat_list_at(tokens: Seq<Token>, start: int, n: int) -> bool {
    &&& 0 <= start
    &&& 0 <= n
    &&& start + n + 2 < tokens.len()
    &&& tokens[start].kind == TokenKind::ListBegin
    &&& tokens[start].vtype@.len() == 0
    &&& forall|j: int| start < j <= start + n ==> crate::token::is_scalar_kind(#[trigger] tokens[j].kind)
    &&& tokens[start + n + 1].kind == TokenKind::ListEnd
    &&& tokens[start + n + 2].kind == TokenKind::Eof
}

/// The list that such tokens give, with the first `k` of the scalars.
pub open spec fn flat_list_model(tokens: Seq<Token>, start: int, k: int) -> ListModel {
    ListModel { vtype: seq![], comment: tokens[start].comment@, values: token_values(tokens, start + 1, start + 1 + k) }
}

proof fn lemma_token_values_push(tokens: Seq<Token>, a: int, b: int)
    requires
        a <= b,
    ensures
        token_values(tokens, a, b + 1) == token_values(tokens, a, b).push(tokens[b].value@),
{
    assert(token_values(tokens, a, b + 1) =~= token_values(tokens, a, b).push(tokens[b].value@));
}

/// The list with no vtype and no comment that holds `values`.
pub open spec fn plain_list(values: Seq<ValueModel>) -> ValueModel {
    ValueModel::List(ListModel { vtype: seq![], comment: seq![], values })
}

/// The map with no ktype, no vtype and no comment that holds `items`.
pub open spec fn plain_map(items: Seq<(KeyModel, ValueModel)>) -> ValueModel {
    ValueModel::UxfMap(MapModel { ktype: seq![], vtype: seq![], comment: seq![], items })
}

/// A collection still open while data tokens are read: a list with the
/// values read so far, or a map with the items read so far and the key
/// that waits for its value.
pub enum OpenModel {
    InList(Seq<ValueModel>),
    InMap(Seq<(KeyModel, ValueModel)>, Option<KeyModel>),
}

/// What an open collection is once it is closed (a key that still waits
/// for its value is dropped).
pub open spec fn closed_model(o: OpenModel) -> ValueModel {
    match o {
        OpenModel::InList(vs) => plain_list(vs),
        OpenModel::InMap(items, _) => plain_map(items),
    }
}

/// An open collection once a finished value has gone into it: a list
/// takes it as its last value; a map takes it as the key that waits for
/// its value (`None` if it is no key), or, when a key waits, as that key's
/// value (see `map_put`).
pub open spec fn put_value(o: OpenModel, x: ValueModel) -> Option<OpenModel> {
    match o {
        OpenModel::InList(vs) => Some(OpenModel::InList(vs.push(x))),
        OpenModel::InMap(items, None) => match value_key(x) {
            Some(k) => Some(OpenModel::InMap(items, Some(k))),
            None => None,
        },
        OpenModel::InMap(items, Some(k)) => Some(OpenModel::InMap(map_put(items, k, x), None)),
    }
}

/// The open collections once the finished value (if any) has gone into the
/// innermost one; `None` if there is none or it does not take the value.
pub open spec fn stack_after(stack: Seq<OpenModel>, value: Option<ValueModel>) -> Option<Seq<OpenModel>> {
    match value {
        None => Some(stack),
        Some(x) => if stack.len() == 0 {
            None
        } else {
            match put_value(stack.last(), x) {
                Some(o) => Some(stack.update(stack.len() - 1, o)),
                None => None,
            }
        },
    }
}

/// What reading data tokens (kind and value) from `pos` on gives, where
/// `stack` holds the collections still open (innermost last) and `value`
/// is the last value finished: an end of file (or the end of the tokens)
/// gives `value` when no collection is open; otherwise a finished value
/// first goes into the innermost open collection (see `stack_after`), then
/// a list or map start opens a list or map, a collection end closes the
/// innermost open collection, and a scalar inside a collection is a
/// finished value. `None` for anything else (tables, unmatched ends,
/// values outside a collection, map keys that are no keys).
pub open spec fn list_run(
    ts: Seq<(TokenKind, ValueModel)>,
    pos: int,
    stack: Seq<OpenModel>,
    value: Option<ValueModel>,
) -> Option<Option<ValueModel>>
    decreases ts.len() - pos,
{
    if pos < 0 {
        None
    } else if pos >= ts.len() || ts[pos].0 == TokenKind::Eof {
        if stack.len() == 0 {
            Some(value)
        } else {
            None
        }
    } else {
        match stack_after(stack, value) {
            None => None,
            Some(s1) => {
                let k = ts[pos].0;
                if k == TokenKind::ListBegin {
                    list_run(ts, pos + 1, s1.push(OpenModel::InList(seq![])), None)
                } else if k == TokenKind::MapBegin {
                    list_run(ts, pos + 1, s1.push(OpenModel::InMap(seq![], None)), None)
                } else if crate::token::ends_collection(k) {
                    if s1.len() > 0 {
                        list_run(ts, pos + 1, s1.drop_last(), Some(closed_model(s1.last())))
                    } else {
                        None
                    }
                } else if crate::token::is_scalar_kind(k) {
                    if s1.len() > 0 {
                        list_run(ts, pos + 1, s1, Some(ts[pos].1))
                    } else {
                        None
                    }
                } else {
                    None
                }
            },
        }
    }
}

/// Whether every list or map start among the tokens has no ktype, no
/// vtype and no comment.
pub open spec fn plain_list_starts(tokens: Seq<Token>) -> bool {
    forall|i: int|
        0 <= i < tokens.len() && ((#[trigger] tokens[i]).kind == TokenKind::ListBegin || tokens[i].kind
            == TokenKind::MapBegin) ==> tokens[i].ktype@.len() == 0 && tokens[i].vtype@.len() == 0
            && tokens[i].comment@.len() == 0
}

/// What the tokens from `start` on give as nested lists and maps of
/// scalars (see `list_run`), when their list and map starts have no ktype,
/// no vtype and no comment.
pub open spec fn list_data(tokens: Seq<Token>, start: int) -> Option<Option<ValueModel>> {
    if plain_list_starts(tokens) {
        list_run(crate::lexer::token_models(tokens), start, seq![], None)
    } else {
        None
    }
}

/// What a text of plain data gives as a document's value: after the
/// header and an optional file comment, with no imports, the nested lists
/// and maps (of ints, reals, nulls and strs) that its tokens read as (see
/// `list_run`), if they read as some value.
pub open spec fn plain_document_value(text: Seq<char>) -> Option<ValueModel> {
    if crate::lexer::plain_import_body(text) && imports_from(text, imports_start(text)).len() == 0 {
        match list_run(
            crate::lexer::def_tokens(text, crate::lexer::after_imports(text), false)->Some_0,
            0,
            seq![],
            None,
        ) {
            Some(Some(v)) => Some(v),
            _ => None,
        }
    } else {
        None
    }
}

/// Reading tokens after others, from a position among them, is reading
/// them alone from that position.
pub(crate) proof fn lemma_list_run_shift(
    pre: Seq<(TokenKind, ValueModel)>,
    ts: Seq<(TokenKind, ValueModel)>,
    pos: int,
    stack: Seq<OpenModel>,
    value: Option<ValueModel>,
)
    requires
        0 <= pos,
    ensures
        list_run(pre + ts, pre.len() + pos, stack, value) == list_run(ts, pos, stack, value),
    decreases ts.len() - pos,
{
    if pos < ts.len() {
        assert((pre + ts)[pre.len() + pos] == ts[pos]);
        if ts[pos].0 != TokenKind::Eof && stack_after(stack, value) is Some {
            let s1 = stack_after(stack, value)->Some_0;
            let k = ts[pos].0;
            if k == TokenKind::ListBegin {
                lemma_list_run_shift(pre, ts, pos + 1, s1.push(OpenModel::InList(seq![])), None);
            } else if k == TokenKind::MapBegin {
                lemma_list_run_shift(pre, ts, pos + 1, s1.push(OpenModel::InMap(seq![], None)), None);
            } else if crate::token::ends_collection(k) {
                if s1.len() > 0 {
                    lemma_list_run_shift(pre, ts, pos + 1, s1.drop_last(), Some(closed_model(s1.last())));
                }
            } else if crate::token::is_scalar_kind(k) {
                if s1.len() > 0 {
                    lemma_list_run_shift(pre, ts, pos + 1, s1, Some(ts[pos].1));
                }
            }
        }
    }
}

/// What the lexed tokens of a text of plain data give from the data's
/// start is what its plain tokens give.
proof fn lemma_plain_document_data(text: Seq<char>, ts: Seq<Token>, i: int)
    requires
        plain_document_value(text) is Some,
        0 <= i,
        ts.len() > 0,
        ts.last().kind == TokenKind::Eof,
        ts.len() - 1 >= i + imports_from(text, imports_start(text)).len(),
        crate::lexer::token_models(ts.drop_last().skip(i + imports_from(text, imports_start(text)).len()))
            == crate::lexer::def_tokens(text, crate::lexer::after_imports(text), false)->Some_0,
    ensures
        list_run(crate::lexer::token_models(ts), i, seq![], None) == list_run(
            crate::lexer::def_tokens(text, crate::lexer::after_imports(text), false)->Some_0,
            0,
            seq![],
            None,
        ),
        list_run(crate::lexer::token_models(ts), i, seq![], None) matches Some(Some(v)) ==> (v is List
            || v is UxfMap),
{
    let pt = crate::lexer::def_tokens(text, crate::lexer::after_imports(text), false)->Some_0;
    let body = ts.drop_last().skip(i);
    let e = (ts.last().kind, ts.last().value@);
    assert(ts =~= ts.take(i) + body.push(ts.last()));
    assert(crate::lexer::token_models(ts) =~= crate::lexer::token_models(ts.take(i)) + crate::lexer::token_models(
        body,
    ).push(e));
    lemma_list_run_shift(crate::lexer::token_models(ts.take(i)), crate::lexer::token_models(body).push(e), 0, seq![], None);
    lemma_list_run_eof(pt, e, 0, seq![], None);
    lemma_list_run_list(pt, 0, seq![], None);
}

/// Whether a stored value is the open collection: a list or map with no
/// ktype, no vtype and no comment holding what it holds (and, for a map,
/// waiting for the same key).
pub open spec fn open_matches(v: Value, o: OpenModel) -> bool {
    match o {
        OpenModel::InList(vs) => v matches Value::List(l) && l@ == (ListModel { vtype: seq![], comment: seq![], values: vs }),
        OpenModel::InMap(items, k) => v matches Value::UxfMap(m) && m@ == (MapModel {
            ktype: seq![],
            vtype: seq![],
            comment: seq![],
            items,
        }) && m.pending() == k,
    }
}

/// Reading tokens with an end of file token after them gives what reading
/// them alone gives.
proof fn lemma_list_run_eof(ts: Seq<(TokenKind, ValueModel)>, e: (TokenKind, ValueModel), pos: int, stack: Seq<
    OpenModel,
>, value: Option<ValueModel>)
    requires
        e.0 == TokenKind::Eof,
        0 <= pos <= ts.len(),
    ensures
        list_run(ts.push(e), pos, stack, value) == list_run(ts, pos, stack, value),
    decreases ts.len() - pos,
{
    if pos < ts.len() {
        assert(ts.push(e)[pos] == ts[pos]);
        if ts[pos].0 != TokenKind::Eof && stack_after(stack, value) is Some {
            let s1 = stack_after(stack, value)->Some_0;
            let k = ts[pos].0;
            if k == TokenKind::ListBegin {
                lemma_list_run_eof(ts, e, pos + 1, s1.push(OpenModel::InList(seq![])), None);
            } else if k == TokenKind::MapBegin {
                lemma_list_run_eof(ts, e, pos + 1, s1.push(OpenModel::InMap(seq![], None)), None);
            } else if crate::token::ends_collection(k) {
                if s1.len() > 0 {
                    lemma_list_run_eof(ts, e, pos + 1, s1.drop_last(), Some(closed_model(s1.last())));
                }
            } else if crate::token::is_scalar_kind(k) {
                if s1.len() > 0 {
                    lemma_list_run_eof(ts, e, pos + 1, s1, Some(ts[pos].1));
                }
            }
        }
    } else {
        assert(ts.push(e)[pos] == e);
    }
}

/// A value that reading tokens gives, when no collection is open and the
/// last value finished (if any) is a list or a map, is a list or a map.
proof fn lemma_list_run_list(ts: Seq<(TokenKind, ValueModel)>, pos: int, stack: Seq<OpenModel>, value: Option<
    ValueModel,
>)
    requires
        stack.len() == 0 ==> (value is None || value->0 is List || value->0 is UxfMap),
    ensures
        list_run(ts, pos, stack, value) matches Some(Some(v)) ==> (v is List || v is UxfMap),
    decreases ts.len() - pos,
{
    if 0 <= pos < ts.len() && ts[pos].0 != TokenKind::Eof && stack_after(stack, value) is Some {
        let s1 = stack_after(stack, value)->Some_0;
        let k = ts[pos].0;
        if k == TokenKind::ListBegin {
            lemma_list_run_list(ts, pos + 1, s1.push(OpenModel::InList(seq![])), None);
        } else if k == TokenKind::MapBegin {
            lemma_list_run_list(ts, pos + 1, s1.push(OpenModel::InMap(seq![], None)), None);
        } else if crate::token::ends_collection(k) {
            if s1.len() > 0 {
                lemma_list_run_list(ts, pos + 1, s1.drop_last(), Some(closed_model(s1.last())));
            }
        } else if crate::token::is_scalar_kind(k) {
            if s1.len() > 0 {
                lemma_list_run_list(ts, pos + 1, s1, Some(ts[pos].1));
            }
        }
    }
}

/// The text of a str value (empty for any other value).
pub open spec fn str_of(v: Value) -> Seq<char> {
    match v {
        Value::Str(s) => s@,
        _ => Seq::<char>::empty(),
    }
}

/// The fields that the `k` field tokens after `start` give.
pub open spec fn def_fields(tokens: Seq<Token>, start: int, k: int) -> Seq<crate::field::FieldModel> {
    Seq::new(k as nat, |j: int| crate::field::field_model(str_of(tokens[start + 1 + j].value), tokens[start + 1 + j].vtype@))
}

/// The tclass that one definition's tokens from `start` give.
pub open spec fn def_tclass(tokens: Seq<Token>, start: int, k: int) -> TClassModel {
    (str_of(tokens[start].value), def_fields(tokens, start, k), tokens[start].comment@)
}

/// Whether the tokens from `start` on are one valid tclass definition with
/// `k` fields (a begin with a ttype, the fields, an end) followed by no
/// further definition, whose tclass agrees with any tclass of its ttype
/// already among `tclasses`.
pub open spec fn one_def_at(tokens: Seq<Token>, start: int, k: int, tclasses: Seq<TClassModel>) -> bool {
    &&& 0 <= start
    &&& 0 <= k
    &&& start + k + 1 < tokens.len()
    &&& tokens[start].kind == TokenKind::TClassBegin
    &&& tokens[start].value is Str
    &&& forall|j: int| start < j <= start + k ==> (#[trigger] tokens[j]).kind == TokenKind::Field && tokens[j].value is Str
    &&& forall|j: int| 0 <= j < k ==> crate::field::field_error(
        #[trigger] str_of(tokens[start + 1 + j].value),
        tokens[start + 1 + j].vtype@,
    ) is None
    &&& tokens[start + k + 1].kind == TokenKind::TClassEnd
    &&& start + k + 2 < tokens.len() ==> !(tokens[start + k + 2].kind == TokenKind::TClassBegin
        || tokens[start + k + 2].kind == TokenKind::Field || tokens[start + k + 2].kind == TokenKind::TClassEnd)
    &&& crate::field::fields_error(def_fields(tokens, start, k)) is None
    &&& crate::check::ttype_error(str_of(tokens[start].value)) is None
    &&& forall|i: int|
        0 <= i < tclasses.len() && tclasses[i].0 == str_of(tokens[start].value) ==> tclasses[i].1 == def_fields(
            tokens,
            start,
            k,
        )
}

/// How many field tokens follow one another from `i` on.
pub open spec fn field_count(tokens: Seq<Token>, i: int) -> nat
    decreases tokens.len() - i,
{
    if 0 <= i < tokens.len() && tokens[i].kind == TokenKind::Field {
        1 + field_count(tokens, i + 1)
    } else {
        0
    }
}

/// The definitions that the tokens from `pos` on begin with, each by its
/// start and its number of fields: a tclass begin, field tokens, and a
/// tclass end.
pub open spec fn def_groups(tokens: Seq<Token>, pos: int) -> Seq<(int, int)>
    decreases tokens.len() - pos,
{
    if 0 <= pos < tokens.len() && tokens[pos].kind == TokenKind::TClassBegin {
        let k = field_count(tokens, pos + 1) as int;
        if pos + k + 1 < tokens.len() && tokens[pos + k + 1].kind == TokenKind::TClassEnd {
            seq![(pos, k)] + def_groups(tokens, pos + k + 2)
        } else {
            seq![]
        }
    } else {
        seq![]
    }
}

/// Where those definitions end.
pub open spec fn groups_end(tokens: Seq<Token>, pos: int) -> int
    decreases tokens.len() - pos,
{
    if 0 <= pos < tokens.len() && tokens[pos].kind == TokenKind::TClassBegin {
        let k = field_count(tokens, pos + 1) as int;
        if pos + k + 1 < tokens.len() && tokens[pos + k + 1].kind == TokenKind::TClassEnd {
            groups_end(tokens, pos + k + 2)
        } else {
            pos
        }
    } else {
        pos
    }
}

/// Whether one definition's tokens (from `s`, with `k` fields) give a
/// valid tclass: a str ttype that is a valid name, str field names that
/// are valid with their vtypes, and no repeated field.
pub open spec fn group_ok(tokens: Seq<Token>, s: int, k: int) -> bool {
    &&& tokens[s].value is Str
    &&& forall|j: int| 0 <= j < k ==> (#[trigger] tokens[s + 1 + j]).value is Str
    &&& forall|j: int| 0 <= j < k ==> crate::field::field_error(
        #[trigger] str_of(tokens[s + 1 + j].value),
        tokens[s + 1 + j].vtype@,
    ) is None
    &&& crate::field::fields_error(def_fields(tokens, s, k)) is None
    &&& crate::check::ttype_error(str_of(tokens[s].value)) is None
}

/// Whether the tokens from `start` on are valid tclass definitions of
/// distinct ttypes, followed by something that is no part of a definition.
pub open spec fn defs_ok(tokens: Seq<Token>, start: int) -> bool {
    let gs = def_groups(tokens, start);
    let e = groups_end(tokens, start);
    &&& 0 <= start
    &&& forall|i: int| 0 <= i < gs.len() ==> group_ok(tokens, (#[trigger] gs[i]).0, gs[i].1)
    &&& forall|i: int, j: int|
        0 <= i < j < gs.len() ==> str_of(tokens[(#[trigger] gs[i]).0].value) != str_of(tokens[(#[trigger] gs[j]).0].value)
    &&& e < tokens.len() ==> !(tokens[e].kind == TokenKind::TClassBegin || tokens[e].kind == TokenKind::Field
        || tokens[e].kind == TokenKind::TClassEnd)
}

/// The tclasses that those definitions give, in their order.
pub open spec fn defined_tclasses(tokens: Seq<Token>, start: int) -> Seq<TClassModel> {
    def_groups(tokens, start).map_values(|g: (int, int)| def_tclass(tokens, g.0, g.1))
}

/// The text of a str value model (empty for any other value).
pub open spec fn model_str(v: ValueModel) -> Seq<char> {
    match v {
        ValueModel::Str(x) => x,
        _ => seq![],
    }
}

/// How many field tokens (kind and value) follow one another from `i` on.
pub open spec fn mfield_count(ms: Seq<(TokenKind, ValueModel)>, i: int) -> nat
    decreases ms.len() - i,
{
    if 0 <= i < ms.len() && ms[i].0 == TokenKind::Field {
        1 + mfield_count(ms, i + 1)
    } else {
        0
    }
}

/// The tclass definitions (ttype and field names) that tokens (kind and
/// value) from `pos` on begin with: a tclass begin, field tokens and a
/// tclass end each.
pub open spec fn mdefs(ms: Seq<(TokenKind, ValueModel)>, pos: int) -> Seq<(Seq<char>, Seq<Seq<char>>)>
    decreases ms.len() - pos,
{
    if 0 <= pos < ms.len() && ms[pos].0 == TokenKind::TClassBegin {
        let k = mfield_count(ms, pos + 1) as int;
        if pos + k + 1 < ms.len() && ms[pos + k + 1].0 == TokenKind::TClassEnd {
            seq![(model_str(ms[pos].1), Seq::new(k as nat, |j: int| model_str(ms[pos + 1 + j].1)))] + mdefs(
                ms,
                pos + k + 2,
            )
        } else {
            seq![]
        }
    } else {
        seq![]
    }
}

/// Where those definitions end.
pub open spec fn mdefs_end(ms: Seq<(TokenKind, ValueModel)>, pos: int) -> int
    decreases ms.len() - pos,
{
    if 0 <= pos < ms.len() && ms[pos].0 == TokenKind::TClassBegin {
        let k = mfield_count(ms, pos + 1) as int;
        if pos + k + 1 < ms.len() && ms[pos + k + 1].0 == TokenKind::TClassEnd {
            mdefs_end(ms, pos + k + 2)
        } else {
            pos
        }
    } else {
        pos
    }
}

/// The tclass that a definition (ttype and field names, no vtypes, no
/// comment) gives.
pub open spec fn mdef_tclass(d: (Seq<char>, Seq<Seq<char>>)) -> TClassModel {
    (d.0, d.1.map_values(|n: Seq<char>| crate::field::field_model(n, seq![])), seq![])
}

/// Whether a definition (ttype and field names) gives a valid tclass.
pub open spec fn mdef_ok(d: (Seq<char>, Seq<Seq<char>>)) -> bool {
    &&& forall|j: int| 0 <= j < d.1.len() ==> crate::field::field_error(#[trigger] d.1[j], seq![]) is None
    &&& crate::field::fields_error(mdef_tclass(d).1) is None
    &&& crate::check::ttype_error(d.0) is None
}

/// Whether the definitions that tokens (kind and value) from `pos` on
/// begin with are valid, of distinct ttypes, with str names, and followed
/// by something that is no part of a definition.
pub open spec fn mdefs_ok(ms: Seq<(TokenKind, ValueModel)>, pos: int) -> bool {
    let ds = mdefs(ms, pos);
    let e = mdefs_end(ms, pos);
    &&& 0 <= pos
    &&& forall|i: int| 0 <= i < ds.len() ==> mdef_ok(#[trigger] ds[i])
    &&& forall|i: int, j: int| 0 <= i < j < ds.len() ==> (#[trigger] ds[i]).0 != (#[trigger] ds[j]).0
    &&& forall|j: int| pos <= j < e && (ms[j].0 == TokenKind::TClassBegin || ms[j].0 == TokenKind::Field) ==> (
    #[trigger] ms[j]).1 is Str
    &&& e < ms.len() ==> !(ms[e].0 == TokenKind::TClassBegin || ms[e].0 == TokenKind::Field || ms[e].0
        == TokenKind::TClassEnd)
}

proof fn lemma_mfield_count_wrap(
    pre: Seq<(TokenKind, ValueModel)>,
    d: Seq<(TokenKind, ValueModel)>,
    e: (TokenKind, ValueModel),
    p: int,
)
    requires
        e.0 == TokenKind::Eof,
        0 <= p,
    ensures
        mfield_count(pre + d.push(e), pre.len() + p) == mfield_count(d, p),
    decreases d.len() - p,
{
    let ms = pre + d.push(e);
    if p < d.len() {
        assert(ms[pre.len() + p] == d[p]);
        lemma_mfield_count_wrap(pre, d, e, p + 1);
    } else if p == d.len() {
        assert(ms[pre.len() + p] == e);
    }
}

/// The definitions that tokens begin with are those of the same tokens
/// after others and followed by an end of file.
proof fn lemma_mdefs_wrap(
    pre: Seq<(TokenKind, ValueModel)>,
    d: Seq<(TokenKind, ValueModel)>,
    e: (TokenKind, ValueModel),
    p: int,
)
    requires
        e.0 == TokenKind::Eof,
        0 <= p,
    ensures
        mdefs(pre + d.push(e), pre.len() + p) == mdefs(d, p),
        mdefs_end(pre + d.push(e), pre.len() + p) == pre.len() + mdefs_end(d, p),
        p <= mdefs_end(d, p),
        p <= d.len() ==> mdefs_end(d, p) <= d.len(),
    decreases d.len() - p,
{
    let ms = pre + d.push(e);
    let q = pre.len() + p;
    if p < d.len() {
        assert(ms[q] == d[p]);
        if d[p].0 == TokenKind::TClassBegin {
            lemma_mfield_count_wrap(pre, d, e, p + 1);
            let k = mfield_count(d, p + 1) as int;
            if p + k + 1 < d.len() {
                assert(ms[q + k + 1] == d[p + k + 1]);
                if d[p + k + 1].0 == TokenKind::TClassEnd {
                    lemma_mdefs_wrap(pre, d, e, p + k + 2);
                    assert(Seq::new(k as nat, |j: int| model_str(ms[q + 1 + j].1)) =~= Seq::new(
                        k as nat,
                        |j: int| model_str(d[p + 1 + j].1),
                    )) by {
                        assert forall|j: int| 0 <= j < k implies model_str(ms[q + 1 + j].1) == model_str(
                            #[trigger] d[p + 1 + j].1,
                        ) by {
                            assert(ms[q + 1 + j] == d[p + 1 + j]);
                        }
                    }
                }
            } else if p + k + 1 == d.len() {
                assert(ms[q + k + 1] == e);
            }
        }
    } else if p == d.len() {
        assert(ms[q] == e);
    }
}

/// Valid definitions stay valid after other tokens and before an end of
/// file.
proof fn lemma_mdefs_ok_wrap(pre: Seq<(TokenKind, ValueModel)>, d: Seq<(TokenKind, ValueModel)>, e: (TokenKind, ValueModel))
    requires
        e.0 == TokenKind::Eof,
        mdefs_ok(d, 0),
    ensures
        mdefs_ok(pre + d.push(e), pre.len() as int),
{
    let ms = pre + d.push(e);
    lemma_mdefs_wrap(pre, d, e, 0);
    let en = mdefs_end(d, 0);
    assert forall|j: int|
        pre.len() <= j < pre.len() + en && (ms[j].0 == TokenKind::TClassBegin || ms[j].0 == TokenKind::Field) implies (
    #[trigger] ms[j]).1 is Str by {
        assert(ms[j] == d[j - pre.len()]);
    }
    if pre.len() + en < ms.len() {
        if en < d.len() {
            assert(ms[pre.len() + en] == d[en]);
        } else {
            assert(ms[pre.len() + en] == e);
        }
    }
}

proof fn lemma_field_count(tokens: Seq<Token>, i: int)
    requires
        0 <= i,
    ensures
        i + field_count(tokens, i) <= tokens.len() || field_count(tokens, i) == 0,
        forall|j: int| i <= j < i + field_count(tokens, i) ==> (#[trigger] tokens[j]).kind == TokenKind::Field,
        i + field_count(tokens, i) < tokens.len() ==> tokens[i + field_count(tokens, i)].kind != TokenKind::Field,
    decreases tokens.len() - i,
{
    if 0 <= i < tokens.len() && tokens[i].kind == TokenKind::Field {
        lemma_field_count(tokens, i + 1);
    }
}

proof fn lemma_field_count_models(tokens: Seq<Token>, i: int)
    requires
        0 <= i,
    ensures
        field_count(tokens, i) == mfield_count(crate::lexer::token_models(tokens), i),
    decreases tokens.len() - i,
{
    if 0 <= i < tokens.len() {
        lemma_field_count_models(tokens, i + 1);
    }
}

/// The definitions that tokens begin with, read by position and read from
/// the tokens' kinds and values, agree.
proof fn lemma_groups_models(tokens: Seq<Token>, pos: int)
    requires
        0 <= pos,
    ensures
        ({
            let gs = def_groups(tokens, pos);
            let ds = mdefs(crate::lexer::token_models(tokens), pos);
            &&& gs.len() == ds.len()
            &&& groups_end(tokens, pos) == mdefs_end(crate::lexer::token_models(tokens), pos)
            &&& pos <= groups_end(tokens, pos)
            &&& forall|i: int|
                0 <= i < gs.len() ==> {
                    let g = #[trigger] gs[i];
                    &&& pos <= g.0 && 0 <= g.1 && g.0 + g.1 + 2 <= groups_end(tokens, pos) && g.0 + g.1 + 1 < tokens.len()
                    &&& tokens[g.0].kind == TokenKind::TClassBegin
                    &&& forall|j: int| 0 <= j < g.1 ==> (#[trigger] tokens[g.0 + 1 + j]).kind == TokenKind::Field
                    &&& ds[i] == (str_of(tokens[g.0].value), Seq::new(
                        g.1 as nat,
                        |j: int| str_of(tokens[g.0 + 1 + j].value),
                    ))
                }
        }),
    decreases tokens.len() - pos,
{
    let ms = crate::lexer::token_models(tokens);
    if 0 <= pos < tokens.len() && tokens[pos].kind == TokenKind::TClassBegin {
        lemma_field_count_models(tokens, pos + 1);
        lemma_field_count(tokens, pos + 1);
        let k = field_count(tokens, pos + 1) as int;
        if pos + k + 1 < tokens.len() && tokens[pos + k + 1].kind == TokenKind::TClassEnd {
            lemma_groups_models(tokens, pos + k + 2);
            let gs = def_groups(tokens, pos);
            let ds = mdefs(ms, pos);
            let rg = def_groups(tokens, pos + k + 2);
            let rd = mdefs(ms, pos + k + 2);
            assert(gs == seq![(pos, k)] + rg);
            assert(ds == seq![(model_str(ms[pos].1), Seq::new(k as nat, |j: int| model_str(ms[pos + 1 + j].1)))] + rd);
            crate::value::lemma_value_view(tokens[pos].value);
            assert(model_str(ms[pos].1) == str_of(tokens[pos].value));
            assert(Seq::new(k as nat, |j: int| model_str(ms[pos + 1 + j].1)) =~= Seq::new(
                k as nat,
                |j: int| str_of(tokens[pos + 1 + j].value),
            )) by {
                assert forall|j: int| 0 <= j < k implies model_str(ms[pos + 1 + j].1) == str_of(
                    #[trigger] tokens[pos + 1 + j].value,
                ) by {
                    crate::value::lemma_value_view(tokens[pos + 1 + j].value);
                }
            }
            assert forall|i: int| 0 <= i < gs.len() implies {
                let g = #[trigger] gs[i];
                &&& pos <= g.0 && 0 <= g.1 && g.0 + g.1 + 2 <= groups_end(tokens, pos) && g.0 + g.1 + 1 < tokens.len()
                &&& tokens[g.0].kind == TokenKind::TClassBegin
                &&& forall|j: int| 0 <= j < g.1 ==> (#[trigger] tokens[g.0 + 1 + j]).kind == TokenKind::Field
                &&& ds[i] == (str_of(tokens[g.0].value), Seq::new(g.1 as nat, |j: int| str_of(tokens[g.0 + 1 + j].value)))
            } by {
                if i > 0 {
                    assert(gs[i] == rg[i - 1]);
                    assert(ds[i] == rd[i - 1]);
                } else {
                    assert forall|j: int| 0 <= j < k implies (#[trigger] tokens[pos + 1 + j]).kind == TokenKind::Field by {
                    }
                }
            }
        }
    }
}

/// Valid definitions read from the tokens' kinds and values are valid
/// definitions of the tokens, and give the same tclasses, where fields
/// have no vtype and tclass begins no comment.
proof fn lemma_defs_from_models(tokens: Seq<Token>, pos: int)
    requires
        mdefs_ok(crate::lexer::token_models(tokens), pos),
        forall|i: int| 0 <= i < tokens.len() && (#[trigger] tokens[i]).kind == TokenKind::Field ==> tokens[i].vtype@.len() == 0,
        forall|i: int|
            0 <= i < tokens.len() && (#[trigger] tokens[i]).kind == TokenKind::TClassBegin ==> tokens[i].comment@.len() == 0,
    ensures
        defs_ok(tokens, pos),
        defined_tclasses(tokens, pos) == mdefs(crate::lexer::token_models(tokens), pos).map_values(
            |d: (Seq<char>, Seq<Seq<char>>)| mdef_tclass(d),
        ),
        groups_end(tokens, pos) == mdefs_end(crate::lexer::token_models(tokens), pos),
{
    let ms = crate::lexer::token_models(tokens);
    lemma_groups_models(tokens, pos);
    let gs = def_groups(tokens, pos);
    let ds = mdefs(ms, pos);
    let e = groups_end(tokens, pos);
    assert forall|i: int| 0 <= i < gs.len() implies def_tclass(tokens, (#[trigger] gs[i]).0, gs[i].1) == mdef_tclass(ds[i])
        && group_ok(tokens, gs[i].0, gs[i].1) by {
        let g = gs[i];
        let d = ds[i];
        assert(mdef_ok(d));
        assert(def_fields(tokens, g.0, g.1) =~= mdef_tclass(d).1) by {
            assert forall|j: int| 0 <= j < g.1 implies (#[trigger] tokens[g.0 + 1 + j]).vtype@ =~= Seq::<char>::empty() by {
                assert(tokens[g.0 + 1 + j].kind == TokenKind::Field);
            }
        }
        assert(tokens[g.0].comment@ =~= Seq::<char>::empty());
        assert(ms[g.0] == (tokens[g.0].kind, tokens[g.0].value@));
        crate::value::lemma_value_view(tokens[g.0].value);
        assert(ms[g.0].1 is Str);
        assert forall|j: int| 0 <= j < g.1 implies (#[trigger] tokens[g.0 + 1 + j]).value is Str && crate::field::field_error(
            str_of(tokens[g.0 + 1 + j].value),
            tokens[g.0 + 1 + j].vtype@,
        ) is None by {
            let q = g.0 + 1 + j;
            assert(tokens[q].kind == TokenKind::Field);
            assert(ms[q] == (tokens[q].kind, tokens[q].value@));
            assert(ms[q].1 is Str);
            crate::value::lemma_value_view(tokens[q].value);
            assert(d.1[j] == str_of(tokens[q].value));
            assert(tokens[q].vtype@ =~= Seq::<char>::empty());
        }
    }
    assert forall|i: int| 0 <= i < gs.len() implies group_ok(tokens, (#[trigger] gs[i]).0, gs[i].1) by {
        assert(def_tclass(tokens, gs[i].0, gs[i].1) == mdef_tclass(ds[i]));
    }
    assert forall|i: int, j: int| 0 <= i < j < gs.len() implies str_of(tokens[(#[trigger] gs[i]).0].value) != str_of(
        tokens[(#[trigger] gs[j]).0].value,
    ) by {
        assert(ds[i].0 != ds[j].0);
    }
    if e < tokens.len() {
        assert(ms[e] == (tokens[e].kind, tokens[e].value@));
    }
    assert(defined_tclasses(tokens, pos) =~= ds.map_values(|d: (Seq<char>, Seq<Seq<char>>)| mdef_tclass(d))) by {
        assert forall|i: int| 0 <= i < gs.len() implies defined_tclasses(tokens, pos)[i] == mdef_tclass(ds[i]) by {
            assert(def_tclass(tokens, gs[i].0, gs[i].1) == mdef_tclass(ds[i]));
        }
    }
}

/// The first definition and the rest.
proof fn lemma_groups_front(tokens: Seq<Token>, pos: int)
    requires
        0 <= pos,
    ensures
        def_groups(tokens, pos).len() > 0 ==> ({
            let g = def_groups(tokens, pos)[0];
            &&& g.0 == pos
            &&& g.1 == field_count(tokens, pos + 1)
            &&& pos + g.1 + 1 < tokens.len()
            &&& tokens[pos].kind == TokenKind::TClassBegin
            &&& tokens[pos + g.1 + 1].kind == TokenKind::TClassEnd
            &&& def_groups(tokens, pos).skip(1) == def_groups(tokens, pos + g.1 + 2)
            &&& groups_end(tokens, pos) == groups_end(tokens, pos + g.1 + 2)
        }),
        def_groups(tokens, pos).len() == 0 ==> groups_end(tokens, pos) == pos,
        pos <= groups_end(tokens, pos),
        pos <= tokens.len() ==> groups_end(tokens, pos) <= tokens.len(),
    decreases tokens.len() - pos,
{
    if 0 <= pos < tokens.len() && tokens[pos].kind == TokenKind::TClassBegin {
        let k = field_count(tokens, pos + 1) as int;
        if pos + k + 1 < tokens.len() && tokens[pos + k + 1].kind == TokenKind::TClassEnd {
            let gs = def_groups(tokens, pos);
            assert(gs.skip(1) =~= def_groups(tokens, pos + k + 2));
            lemma_groups_front(tokens, pos + k + 2);
        }
    }
}

/// Whether `t` is the ttype of one of the first `n` definitions.
pub open spec fn ttype_among(tokens: Seq<Token>, gs: Seq<(int, int)>, n: int, t: Seq<char>) -> bool {
    exists|x: int| 0 <= x < n && str_of(tokens[gs[x].0].value) == t
}

/// Adding the tclass of the next definition, of a ttype that none of the
/// earlier ones has, keeps what the earlier ones gave and adds it.
proof fn lemma_defs_added(
    tokens: Seq<Token>,
    gs: Seq<(int, int)>,
    n: int,
    before: Seq<TClassModel>,
    after: Seq<TClassModel>,
    p: int,
)
    requires
        0 <= n < gs.len(),
        0 <= p <= before.len(),
        after == before.insert(p, def_tclass(tokens, gs[n].0, gs[n].1)),
        forall|x: int| 0 <= x < n ==> before.contains(#[trigger] def_tclass(tokens, gs[x].0, gs[x].1)),
        forall|v: int| 0 <= v < before.len() ==> ttype_among(tokens, gs, n, (#[trigger] before[v]).0),
    ensures
        forall|x: int| 0 <= x < n + 1 ==> after.contains(#[trigger] def_tclass(tokens, gs[x].0, gs[x].1)),
        forall|v: int| 0 <= v < after.len() ==> ttype_among(tokens, gs, n + 1, (#[trigger] after[v]).0),
{
    let tm = def_tclass(tokens, gs[n].0, gs[n].1);
    assert(after[p] == tm);
    assert forall|x: int| 0 <= x < n + 1 implies after.contains(#[trigger] def_tclass(tokens, gs[x].0, gs[x].1)) by {
        if x < n {
            let y = def_tclass(tokens, gs[x].0, gs[x].1);
            assert(before.contains(y));
            let v = choose|v: int| 0 <= v < before.len() && before[v] == y;
            if v < p {
                assert(after[v] == y);
            } else {
                assert(after[v + 1] == y);
            }
        }
    }
    assert forall|v: int| 0 <= v < after.len() implies ttype_among(tokens, gs, n + 1, (#[trigger] after[v]).0) by {
        if v < p {
            assert(after[v] == before[v]);
            assert(ttype_among(tokens, gs, n, before[v].0));
            let x = choose|x: int| 0 <= x < n && str_of(tokens[gs[x].0].value) == before[v].0;
            assert(0 <= x < n + 1 && str_of(tokens[gs[x].0].value) == after[v].0);
        } else if v == p {
            assert(0 <= n < n + 1 && str_of(tokens[gs[n].0].value) == after[v].0);
        } else {
            assert(after[v] == before[v - 1]);
            assert(ttype_among(tokens, gs, n, before[v - 1].0));
            let x = choose|x: int| 0 <= x < n && str_of(tokens[gs[x].0].value) == before[v - 1].0;
            assert(0 <= x < n + 1 && str_of(tokens[gs[x].0].value) == after[v].0);
        }
    }
}

/// The next definition's ttype is none that the earlier ones gave, when
/// all ttypes differ.
proof fn lemma_defs_fresh(tokens: Seq<Token>, gs: Seq<(int, int)>, n: int, before: Seq<TClassModel>)
    requires
        0 <= n < gs.len(),
        forall|i: int, j: int|
            0 <= i < j < gs.len() ==> str_of(tokens[(#[trigger] gs[i]).0].value) != str_of(tokens[(#[trigger] gs[j]).0].value),
        forall|v: int| 0 <= v < before.len() ==> ttype_among(tokens, gs, n, (#[trigger] before[v]).0),
    ensures
        !ttypes_of(before).contains(str_of(tokens[gs[n].0].value)),
{
    if ttypes_of(before).contains(str_of(tokens[gs[n].0].value)) {
        let v = choose|v: int| 0 <= v < ttypes_of(before).len() && ttypes_of(before)[v] == str_of(tokens[gs[n].0].value);
        assert(before[v].0 == ttypes_of(before)[v]);
        assert(ttype_among(tokens, gs, n, before[v].0));
        let x = choose|x: int| 0 <= x < n && str_of(tokens[gs[x].0].value) == before[v].0;
        assert(str_of(tokens[gs[x].0].value) != str_of(tokens[gs[n].0].value));
    }
}

/// The message for a value that is not of the expected type.
pub open spec fn mistyped_message(expected: Seq<char>, value: ValueModel) -> Seq<char> {
    "expected "@ + expected + ", got "@ + value_text(value)
}

/// The message of a repair that converted one value to another.
pub open spec fn conversion_message(from: ValueModel, to: ValueModel) -> Seq<char> {
    "converted "@ + typename_of(from) + seq![' '] + value_text(from) + " to "@ + typename_of(to) + seq![' ']
        + value_text(to)
}

impl Parser {
    fn error(&self, code: u16, message: String) -> (e: UxfError)
        ensures
            e.code == code,
            e.lino == self.lino,
            e.filename@ == self.filename@,
            e.message@ == message@,
    {
        UxfError::new(code, message, self.filename.as_str(), self.lino)
    }

    /// An error whose message ends `, got ` and the quoted text.
    fn error_s(&self, code: u16, message: &str, s: &str) -> (e: UxfError)
        ensures
            e.code == code,
            e.lino == self.lino,
    {
        let mut m: Vec<char> = Vec::new();
        push_str(&mut m, message);
        push_str(&mut m, ", got ");
        push_str(&mut m, debug_str(s).as_str());
        self.error(code, str_for_chars(m.as_slice()))
    }

    /// An error whose message ends `, got ` and the token.
    fn error_t(&self, code: u16, message: &str, t: &Token) -> (e: UxfError)
        ensures
            e.code == code,
            e.lino == self.lino,
    {
        let mut m: Vec<char> = Vec::new();
        push_str(&mut m, message);
        push_str(&mut m, ", got ");
        push_str(&mut m, t.to_string().as_str());
        self.error(code, str_for_chars(m.as_slice()))
    }

    /// Notes that a ttype is used.
    fn mark_used(&mut self, ttype: &str)
        ensures
            names_kept(old(self).used@, final(self).used@),
            names_of(final(self).used@).contains(ttype@),
            final(self).events == old(self).events,
            final(self).lino == old(self).lino,
            final(self).is_import == old(self).is_import,
            final(self).imports == old(self).imports,
            final(self).tclasses == old(self).tclasses,
    {
        let mut i: usize = 0;
        while i < self.used.len()
            invariant
                i <= self.used@.len(),
            decreases self.used@.len() - i,
        {
            if same_str(self.used[i].as_str(), ttype) {
                proof {
                    assert(names_of(self.used@)[i as int] == ttype@);
                }
                return;
            }
            i += 1;
        }
        let ghost before = self.used@;
        self.used.push(String::from_str(ttype));
        proof {
            assert(names_of(self.used@) == names_of(before).push(ttype@));
            assert(names_of(self.used@)[before.len() as int] == ttype@);
            assert forall|x: Seq<char>| names_of(before).contains(x) implies #[trigger] names_of(
                self.used@,
            ).contains(x) by {
                let i = choose|i: int| 0 <= i < names_of(before).len() && names_of(before)[i] == x;
                assert(names_of(self.used@)[i] == x);
            }
        }
    }

    /// Drops the import entry of a ttype, keeping the others in order.
    fn drop_import(&mut self, ttype: &str)
        requires
            keys_unique(import_entries(old(self).imports)),
        ensures
            keys_unique(import_entries(final(self).imports)),
            !entry_keys(import_entries(final(self).imports)).contains(ttype@),
            final(self).is_import == old(self).is_import,
            final(self).tclasses == old(self).tclasses,
            final(self).used == old(self).used,
            final(self).events == old(self).events,
            final(self).lino == old(self).lino,
    {
        let mut kept = index_map_new();
        let n = index_map_len(&self.imports);
        let mut i: usize = 0;
        while i < n
            invariant
                i <= n == import_entries(self.imports).len(),
                keys_unique(import_entries(kept)),
                !entry_keys(import_entries(kept)).contains(ttype@),
            decreases n - i,
        {
            let key = index_map_key_at(&self.imports, i);
            if !same_str(key.as_str(), ttype) {
                let ghost before = import_entries(kept);
                let value = index_map_value_at(&self.imports, i).clone();
                index_map_insert(&mut kept, key.clone(), value);
                proof {
                    let after = import_entries(kept);
                    if entry_keys(before).contains(key@) {
                        let j = choose|j: int|
                            0 <= j < before.len() && before[j].0 == key@ && after == before.update(
                                j,
                                (key@, value@),
                            );
                        assert(entry_keys(after) =~= entry_keys(before));
                    } else {
                        assert(entry_keys(after) =~= entry_keys(before).push(key@));
                    }
                }
            }
            i += 1;
        }
        self.imports = kept;
    }

    /// Whether a ttype is used.
    fn is_used(&self, ttype: &str) -> (b: bool)
        ensures
            b == names_of(self.used@).contains(ttype@),
    {
        let mut i: usize = 0;
        while i < self.used.len()
            invariant
                i <= self.used@.len(),
                forall|k: int| 0 <= k < i ==> names_of(self.used@)[k] != ttype@,
            decreases self.used@.len() - i,
        {
            if same_str(self.used[i].as_str(), ttype) {
                proof {
                    assert(names_of(self.used@)[i as int] == ttype@);
                }
                return true;
            }
            i += 1;
        }
        false
    }

    /// Adds a tclass and notes where it came from.
    fn add_import_tclass(&mut self, tclass: TClass, import: &str, code: u16) -> (r: Result<(), UxfError>)
        requires
            keys_unique(import_entries(old(self).imports)),
        ensures
            keys_unique(import_entries(final(self).imports)),
            ttypes_kept(old(self).tclasses@, final(self).tclasses@),
            !ttypes_of(old(self).tclasses@).contains(tclass@.0) ==> r is Ok,
            ttypes_of(old(self).tclasses@).contains(tclass@.0) ==> exists|i: int|
                0 <= i < old(self).tclasses@.len() && old(self).tclasses@[i].0 == tclass@.0 && if old(
                    self,
                ).tclasses@[i].1 == tclass@.1 {
                    r is Ok
                } else {
                    r matches Err(e) && e.code == code && e.message@ == crate::tclasses::conflict_message(
                        tclass@.0,
                    )
                },
            r is Ok ==> ttypes_of(final(self).tclasses@).contains(tclass@.0) && has_entry(
                import_entries(final(self).imports),
                tclass@.0,
                import@,
            ),
            r is Ok ==> exists|i: int|
                0 <= i < final(self).tclasses@.len() && final(self).tclasses@[i].0 == tclass@.0
                    && final(self).tclasses@[i].1 == tclass@.1,
            r is Err ==> final(self).tclasses@ == old(self).tclasses@ && final(self).imports == old(self).imports,
            forall|x: Seq<char>| #[trigger] ttypes_of(final(self).tclasses@).contains(x) ==> ttypes_of(
                old(self).tclasses@,
            ).contains(x) || x == tclass@.0,
            forall|t: Seq<char>, v: Seq<char>|
                #[trigger] has_entry(import_entries(old(self).imports), t, v) && t != tclass@.0 ==> has_entry(
                    import_entries(final(self).imports),
                    t,
                    v,
                ),
            final(self).used == old(self).used,
            final(self).lino == old(self).lino,
            final(self).is_import == old(self).is_import,
    {
        let ttype = String::from_str(tclass.ttype());
        let ghost t = tclass@;
        let ghost before = self.tclasses@;
        match self.tclasses.add(tclass, self.filename.as_str(), self.lino, code) {
            Ok(()) => {
                let ghost mut w: int = 0;
                proof {
                    if ttypes_of(before).contains(t.0) {
                        let i = choose|i: int|
                            0 <= i < before.len() && before[i].0 == t.0 && before[i].1 == t.1 && self.tclasses@
                                == before.update(i, (t.0, t.1, if t.2.len() > 0 { t.2 } else { before[i].2 }));
                        lemma_ttypes_kept(before, self.tclasses@, (t.0, t.1, if t.2.len() > 0 { t.2 } else { before[i].2 }));
                        assert(self.tclasses@[i].1 == t.1);
                        w = i;
                    } else {
                        lemma_ttypes_kept(before, self.tclasses@, t);
                        let p = choose|p: int| 0 <= p <= before.len() && self.tclasses@ == before.insert(p, t);
                        assert(self.tclasses@[p] == t);
                        w = p;
                    }
                }
                let ghost es = import_entries(self.imports);
                let value = String::from_str(import);
                index_map_insert(&mut self.imports, ttype, value);
                proof {
                    let es2 = import_entries(self.imports);
                    if entry_keys(es).contains(t.0) {
                        let i = choose|i: int|
                            0 <= i < es.len() && es[i].0 == t.0 && es2 == es.update(i, (t.0, import@));
                        assert(es2[i] == (t.0, import@));
                        assert forall|tt: Seq<char>, v: Seq<char>|
                            #[trigger] has_entry(es, tt, v) && tt != t.0 implies has_entry(es2, tt, v) by {
                            let j = choose|j: int| 0 <= j < es.len() && es[j] == (tt, v);
                            assert(es2[j] == es[j]);
                        }
                    } else {
                        assert(es2[es.len() as int] == (t.0, import@));
                        assert forall|tt: Seq<char>, v: Seq<char>|
                            #[trigger] has_entry(es, tt, v) && tt != t.0 implies has_entry(es2, tt, v) by {
                            let j = choose|j: int| 0 <= j < es.len() && es[j] == (tt, v);
                            assert(es2[j] == es[j]);
                        }
                    }
                    assert(0 <= w < self.tclasses@.len() && self.tclasses@[w].0 == t.0 && self.tclasses@[w].1 == t.1);
                }
                Ok(())
            },
            Err(e) => Err(e),
        }
    }

    /// Adds one of the tclasses that this library provides.
    fn system_import_tclass(&mut self, ttype: &str, import: &str) -> (r: Result<(), UxfError>)
        requires
            keys_unique(import_entries(old(self).imports)),
        ensures
            keys_unique(import_entries(final(self).imports)),
            ttypes_kept(old(self).tclasses@, final(self).tclasses@),
            r is Ok ==> ttypes_of(final(self).tclasses@).contains(ttype@) && has_entry(
                import_entries(final(self).imports),
                ttype@,
                import@,
            ),
            r is Err ==> final(self).tclasses@ == old(self).tclasses@ && final(self).imports == old(self).imports,
            system_tclass_fits(old(self).tclasses@, ttype@) ==> r is Ok && exists|i: int|
                0 <= i < final(self).tclasses@.len() && final(self).tclasses@[i].0 == ttype@
                    && final(self).tclasses@[i].1 == crate::field::pair_fields(system_pairs(ttype@)),
            final(self).used == old(self).used,
            final(self).lino == old(self).lino,
            final(self).is_import == old(self).is_import,
    {
        proof {
            reveal_strlit("Complex");
            reveal_strlit("Real");
            reveal_strlit("real");
            reveal_strlit("Imag");
            reveal_strlit("numerator");
            reveal_strlit("denominator");
            reveal_strlit("int");
            reveal_strlit("");
        }
        let complex = same_str(ttype, "Complex");
        let fields = if complex {
            let pairs = [("Real", "real"), ("Imag", "real")];
            proof {
                assert(crate::field::pair_views(pairs@) =~= system_pairs(ttype@));
            }
            make_fields_x(pairs.as_slice(), self.filename.as_str(), self.lino)
        } else {
            let pairs = [("numerator", "int"), ("denominator", "int")];
            proof {
                assert(crate::field::pair_views(pairs@) =~= system_pairs(ttype@));
            }
            make_fields_x(pairs.as_slice(), self.filename.as_str(), self.lino)
        };
        let fields = match fields {
            Ok(f) => f,
            Err(e) => return Err(e),
        };
        let tclass = match TClass::new(ttype, fields, "") {
            Ok(t) => t,
            Err(e) => return Err(e),
        };
        self.add_import_tclass(tclass, import, 570)
    }

    /// Handles an import: a system import (a name without a `.`), or a
    /// file or URL import whose outcome the caller gives.
    fn handle_import(&mut self, name: &str, imported: &Vec<(String, Imported)>) -> (r: Result<(), UxfError>)
        requires
            keys_unique(import_entries(old(self).imports)),
        ensures
            keys_unique(import_entries(final(self).imports)),
            final(self).lino == old(self).lino,
            final(self).is_import == old(self).is_import,
            final(self).used == old(self).used,
            ttypes_kept(old(self).tclasses@, final(self).tclasses@),
            is_system_import(name@) && name@ != "complex"@ && name@ != "fraction"@ && name@ != "numeric"@
                ==> (r matches Err(e) && e.code == 560),
            is_system_import(name@) && (name@ == "complex"@ || name@ == "numeric"@) ==> (r is Ok ==> ttypes_of(
                final(self).tclasses@,
            ).contains("Complex"@)),
            is_system_import(name@) && (name@ == "fraction"@ || name@ == "numeric"@) ==> (r is Ok ==> ttypes_of(
                final(self).tclasses@,
            ).contains("Fraction"@) && has_entry(import_entries(final(self).imports), "Fraction"@, name@)),
            is_system_import(name@) && name@ == "complex"@ && system_tclass_fits(old(self).tclasses@, "Complex"@)
                ==> r is Ok,
            is_system_import(name@) && name@ == "fraction"@ && system_tclass_fits(old(self).tclasses@, "Fraction"@)
                ==> r is Ok,
            is_system_import(name@) && name@ == "complex"@ ==> (r is Ok ==> has_entry(
                import_entries(final(self).imports),
                "Complex"@,
                name@,
            )),
            !is_system_import(name@) ==> match outcome_for(imported@, name@) {
                None => r matches Err(e) && e.code == 540,
                Some(Imported::Failed(code, message)) => r matches Err(e) && e.code == code && e.message@ == message@,
                Some(Imported::Already) => r is Ok && final(self).tclasses == old(self).tclasses && final(self).imports
                    == old(self).imports,
                Some(Imported::TClasses(ts)) => (r is Ok ==> forall|k: int|
                    0 <= k < ts@.len() ==> ttypes_of(final(self).tclasses@).contains(#[trigger] ts@[k]@.0)
                        && has_entry(import_entries(final(self).imports), ts@[k]@.0, name@))
                    && (imports_fit(old(self).tclasses@, ts@) ==> r is Ok),
            },
    {
        proof {
            reveal_strlit("http://");
            reveal_strlit("https://");
            reveal_strlit("complex");
            reveal_strlit("fraction");
            reveal_strlit("numeric");
            reveal_strlit("Complex");
            reveal_strlit("Fraction");
            assert("complex"@ != "fraction"@) by {
                assert("complex"@.len() != "fraction"@.len());
            }
            assert("numeric"@ != "fraction"@) by {
                assert("numeric"@.len() != "fraction"@.len());
            }
            assert("complex"@ != "numeric"@) by {
                assert("complex"@[0] != "numeric"@[0]);
            }
        }
        let url = starts_with(name, "http://") || starts_with(name, "https://");
        if !url && !has_char(name, '.') {
            if same_str(name, "complex") {
                return self.system_import_tclass("Complex", name);
            } else if same_str(name, "fraction") {
                return self.system_import_tclass("Fraction", name);
            } else if same_str(name, "numeric") {
                match self.system_import_tclass("Complex", name) {
                    Ok(()) => {},
                    Err(e) => return Err(e),
                }
                return self.system_import_tclass("Fraction", name);
            } else {
                let m = String::from_str("there is no system ttype import called ").concat(
                    debug_str(name).as_str(),
                );
                return Err(self.error(560, m));
            }
        }
        proof {
            assert(imported@.skip(0) =~= imported@);
        }
        let mut i: usize = 0;
        while i < imported.len()
            invariant
                i <= imported@.len(),
                keys_unique(import_entries(self.imports)),
                self.lino == old(self).lino,
                self.is_import == old(self).is_import,
                self == old(self),
                !is_system_import(name@),
                outcome_for(imported@, name@) == outcome_for(imported@.skip(i as int), name@),
            decreases imported@.len() - i,
        {
            proof {
                assert(imported@.skip(i as int)[0] == imported@[i as int]);
                assert(imported@.skip(i as int).skip(1) =~= imported@.skip(i + 1));
            }
            if same_str(imported[i].0.as_str(), name) {
                match &imported[i].1 {
                    Imported::Already => return Ok(()),
                    Imported::Failed(code, message) => return Err(self.error(*code, message.clone())),
                    Imported::TClasses(ts) => {
                        let mut k: usize = 0;
                        while k < ts.len()
                            invariant
                                k <= ts@.len(),
                                keys_unique(import_entries(self.imports)),
                                self.lino == old(self).lino,
                                self.is_import == old(self).is_import,
                                self.used == old(self).used,
                                !is_system_import(name@),
                                outcome_for(imported@, name@) == Some(imported@[i as int].1),
                                imported@[i as int].1 == Imported::TClasses(*ts),
                                ttypes_kept(old(self).tclasses@, self.tclasses@),
                                forall|j: int| 0 <= j < k ==> ttypes_of(self.tclasses@).contains(#[trigger] ts@[j]@.0)
                                    && has_entry(import_entries(self.imports), ts@[j]@.0, name@),
                                forall|x: Seq<char>| #[trigger] ttypes_of(self.tclasses@).contains(x) ==> ttypes_of(
                                    old(self).tclasses@,
                                ).contains(x) || exists|j: int| 0 <= j < k && ts@[j]@.0 == x,
                            decreases ts@.len() - k,
                        {
                            let ghost before = self.tclasses@;
                            let ghost before_imports = import_entries(self.imports);
                            proof {
                                if imports_fit(old(self).tclasses@, ts@) {
                                    assert(!ttypes_of(old(self).tclasses@).contains(ts@[k as int]@.0));
                                    if ttypes_of(before).contains(ts@[k as int]@.0) {
                                        let j = choose|j: int| 0 <= j < k && ts@[j]@.0 == ts@[k as int]@.0;
                                        assert(false);
                                    }
                                }
                            }
                            match self.add_import_tclass(ts[k].clone_tclass(), name, 544) {
                                Ok(()) => {},
                                Err(e) => return Err(e),
                            }
                            proof {
                                assert forall|j: int| 0 <= j < k + 1 implies ttypes_of(self.tclasses@).contains(
                                    #[trigger] ts@[j]@.0,
                                ) && has_entry(import_entries(self.imports), ts@[j]@.0, name@) by {
                                    if j < k {
                                        assert(ttypes_of(before).contains(ts@[j]@.0));
                                        assert(has_entry(before_imports, ts@[j]@.0, name@));
                                    }
                                }
                                assert forall|x: Seq<char>| ttypes_of(old(self).tclasses@).contains(x) implies #[trigger] ttypes_of(
                                    self.tclasses@,
                                ).contains(x) by {
                                    assert(ttypes_of(before).contains(x));
                                }
                                assert forall|x: Seq<char>| #[trigger] ttypes_of(self.tclasses@).contains(x) implies ttypes_of(
                                    old(self).tclasses@,
                                ).contains(x) || exists|j: int| 0 <= j < k + 1 && ts@[j]@.0 == x by {
                                    if !ttypes_of(before).contains(x) {
                                        assert(ts@[k as int]@.0 == x);
                                    } else if !ttypes_of(old(self).tclasses@).contains(x) {
                                        let j = choose|j: int| 0 <= j < k && ts@[j]@.0 == x;
                                        assert(0 <= j < k + 1 && ts@[j]@.0 == x);
                                    }
                                }
                            }
                            k += 1;
                        }
                        return Ok(());
                    },
                }
            }
            i += 1;
        }
        let m = String::from_str("there are no ttype definitions to import ").concat(name);
        Err(self.error(540, m))
    }

    /// Reads the tclass definitions that start at `start`; returns where
    /// the data starts (just after the last tclass definition). A
    /// definition redefines a tclass that an import brought with other
    /// fields (and the import no longer counts for its ttype); any other
    /// conflicting definition is error 528.
    #[verifier::rlimit(100)]
    fn parse_tclasses(&mut self, tokens: &Vec<Token>, start: usize) -> (r: Result<usize, UxfError>)
        requires
            start <= tokens@.len(),
            keys_unique(import_entries(old(self).imports)),
        ensures
            r matches Ok(i) ==> start <= i <= tokens@.len(),
            r matches Ok(i) ==> i == start || tokens@[i - 1].kind == TokenKind::TClassEnd,
            start == tokens@.len() || !(tokens@[start as int].kind == TokenKind::TClassBegin
                || tokens@[start as int].kind == TokenKind::Field || tokens@[start as int].kind
                == TokenKind::TClassEnd) ==> r == Ok::<usize, UxfError>(start),
            start < tokens@.len() && tokens@[start as int].kind == TokenKind::Field ==> (r matches Err(e) && e.code
                == 524),
            start < tokens@.len() && tokens@[start as int].kind == TokenKind::TClassEnd ==> (r matches Err(e)
                && e.code == 526),
            start < tokens@.len() && tokens@[start as int].kind == TokenKind::TClassBegin && !(
            tokens@[start as int].value is Str) ==> (r matches Err(e) && e.code == 523),
            forall|k: int| #[trigger] one_def_at(tokens@, start as int, k, old(self).tclasses@) ==> r == Ok::<
                usize,
                UxfError,
            >((start + k + 2) as usize) && exists|i: int|
                0 <= i < final(self).tclasses@.len() && final(self).tclasses@[i].0 == def_tclass(
                    tokens@,
                    start as int,
                    k,
                ).0 && final(self).tclasses@[i].1 == def_tclass(tokens@, start as int, k).1,
            start == tokens@.len() || !(tokens@[start as int].kind == TokenKind::TClassBegin
                || tokens@[start as int].kind == TokenKind::Field || tokens@[start as int].kind
                == TokenKind::TClassEnd) ==> final(self).tclasses == old(self).tclasses,
            final(self).events == old(self).events,
            final(self).used == old(self).used,
            final(self).is_import == old(self).is_import,
            keys_unique(import_entries(final(self).imports)),
            old(self).tclasses@.len() == 0 && import_entries(old(self).imports).len() == 0 && defs_ok(
                tokens@,
                start as int,
            ) ==> r == Ok::<usize, UxfError>(groups_end(tokens@, start as int) as usize) && final(self).tclasses@.len()
                == def_groups(tokens@, start as int).len() && (forall|x: int|
                0 <= x < def_groups(tokens@, start as int).len() ==> final(self).tclasses@.contains(
                    #[trigger] defined_tclasses(tokens@, start as int)[x],
                )) && final(self).imports == old(self).imports,
    {
        let mut builder = TClassBuilder::default();
        let mut data_start = start;
        let mut i = start;
        let ghost good = exists|k: int| one_def_at(tokens@, start as int, k, old(self).tclasses@);
        let ghost k = choose|k: int| one_def_at(tokens@, start as int, k, old(self).tclasses@);
        let ghost dt = def_tclass(tokens@, start as int, k);
        let ghost mut w: int = 0;
        let ghost md = old(self).tclasses@.len() == 0 && import_entries(old(self).imports).len() == 0 && defs_ok(
            tokens@,
            start as int,
        );
        let ghost gs = def_groups(tokens@, start as int);
        let ghost mut gi: int = 0;
        proof {
            assert(gs.skip(0) =~= gs);
        }
        while i < tokens.len()
            invariant
                md == (old(self).tclasses@.len() == 0 && import_entries(old(self).imports).len() == 0 && defs_ok(
                    tokens@,
                    start as int,
                )),
                gs == def_groups(tokens@, start as int),
                md ==> 0 <= gi <= gs.len() && def_groups(tokens@, data_start as int) == gs.skip(gi) && groups_end(
                    tokens@,
                    data_start as int,
                ) == groups_end(tokens@, start as int) && self.tclasses@.len() == gi && self.imports == old(
                    self,
                ).imports,
                md ==> forall|x: int| 0 <= x < gi ==> self.tclasses@.contains(
                    #[trigger] def_tclass(tokens@, gs[x].0, gs[x].1),
                ),
                md ==> forall|v: int|
                    0 <= v < self.tclasses@.len() ==> ttype_among(tokens@, gs, gi, (#[trigger] self.tclasses@[v]).0),
                md && i == data_start ==> builder@.1.len() == 0,
                md && i > data_start ==> gi < gs.len() && gs[gi].0 == data_start && data_start + gs[gi].1 + 1
                    < tokens@.len() && data_start < i <= data_start + gs[gi].1 + 1 && builder@ == (
                    str_of(tokens@[data_start as int].value),
                    def_fields(tokens@, data_start as int, gs[gi].1).take(i - data_start - 1),
                    tokens@[data_start as int].comment@,
                ),
                start <= data_start <= i <= tokens@.len(),
                good == exists|k: int| one_def_at(tokens@, start as int, k, old(self).tclasses@),
                good ==> one_def_at(tokens@, start as int, k, old(self).tclasses@) && dt == def_tclass(tokens@, start as int, k),
                good && start < i <= start + k + 1 ==> builder@ == (dt.0, dt.1.take(i - start - 1), dt.2)
                    && self.tclasses@ == old(self).tclasses@ && data_start == start,
                good && i == start ==> self.tclasses@ == old(self).tclasses@,
                good && i >= start + k + 2 ==> i == start + k + 2 && data_start == i && 0 <= w
                    < self.tclasses@.len() && self.tclasses@[w].0 == dt.0 && self.tclasses@[w].1 == dt.1,
                i == start ==> builder@.0.len() == 0 && builder@.1.len() == 0 && data_start == start,
                i > start ==> tokens@[start as int].kind == TokenKind::TClassBegin && tokens@[start as int].value is Str,
                data_start == start || tokens@[data_start - 1].kind == TokenKind::TClassEnd,

                i == start ==> self.tclasses == old(self).tclasses,
                self.events == old(self).events,
                self.used == old(self).used,
                self.is_import == old(self).is_import,
                keys_unique(import_entries(self.imports)),
            ensures
                start == tokens@.len() || !(tokens@[start as int].kind == TokenKind::TClassBegin
                    || tokens@[start as int].kind == TokenKind::Field || tokens@[start as int].kind
                    == TokenKind::TClassEnd) ==> self.tclasses == old(self).tclasses,
                start <= data_start <= tokens@.len(),
                data_start == start || tokens@[data_start - 1].kind == TokenKind::TClassEnd,
                data_start == start ==> start == tokens@.len() || !(tokens@[start as int].kind
                    == TokenKind::Field || tokens@[start as int].kind == TokenKind::TClassEnd || (tokens@[start as int].kind
                    == TokenKind::TClassBegin && !(tokens@[start as int].value is Str))),
                self.events == old(self).events,
                self.used == old(self).used,
                self.is_import == old(self).is_import,
                keys_unique(import_entries(self.imports)),
                good ==> data_start == start + k + 2 && 0 <= w < self.tclasses@.len() && self.tclasses@[w].0
                    == dt.0 && self.tclasses@[w].1 == dt.1,
                md ==> gi == gs.len() && data_start == groups_end(tokens@, start as int) && self.tclasses@.len() == gi
                    && self.imports == old(self).imports,
                md ==> forall|x: int| 0 <= x < gi ==> self.tclasses@.contains(
                    #[trigger] def_tclass(tokens@, gs[x].0, gs[x].1),
                ),
            decreases tokens@.len() - i,
        {
            let ghost ds = data_start as int;
            proof {
                if md {
                    lemma_groups_front(tokens@, ds);
                    if gi < gs.len() {
                        assert(gs.skip(gi)[0] == gs[gi]);
                        assert(group_ok(tokens@, gs[gi].0, gs[gi].1));
                        lemma_field_count(tokens@, ds + 1);
                        assert(str_of(tokens@[ds].value).len() > 0);
                        if i > ds && i <= ds + gs[gi].1 {
                            let j = i - ds - 1;
                            assert(tokens@[gs[gi].0 + 1 + j].value is Str);
                        }
                    } else {
                        assert(def_groups(tokens@, ds).len() == 0);
                    }
                }
            }
            let t = &tokens[i];
            self.lino = t.lino;
            if t.kind == TokenKind::TClassBegin {
                match &t.value {
                    Value::Str(s) => builder.initialize(s.as_str(), t.comment.as_str()),
                    _ => return Err(self.error(523, String::from_str("invalid or missing ttype name"))),
                }
            } else if t.kind == TokenKind::Field {
                if builder.is_valid() {
                    match &t.value {
                        Value::Str(s) => {
                            proof {
                                if md {
                                    let dfs = def_fields(tokens@, ds, gs[gi].1);
                                    let j = i - ds - 1;
                                    assert(tokens@[ds + 1 + j] == tokens@[i as int]);
                                    assert(crate::field::field_error(
                                        str_of(tokens@[gs[gi].0 + 1 + j].value),
                                        tokens@[gs[gi].0 + 1 + j].vtype@,
                                    ) is None);
                                    assert(dfs.take(i - ds) =~= dfs.take(i - ds - 1).push(
                                        crate::field::field_model(s@, t.vtype@),
                                    ));
                                }
                                if good && start < i <= start + k {
                                    let j = i - start - 1;
                                    assert(crate::field::field_error(str_of(tokens@[start + 1 + j].value), tokens@[start + 1 + j].vtype@) is None);
                                    assert(dt.1.take(i - start) =~= dt.1.take(i - start - 1).push(
                                        crate::field::field_model(s@, t.vtype@),
                                    ));
                                }
                            }
                            match builder.append_field(s.as_str(), t.vtype.as_str()) {
                                Ok(()) => {},
                                Err(e) => return Err(e),
                            }
                        },
                        _ => return Err(self.error(522, String::from_str("invalid or missing field name"))),
                    }
                } else {
                    return Err(self.error(524, String::from_str("Field outside TClass")));
                }
            } else if t.kind == TokenKind::TClassEnd {
                if !builder.is_valid() {
                    return Err(self.error(526, String::from_str("TClass without ttype")));
                }
                proof {
                    if good && i == start + k + 1 {
                        assert(dt.1.take(k) =~= dt.1);
                        assert(builder@ == dt);
                    }
                    if md {
                        let dfs = def_fields(tokens@, ds, gs[gi].1);
                        assert(dfs.take(gs[gi].1) =~= dfs);
                        assert(builder@ == def_tclass(tokens@, ds, gs[gi].1));
                    }
                }
                let tclass = match builder.build() {
                    Ok(tc) => tc,
                    Err(e) => return Err(e),
                };
                let redefines = index_map_contains_key(&self.imports, tclass.ttype()) && match self.tclasses.get(
                    tclass.ttype(),
                ) {
                    Some(old) => !old.same_as(&tclass),
                    None => false,
                };
                let ghost before = self.tclasses@;
                let ghost tm = tclass@;
                proof {
                    if md {
                        assert(defs_ok(tokens@, start as int));
                        lemma_defs_fresh(tokens@, gs, gi, before);
                    }
                    if good && i == start + k + 1 {
                        assert(builder@.1 == dt.1) by {
                            assert(dt.1.take(k) =~= dt.1);
                        }
                        if ttypes_of(before).contains(tm.0) {
                            let j = choose|j: int| 0 <= j < ttypes_of(before).len() && ttypes_of(before)[j] == tm.0;
                            assert(before[j].0 == tm.0);
                        }
                    }
                }
                if redefines {
                    self.drop_import(tclass.ttype());
                    self.tclasses.insert(tclass);
                } else {
                    match self.tclasses.add(tclass, self.filename.as_str(), self.lino, 528) {
                        Ok(()) => {},
                        Err(e) => return Err(e),
                    }
                }
                proof {
                    if good && i == start + k + 1 {
                        if ttypes_of(before).contains(tm.0) {
                            let j = choose|j: int|
                                0 <= j < before.len() && before[j].0 == tm.0 && self.tclasses@ == before.update(
                                    j,
                                    (tm.0, tm.1, if tm.2.len() > 0 { tm.2 } else { before[j].2 }),
                                );
                            w = j;
                        } else {
                            let p = choose|p: int| 0 <= p <= before.len() && self.tclasses@ == before.insert(p, tm);
                            assert(self.tclasses@[p] == tm);
                            w = p;
                        }
                    }
                    if md {
                        let after = self.tclasses@;
                        let p = choose|p: int| 0 <= p <= before.len() && after == before.insert(p, tm);
                        lemma_defs_added(tokens@, gs, gi, before, after, p);
                        assert(gs.skip(gi).skip(1) =~= gs.skip(gi + 1));
                        gi = gi + 1;
                    }
                }
                builder.clear();
                data_start = i + 1;
            } else {
                break;
            }
            i += 1;
        }
        proof {
            if md {
                assert forall|x: int| 0 <= x < gs.len() implies self.tclasses@.contains(
                    #[trigger] defined_tclasses(tokens@, start as int)[x],
                ) by {
                    assert(defined_tclasses(tokens@, start as int)[x] == def_tclass(tokens@, gs[x].0, gs[x].1));
                }
            }
        }
        Ok(data_start)
    }

    /// The type that the next value should have: what the innermost open
    /// collection expects (empty for any type).
    fn expected_type(&self, stack: &Vec<Value>) -> (r: String)
        ensures
            r@ == expected_of(stack@),
    {
        if stack.len() == 0 {
            return String::new();
        }
        match &stack[stack.len() - 1] {
            Value::List(l) => l.expected_type(),
            Value::UxfMap(m) => m.expected_type(),
            Value::Table(t) => t.expected_type(),
            _ => String::new(),
        }
    }

    /// The error message for a value that is not of the expected type, or
    /// empty if it is (or may be) of that type.
    fn verify_type(&self, value: &Value, expected: &str) -> (r: String)
        ensures
            r@ == if mistyped(self.tclasses@, *value, expected@) {
                mistyped_message(expected@, value@)
            } else {
                seq![]
            },
            r@.len() == 0 <==> !mistyped(self.tclasses@, *value, expected@),
    {
        proof {
            reveal_strlit("expected ");
        }
        if !value.is_null() && !expected.is_empty() {
            let bad = if is_vtype(expected) {
                !same_str(value.typename(), expected)
            } else {
                !self.tclasses.contains(expected)
            };
            if bad {
                let mut m: Vec<char> = Vec::new();
                push_str(&mut m, "expected ");
                push_str(&mut m, expected);
                push_str(&mut m, ", got ");
                push_value_text(&mut m, value);
                return str_for_chars(m.as_slice());
            }
        }
        String::new()
    }

    /// Adds a repair event: `converted {type} {value} to {type} {value}`.
    fn report_conversion(&mut self, from: &Value, to: &Value)
        ensures
            final(self).events@.len() == old(self).events@.len() + 1,
            forall|i: int| 0 <= i < old(self).events@.len() ==> final(self).events@[i] == old(self).events@[i],
            final(self).events@.last().kind == crate::event::EventKind::Repair,
            final(self).events@.last().code == 486,
            final(self).events@.last().lino == old(self).lino,
            final(self).events@.last().filename@ == old(self).filename@,
            final(self).events@.last().message@ == conversion_message(from@, to@),
            final(self).tclasses == old(self).tclasses,
            final(self).filename == old(self).filename,
            final(self).used == old(self).used,
            final(self).lino == old(self).lino,
            final(self).is_import == old(self).is_import,
            final(self).imports == old(self).imports,
    {
        let mut m: Vec<char> = Vec::new();
        push_str(&mut m, "converted ");
        push_str(&mut m, from.typename());
        m.push(' ');
        push_value_text(&mut m, from);
        push_str(&mut m, " to ");
        push_str(&mut m, to.typename());
        m.push(' ');
        push_value_text(&mut m, to);
        let message = str_for_chars(m.as_slice());
        let e = Event::new_repair(486, message.as_str(), self.filename.as_str(), self.lino);
        self.events.push(e);
    }

    /// A str: if a bool, int, real, date, or datetime is expected, a str
    /// that spells one is converted (a repair); else error 488.
    fn handle_str(&mut self, token: &Token, expected: &str, size: usize) -> (r: Result<Value, UxfError>)
        requires
            !is_collection(token.value),
        ensures
            final(self).used == old(self).used,
            final(self).tclasses == old(self).tclasses,
            expected@.len() == 0 ==> final(self).events == old(self).events,
            r matches Ok(v) ==> !is_collection_model(v@),
            size == 0 ==> (r matches Err(e) && e.code == 590),
            size > 0 && !(mistyped(old(self).tclasses@, token.value, expected@) && (expected@ == "bool"@
                || expected@ == "int"@ || expected@ == "real"@ || expected@ == "date"@ || expected@
                == "datetime"@)) ==> (r matches Ok(v) && v@ == token.value@),
            size > 0 && mistyped(old(self).tclasses@, token.value, expected@) && (expected@ == "bool"@
                || expected@ == "int"@ || expected@ == "real"@ || expected@ == "date"@ || expected@
                == "datetime"@) ==> if crate::value::value_same(
                crate::naturalize::naturalized(token.value@),
                token.value@,
            ) {
                r matches Err(e) && e.code == 488
            } else {
                r matches Ok(v) && v@ == crate::naturalize::naturalized(token.value@)
            },
            final(self).lino == old(self).lino,
            final(self).is_import == old(self).is_import,
            final(self).imports == old(self).imports,
    {
        proof {
            broadcast use crate::value::lemma_value_view;

            reveal_strlit("bool");
            reveal_strlit("int");
            reveal_strlit("real");
            reveal_strlit("date");
            reveal_strlit("datetime");
        }
        if size == 0 {
            return Err(self.error(590, String::from_str("invalid UXF data")));
        }
        let value = token.value.clone_value();
        proof {
            crate::value::lemma_value_view(token.value);
        }
        let message = self.verify_type(&value, expected);
        if !value.is_null() && !message.as_str().is_empty() && (same_str(expected, "bool") || same_str(
            expected,
            "int",
        ) || same_str(expected, "real") || same_str(expected, "date") || same_str(expected, "datetime")) {
            let new_value = value.naturalize();
            proof {
                if let ValueModel::Str(t) = value@ {
                    assert(crate::naturalize::spelled_value(t) matches Some(n) ==> !is_collection_model(n));
                }
            }
            if !crate::value::same_value(&new_value, &value) {
                self.report_conversion(&value, &new_value);
                return Ok(new_value);
            } else {
                return Err(self.error(488, message));
            }
        }
        Ok(value)
    }

    /// A scalar other than a str: an int where a real is expected, or a
    /// real where an int is expected, is converted (a repair); another
    /// mistyped value is error 500.
    fn handle_scalar(&mut self, token: &Token, expected: &str, size: usize) -> (r: Result<Value, UxfError>)
        requires
            !is_collection(token.value),
        ensures
            final(self).used == old(self).used,
            final(self).tclasses == old(self).tclasses,
            expected@.len() == 0 ==> final(self).events == old(self).events,
            r matches Ok(v) ==> !is_collection_model(v@),
            size == 0 ==> (r matches Err(e) && e.code == 501),
            size > 0 && !mistyped(old(self).tclasses@, token.value, expected@) ==> (r matches Ok(v) && v@
                == token.value@),
            size > 0 && mistyped(old(self).tclasses@, token.value, expected@) ==> match token.value {
                Value::Int(i) => if expected@ == "real"@ {
                    r matches Ok(v) && v@ == ValueModel::Real(crate::realtext::int_as_real_text(i as int))
                } else {
                    r matches Err(e) && e.code == 500
                },
                Value::Real(t) => if expected@ == "int"@ {
                    r matches Ok(v) && v@ == ValueModel::Int(crate::realtext::rounded_real(t@))
                } else {
                    r matches Err(e) && e.code == 500
                },
                _ => r matches Err(e) && e.code == 500,
            },
            final(self).lino == old(self).lino,
            final(self).is_import == old(self).is_import,
            final(self).imports == old(self).imports,
    {
        proof {
            broadcast use crate::value::lemma_value_view;

            reveal_strlit("bool");
            reveal_strlit("int");
            reveal_strlit("real");
            reveal_strlit("date");
            reveal_strlit("datetime");
        }
        if size == 0 {
            return Err(self.error(501, String::from_str("invalid UXF data")));
        }
        let value = token.value.clone_value();
        proof {
            crate::value::lemma_value_view(token.value);
        }
        let message = self.verify_type(&value, expected);
        if !value.is_null() && !message.as_str().is_empty() {
            let new_value = match &value {
                Value::Int(i) => {
                    if same_str(expected, "real") {
                        Value::Real(crate::realtext::real_text_of_int(*i))
                    } else {
                        return Err(self.error(500, message));
                    }
                },
                Value::Real(t) => {
                    if same_str(expected, "int") {
                        Value::Int(crate::realtext::round_real_text(t.as_str()))
                    } else {
                        return Err(self.error(500, message));
                    }
                },
                _ => return Err(self.error(500, message)),
            };
            proof {
                crate::value::lemma_value_view(new_value);
            }
            self.report_conversion(&value, &new_value);
            return Ok(new_value);
        }
        Ok(value)
    }

    /// Checks that a collection may stand where `expected` is expected:
    /// anything may where nothing is expected; else it must be of that
    /// type (its kind, vtype, or name). Else error 506.
    fn check_contained_collection_type(&self, token: &Token, expected: &str) -> (r: Result<(), UxfError>)
        ensures
            r is Ok <==> (expected@.len() == 0 || expected@ == kind_typename(token.kind) || expected@
                == token.vtype@ || (token.value matches Value::Str(s) && expected@ == s@)),
            r matches Err(e) ==> e.code == 506 && e.lino == self.lino,
    {
        let typename = token.typename();
        let name_matches = match &token.value {
            Value::Str(s) => same_str(expected, s.as_str()),
            _ => expected.is_empty(),
        };
        if expected.is_empty() || same_str(expected, typename) || same_str(expected, token.vtype.as_str())
            || name_matches {
            return Ok(());
        }
        let mut m: Vec<char> = Vec::new();
        push_str(&mut m, "expected ");
        push_str(&mut m, expected);
        push_str(&mut m, ", got ");
        push_str(&mut m, typename);
        if !token.vtype.as_str().is_empty() {
            push_str(&mut m, " of type ");
            push_str(&mut m, token.vtype.as_str());
        } else {
            match &token.value {
                Value::Str(s) => {
                    m.push(' ');
                    push_str(&mut m, s.as_str());
                },
                _ => {},
            }
        }
        Err(self.error(506, str_for_chars(m.as_slice())))
    }

    /// Checks a collection's vtype: empty, a vtype, or a known ttype (which
    /// is then used). Else error 446.
    fn verify_type_identifier(&mut self, vtype: &str, what: &str) -> (r: Result<(), UxfError>)
        ensures
            names_kept(old(self).used@, final(self).used@),
            final(self).lino == old(self).lino,
            final(self).is_import == old(self).is_import,
            final(self).imports == old(self).imports,
            final(self).tclasses == old(self).tclasses,
            r is Ok <==> (vtype@.len() == 0 || is_vtype_word(vtype@) || ttypes_of(old(self).tclasses@).contains(
                vtype@,
            )),
            r matches Err(e) ==> e.code == 446,
            vtype@.len() == 0 ==> final(self).used == old(self).used,
            final(self).events == old(self).events,
    {
        if vtype.is_empty() || is_vtype(vtype) {
            return Ok(());
        }
        if self.tclasses.contains(vtype) {
            self.mark_used(vtype);
            Ok(())
        } else {
            let mut m: Vec<char> = Vec::new();
            push_str(&mut m, "expected ");
            push_str(&mut m, what);
            push_str(&mut m, " vtype, got ");
            push_str(&mut m, vtype);
            Err(self.error(446, str_for_chars(m.as_slice())))
        }
    }

    /// Starts a list.
    fn handle_list_start(&mut self, token: &Token) -> (r: Result<Value, UxfError>)
        ensures
            final(self).tclasses == old(self).tclasses,
            r is Ok <==> list_start_ok(old(self).tclasses@, *token),
            r matches Ok(v) ==> v@ == ValueModel::List(
                ListModel { vtype: token.vtype@, comment: token.comment@, values: seq![] },
            ),
            names_kept(old(self).used@, final(self).used@),
            token.vtype@.len() == 0 ==> final(self).used == old(self).used,
            final(self).events == old(self).events,
            r matches Ok(v) ==> open_named(v, names_of(final(self).used@)),
            final(self).lino == old(self).lino,
            final(self).is_import == old(self).is_import,
            final(self).imports == old(self).imports,
            r matches Ok(v) ==> v is List,
    {
        proof {
            broadcast use crate::value::lemma_value_view;

        }
        match self.verify_type_identifier(token.vtype.as_str(), "list") {
            Ok(()) => {},
            Err(e) => return Err(e),
        }
        match List::new(token.vtype.as_str(), token.comment.as_str()) {
            Ok(l) => Ok(Value::List(l)),
            Err(e) => Err(e),
        }
    }

    /// Starts a map: its ktype must be empty or a ktype (else error 440).
    fn handle_map_start(&mut self, token: &Token) -> (r: Result<Value, UxfError>)
        ensures
            final(self).tclasses == old(self).tclasses,
            r is Ok <==> map_start_ok(old(self).tclasses@, *token),
            r matches Ok(v) ==> v@ == ValueModel::UxfMap(
                MapModel { ktype: token.ktype@, vtype: token.vtype@, comment: token.comment@, items: seq![] },
            ),
            !(token.ktype@.len() == 0 || is_ktype_word(token.ktype@)) ==> (r matches Err(e) && e.code == 440),
            names_kept(old(self).used@, final(self).used@),
            r matches Ok(v) ==> open_named(v, names_of(final(self).used@)),
            final(self).lino == old(self).lino,
            final(self).is_import == old(self).is_import,
            final(self).imports == old(self).imports,
            r matches Ok(v) ==> v is UxfMap,
            r matches Ok(v) ==> (v matches Value::UxfMap(m) && m.pending() is None),
            token.vtype@.len() == 0 ==> final(self).used == old(self).used,
            final(self).events == old(self).events,
    {
        proof {
            broadcast use crate::value::lemma_value_view;

        }
        let kcs = chars_of(token.ktype.as_str());
        if !token.ktype.as_str().is_empty() && !crate::consts::is_ktype_name(kcs.as_slice()) {
            return Err(self.error_s(440, "expected map ktype", token.ktype.as_str()));
        }
        match self.verify_type_identifier(token.vtype.as_str(), "map") {
            Ok(()) => {},
            Err(e) => return Err(e),
        }
        match UxfMap::new_x(
            token.ktype.as_str(),
            token.vtype.as_str(),
            token.comment.as_str(),
            self.filename.as_str(),
            self.lino,
        ) {
            Ok(m) => Ok(Value::UxfMap(m)),
            Err(e) => Err(e),
        }
    }

    /// Starts a table of a known ttype (which is then used), which must be
    /// the one expected if a ttype is expected (else error 456). An
    /// unknown ttype is error 450, which shows the next token.
    fn handle_table_start(&mut self, token: &Token, next: Option<&Token>, expected: &str) -> (r: Result<
        Value,
        UxfError,
    >)
        ensures
            names_kept(old(self).used@, final(self).used@),
            r matches Ok(v) ==> open_named(v, names_of(final(self).used@)),
            final(self).tclasses == old(self).tclasses,
            r is Ok <==> table_start_ok(old(self).tclasses@, *token, expected@),
            !ttypes_of(old(self).tclasses@).contains(token.vtype@) ==> (r matches Err(e) && e.code == 450),
            ttypes_of(old(self).tclasses@).contains(token.vtype@) && !table_start_ok(
                old(self).tclasses@,
                *token,
                expected@,
            ) ==> (r matches Err(e) && e.code == 456),
            r matches Ok(v) ==> v@ matches ValueModel::Table(t) && t.tclass.0 == token.vtype@
                && old(self).tclasses@.contains(t.tclass) && t.comment == token.comment@ && t.records.len() == 0,
            final(self).lino == old(self).lino,
            final(self).is_import == old(self).is_import,
            final(self).imports == old(self).imports,
            r matches Ok(v) ==> v is Table,
    {
        proof {
            broadcast use crate::value::lemma_value_view;

        }
        let tclass = match self.tclasses.get(token.vtype.as_str()) {
            Some(tc) => tc.clone_tclass(),
            None => {
                let shown = match next {
                    Some(t) => t.to_string(),
                    None => String::from_str("nothing"),
                };
                return Err(self.error_s(450, "expected table ttype", shown.as_str()));
            },
        };
        self.mark_used(tclass.ttype());
        if !expected.is_empty() && !same_str(expected, "table") && !same_str(expected, tclass.ttype()) {
            let mut m: Vec<char> = Vec::new();
            push_str(&mut m, "expected table value of type ");
            push_str(&mut m, expected);
            push_str(&mut m, ", got value of type ");
            push_str(&mut m, tclass.ttype());
            return Err(self.error(456, str_for_chars(m.as_slice())));
        }
        let comment = String::from_str(token.comment.as_str());
        Ok(Value::Table(Table::new(tclass, comment.as_str())))
    }

    /// Starts the collection that `token` opens.
    fn handle_collection_start(&mut self, token: &Token, next: Option<&Token>, expected: &str) -> (r:
        Result<Value, UxfError>)
        ensures
            final(self).tclasses == old(self).tclasses,
            token.kind == TokenKind::ListBegin ==> (r is Ok <==> list_start_ok(old(self).tclasses@, *token)),
            token.kind == TokenKind::ListBegin ==> (r matches Ok(v) ==> v@ == ValueModel::List(
                ListModel { vtype: token.vtype@, comment: token.comment@, values: seq![] },
            )),
            token.kind == TokenKind::MapBegin ==> (r is Ok <==> map_start_ok(old(self).tclasses@, *token)),
            token.kind == TokenKind::MapBegin ==> (r matches Ok(v) ==> v@ == ValueModel::UxfMap(
                MapModel { ktype: token.ktype@, vtype: token.vtype@, comment: token.comment@, items: seq![] },
            ) && (v matches Value::UxfMap(m) && m.pending() is None)),
            token.kind == TokenKind::MapBegin && token.vtype@.len() == 0 ==> final(self).used == old(self).used,
            token.kind == TokenKind::MapBegin ==> final(self).events == old(self).events,
            token.kind == TokenKind::TableBegin ==> (r is Ok <==> table_start_ok(
                old(self).tclasses@,
                *token,
                expected@,
            )),
            !crate::token::starts_collection(token.kind) ==> (r matches Err(e) && e.code == 504),
            names_kept(old(self).used@, final(self).used@),
            token.kind == TokenKind::ListBegin && token.vtype@.len() == 0 ==> final(self).used == old(self).used,
            token.kind == TokenKind::ListBegin ==> final(self).events == old(self).events,
            r matches Ok(v) ==> open_named(v, names_of(final(self).used@)),
            final(self).lino == old(self).lino,
            final(self).is_import == old(self).is_import,
            final(self).imports == old(self).imports,
            r matches Ok(v) ==> v is List || v is UxfMap || v is Table,
    {
        if token.kind == TokenKind::ListBegin {
            self.handle_list_start(token)
        } else if token.kind == TokenKind::MapBegin {
            self.handle_map_start(token)
        } else if token.kind == TokenKind::TableBegin {
            self.handle_table_start(token, next, expected)
        } else {
            Err(self.error_t(504, "expected to create a map, list, or table", token))
        }
    }

    /// Adds a finished value to the innermost open collection, if any.
    fn handle_collection_push(&self, element: Value, stack: &mut Vec<Value>, token: &Token) -> (r: Result<
        (),
        UxfError,
    >)
        requires
            forall|i: int| 0 <= i < old(stack)@.len() ==> is_collection(#[trigger] old(stack)@[i]),
            forall|i: int| 0 <= i < old(stack)@.len() ==> open_named(#[trigger] old(stack)@[i], names_of(self.used@)),
            tables_named_in(element@, names_of(self.used@)),
        ensures
            final(stack)@.len() == old(stack)@.len(),
            forall|i: int| 0 <= i < final(stack)@.len() ==> is_collection(#[trigger] final(stack)@[i]),
            forall|i: int| 0 <= i < final(stack)@.len() ==> open_named(#[trigger] final(stack)@[i], names_of(self.used@)),
            old(stack)@.len() == 0 ==> r is Ok && final(stack)@ == old(stack)@,
            forall|i: int| 0 <= i < old(stack)@.len() - 1 ==> #[trigger] final(stack)@[i] == old(stack)@[i],
            old(stack)@.len() > 0 ==> match old(stack)@.last() {
                Value::List(l) => r is Ok && (final(stack)@.last() matches Value::List(l2) && l2@ == (ListModel {
                    values: l@.values.push(element@),
                    ..l@
                })),
                Value::UxfMap(m) => final(stack)@.last() matches Value::UxfMap(m2) && m2@.ktype == m@.ktype
                    && m2@.vtype == m@.vtype && m2@.comment == m@.comment && (m.pending() matches Some(k) ==> r is Ok
                    && m2.pending() is None && ((exists|i: int|
                    0 <= i < m@.items.len() && m@.items[i].0 == k && m2@.items == m@.items.update(
                        i,
                        (k, element@),
                    )) || (exists|p: int|
                    0 <= p <= m@.items.len() && m2@.items == m@.items.insert(p, (k, element@))))) && (
                m.pending() is None ==> m2@ == m@ && match crate::map::key_of(element) {
                    Some(k) => r is Ok && m2.pending() == Some(k@),
                    None => (r matches Err(e) && e.code == 600) && m2.pending() is None,
                }) && (m.pending() matches Some(k) ==> m2@.items == map_put(m@.items, k, element@)) && (m.pending()
                    is None ==> m2.pending() == value_key(element@) && (value_key(element@) is Some ==> r is Ok)),
                Value::Table(t) => final(stack)@.last() matches Value::Table(t2) && (t@.tclass.1.len() == 0 ==> (
                r matches Err(e) && e.code == 334) && t2@ == t@) && (t@.tclass.1.len() > 0 ==> r is Ok && if t.pending().len()
                    + 1 == t@.tclass.1.len() {
                    t2@ == (TableModel { records: t@.records.push(t.pending().push(element@)), ..t@ })
                        && t2.pending().len() == 0
                } else {
                    t2@ == t@ && t2.pending() == t.pending().push(element@)
                }),
                _ => r matches Err(e) && e.code == 402,
            },
    {
        proof {
            crate::value::lemma_value_view(element);
        }
        if stack.len() == 0 {
            return Ok(());
        }
        let top = stack.pop().unwrap();
        let r = match top {
            Value::List(mut l) => {
                l.push(element);
                stack.push(Value::List(l));
                Ok(())
            },
            Value::UxfMap(mut m) => {
                let r = m.push_x(element, self.filename.as_str(), self.lino);
                stack.push(Value::UxfMap(m));
                r
            },
            Value::Table(mut t) => {
                let r = t.push_x(element, self.filename.as_str(), self.lino);
                stack.push(Value::Table(t));
                r
            },
            other => {
                stack.push(other);
                Err(self.error_t(402, "expected a map, list, or table", token))
            },
        };
        r
    }

    /// The error for an identifier among the data: `true` and `false` (in
    /// any case) get error 458, other names error 460.
    fn invalid_identifier(&self, token: &Token) -> (e: UxfError)
        ensures
            e.code == 458 || e.code == 460,
    {
        match &token.value {
            Value::Str(s) => {
                let low = to_lowercase(s.as_str());
                if same_str(low.as_str(), "true") || same_str(low.as_str(), "false") {
                    return self.error(458, String::from_str("boolean values are represented by yes or no"));
                }
            },
            _ => {},
        }
        self.error_t(
            460,
            "ttypes may only appear at the start of a map (as the value type), list, or table",
            token,
        )
    }

    /// Reads the data from `start`: the value (if any) that the tokens up
    /// to the end-of-file token give.
    fn parse_data(&mut self, tokens: &Vec<Token>, start: usize) -> (r: Result<Option<Value>, UxfError>)
        requires
            start <= tokens@.len(),
            scalar_tokens(tokens@),
        ensures
            final(self).is_import == old(self).is_import,
            final(self).imports == old(self).imports,
            r matches Ok(Some(v)) ==> tables_named_in(v@, names_of(final(self).used@)),
            start == tokens@.len() || tokens@[start as int].kind == TokenKind::Eof ==> (r matches Ok(None))
                && final(self).used == old(self).used && final(self).tclasses == old(self).tclasses
                && final(self).events == old(self).events,
            start < tokens@.len() && crate::token::ends_collection(tokens@[start as int].kind) ==> (r matches Err(
                e,
            ) && e.code == 403),
            start < tokens@.len() && tokens@[start as int].kind == TokenKind::Str ==> (r matches Err(e) && e.code
                == 590),
            start < tokens@.len() && crate::token::is_scalar_kind(tokens@[start as int].kind) && tokens@[start as int].kind
                != TokenKind::Str ==> (r matches Err(e) && e.code == 501),
            start < tokens@.len() && tokens@[start as int].kind == TokenKind::Identifier ==> (r matches Err(e) && (
            e.code == 458 || e.code == 460)),
            start < tokens@.len() && !(crate::token::starts_collection(tokens@[start as int].kind)
                || crate::token::ends_collection(tokens@[start as int].kind) || crate::token::is_scalar_kind(
                tokens@[start as int].kind,
            ) || tokens@[start as int].kind == TokenKind::Str || tokens@[start as int].kind
                == TokenKind::Identifier || tokens@[start as int].kind == TokenKind::Eof) ==> (r matches Err(e)
                && e.code == 410),
            forall|n: int| #[trigger] flat_list_at(tokens@, start as int, n) ==> (r matches Ok(Some(v)) && v@
                == ValueModel::List(flat_list_model(tokens@, start as int, n))) && final(self).used == old(
                self,
            ).used && final(self).events == old(self).events && final(self).tclasses == old(self).tclasses,
            list_data(tokens@, start as int) matches Some(d) ==> (r matches Ok(x) && (x matches Some(v) ==> d
                == Some(v@)) && (x is None ==> d is None)) && final(self).used == old(self).used
                && final(self).events == old(self).events && final(self).tclasses == old(self).tclasses,
    {
        let mut value: Option<Value> = None;
        let mut stack: Vec<Value> = Vec::new();
        let mut pos = start;
        let ghost mut first_eof = false;
        let ghost flat = exists|n: int| flat_list_at(tokens@, start as int, n);
        let ghost n = choose|n: int| flat_list_at(tokens@, start as int, n);
        let ghost ld = list_data(tokens@, start as int) is Some;
        let ghost tm = crate::lexer::token_models(tokens@);
        let ghost mut sm: Seq<OpenModel> = seq![];
        let ghost mut vm: Option<ValueModel> = None;
        proof {
            if flat {
                assert(flat_list_model(tokens@, start as int, 0).values =~= Seq::<ValueModel>::empty());
            }
        }
        while pos < tokens.len()
            invariant_except_break
                !first_eof,
                flat ==> pos <= start + n + 2,
                ld ==> plain_list_starts(tokens@) && list_run(tm, pos as int, sm, vm) == list_data(
                    tokens@,
                    start as int,
                ),
            invariant
                start <= pos <= tokens@.len(),
                pos == start ==> value is None && stack@.len() == 0 && self.used == old(self).used
                    && self.tclasses == old(self).tclasses && self.events == old(self).events,
                pos > start && !first_eof ==> crate::token::starts_collection(tokens@[start as int].kind),
                first_eof ==> value is None && start < tokens@.len() && tokens@[start as int].kind == TokenKind::Eof,
                scalar_tokens(tokens@),
                forall|i: int| 0 <= i < stack@.len() ==> is_collection(#[trigger] stack@[i]),
                forall|i: int| 0 <= i < stack@.len() ==> open_named(#[trigger] stack@[i], names_of(self.used@)),
                value matches Some(v) ==> tables_named_in(v@, names_of(self.used@)),
                self.is_import == old(self).is_import,
                self.imports == old(self).imports,
                flat == exists|n: int| flat_list_at(tokens@, start as int, n),
                flat ==> flat_list_at(tokens@, start as int, n) && pos <= start + n + 3 && !first_eof
                    && self.used == old(self).used && self.events == old(self).events && self.tclasses == old(
                    self,
                ).tclasses,
                flat && start < pos <= start + n + 1 ==> stack@.len() == 1 && (stack@[0] matches Value::List(l)
                    && l@ == flat_list_model(tokens@, start as int, if pos == start + 1 {
                    0
                } else {
                    pos - start - 2
                })) && (pos == start + 1 ==> value is None) && (pos > start + 1 ==> (value matches Some(v) && v@
                    == tokens@[pos - 1].value@)),
                flat && pos >= start + n + 2 ==> stack@.len() == 0 && (value matches Some(v) && v@
                    == ValueModel::List(flat_list_model(tokens@, start as int, n))),
                ld == (list_data(tokens@, start as int) is Some),
                tm == crate::lexer::token_models(tokens@),
                ld ==> stack@.len() == sm.len() && forall|i: int|
                    0 <= i < stack@.len() ==> open_matches(#[trigger] stack@[i], sm[i]),
                ld ==> (value is None <==> vm is None) && (value matches Some(x) ==> vm == Some(x@)),
                ld ==> self.used == old(self).used && self.events == old(self).events && self.tclasses == old(
                    self,
                ).tclasses,
            ensures
                flat ==> (value matches Some(v) && v@ == ValueModel::List(flat_list_model(tokens@, start as int, n)))
                    && self.used == old(self).used && self.events == old(self).events && self.tclasses == old(
                    self,
                ).tclasses,
                first_eof || pos == tokens@.len() || (pos > start && crate::token::starts_collection(
                    tokens@[start as int].kind,
                )),
                first_eof ==> value is None && start < tokens@.len() && tokens@[start as int].kind
                    == TokenKind::Eof && self.used == old(self).used && self.tclasses == old(self).tclasses
                    && self.events == old(self).events,
                pos == start ==> value is None && self.used == old(self).used && self.tclasses == old(self).tclasses
                    && self.events == old(self).events,
                ld ==> list_data(tokens@, start as int) == Some(vm) && (value is None <==> vm is None) && (
                value matches Some(x) ==> vm == Some(x@)) && self.used == old(self).used && self.events == old(
                    self,
                ).events && self.tclasses == old(self).tclasses,
            decreases tokens@.len() - pos,
        {
            let ghost sm0 = sm;
            let ghost vm0 = vm;
            proof {
                if ld {
                    assert(tm[pos as int] == (tokens@[pos as int].kind, tokens@[pos as int].value@));
                }
            }
            let token = &tokens[pos];
            pos += 1;
            if token.kind == TokenKind::Eof {
                proof {
                    if pos - 1 == start {
                        first_eof = true;
                    }
                }
                break;
            }
            self.lino = token.lino;
            let ghost old_stack = stack@;
            proof {
                if ld {
                    assert(stack_after(sm0, vm0) is Some);
                    if stack@.len() > 0 {
                        assert(open_matches(stack@[stack@.len() - 1], sm0[sm0.len() - 1]));
                    }
                }
            }
            let taken = value;
            value = None;
            match taken {
                Some(element) => match self.handle_collection_push(element, &mut stack, token) {
                    Ok(()) => {},
                    Err(e) => return Err(e),
                },
                None => {},
            }
            proof {
                if flat && start + 1 < pos - 1 <= start + n + 1 {
                    lemma_token_values_push(tokens@, start + 1, pos - 2);
                }
                if ld {
                    let s1 = stack_after(sm0, vm0)->Some_0;
                    assert(stack@.len() == s1.len());
                    assert forall|i: int| 0 <= i < stack@.len() implies open_matches(#[trigger] stack@[i], s1[i]) by {
                        if vm0 is Some && i == stack@.len() - 1 {
                        } else {
                            assert(stack@[i] == old_stack[i]);
                        }
                    }
                    if token.kind == TokenKind::ListBegin {
                        assert(tokens@[pos - 1].kind == TokenKind::ListBegin);
                    }
                    if token.kind == TokenKind::MapBegin {
                        assert(tokens@[pos - 1].kind == TokenKind::MapBegin);
                    }
                }
            }
            let ghost mid_stack = stack@;
            if token.kind.is_collection_start() {
                let expected = self.expected_type(&stack);
                match self.check_contained_collection_type(token, expected.as_str()) {
                    Ok(()) => {},
                    Err(e) => return Err(e),
                }
                let next = if pos < tokens.len() {
                    Some(&tokens[pos])
                } else {
                    None
                };
                let ghost n0 = names_of(self.used@);
                match self.handle_collection_start(token, next, expected.as_str()) {
                    Ok(c) => {
                        proof {
                            lemma_open_named_more(stack@, n0, names_of(self.used@));
                            crate::value::lemma_value_view(c);
                        }
                        stack.push(c);
                    },
                    Err(e) => return Err(e),
                }
            } else if token.kind.is_collection_end() {
                match stack.pop() {
                    Some(v) => {
                        proof {
                            lemma_closed_named(v, names_of(self.used@));
                            crate::value::lemma_value_view(v);
                        }
                        value = Some(v);
                    },
                    None => return Err(self.error_t(403, "missing a map, list, or table", token)),
                }
            } else if token.kind == TokenKind::Str {
                let expected = self.expected_type(&stack);
                match self.handle_str(token, expected.as_str(), stack.len()) {
                    Ok(v) => {
                        proof {
                            lemma_scalar_named(v@, names_of(self.used@));
                        }
                        value = Some(v);
                    },
                    Err(e) => return Err(e),
                }
            } else if token.kind.is_scalar() {
                let expected = self.expected_type(&stack);
                match self.handle_scalar(token, expected.as_str(), stack.len()) {
                    Ok(v) => {
                        proof {
                            lemma_scalar_named(v@, names_of(self.used@));
                        }
                        value = Some(v);
                    },
                    Err(e) => return Err(e),
                }
            } else if token.kind == TokenKind::Identifier {
                return Err(self.invalid_identifier(token));
            } else {
                return Err(self.error_t(410, "unexpected token", token));
            }
            proof {
                if ld {
                    let s1 = stack_after(sm0, vm0)->Some_0;
                    if token.kind == TokenKind::ListBegin || token.kind == TokenKind::MapBegin {
                        sm = if token.kind == TokenKind::ListBegin {
                            s1.push(OpenModel::InList(seq![]))
                        } else {
                            s1.push(OpenModel::InMap(seq![], None))
                        };
                        vm = None;
                        assert(stack@.len() == mid_stack.len() + 1);
                        assert forall|i: int| 0 <= i < stack@.len() implies open_matches(#[trigger] stack@[i], sm[i]) by {
                            if i < mid_stack.len() {
                                assert(stack@[i] == mid_stack[i]);
                            } else {
                                assert(stack@[i] == stack@.last());
                                crate::value::lemma_value_view(stack@[i]);
                                assert(token.ktype@ =~= Seq::<char>::empty());
                                assert(token.vtype@ =~= Seq::<char>::empty());
                                assert(token.comment@ =~= Seq::<char>::empty());
                            }
                        }
                    } else if crate::token::ends_collection(token.kind) {
                        sm = s1.drop_last();
                        vm = Some(closed_model(s1.last()));
                        assert forall|i: int| 0 <= i < stack@.len() implies open_matches(#[trigger] stack@[i], sm[i]) by {
                            assert(stack@[i] == mid_stack[i]);
                        }
                    } else {
                        sm = s1;
                        vm = Some(token.value@);
                    }
                }
            }
            proof {
                if flat && start < pos <= start + n + 1 {
                    assert(stack@.len() == 1);
                    assert(stack@[0] is List);
                    if pos == start + 1 {
                        assert(value is None);
                        assert(tokens@[start as int].vtype@ =~= Seq::<char>::empty());
                        assert(flat_list_model(tokens@, start as int, 0).values =~= Seq::<ValueModel>::empty());
                    } else {
                        assert(value is Some);
                        assert(value->0@ == tokens@[pos - 1].value@);
                    }
                }
            }
        }
        Ok(value)
    }

    /// The ttypes of the tclasses, in their order.
    fn defined_ttypes(&self) -> (r: Vec<String>)
        ensures
            names_of(r@) == ttypes_of(self.tclasses@),
    {
        let items = self.tclasses.items();
        let mut out: Vec<String> = Vec::new();
        let mut i: usize = 0;
        while i < items.len()
            invariant
                i <= items@.len(),
                tclass_models(items@) == self.tclasses@,
                names_of(out@) == ttypes_of(self.tclasses@).take(i as int),
            decreases items@.len() - i,
        {
            proof {
                assert(ttypes_of(self.tclasses@)[i as int] == items@[i as int]@.0);
            }
            let ghost before = out@;
            let name = String::from_str(items[i].ttype());
            out.push(name);
            proof {
                assert(names_of(out@) =~= names_of(before).push(name@));
                assert(ttypes_of(self.tclasses@).take(i + 1) =~= ttypes_of(self.tclasses@).take(
                    i as int,
                ).push(name@));
            }
            i += 1;
        }
        proof {
            assert(ttypes_of(self.tclasses@).take(i as int) =~= ttypes_of(self.tclasses@));
        }
        out
    }

    /// After the data: with `replace_imports`, drops the imports and the
    /// imported tclasses that no table uses; with `drop_unused_ttypes`,
    /// drops every tclass that no table uses (and the imports whose entry
    /// names a ttype whose import names a dropped tclass). Then warns
    /// (422) of unused tclasses that are neither imported nor fieldless,
    /// and fails (424) if a used ttype is not defined.
    fn cleanup_tclasses(&mut self, options: ParserOptions) -> (r: Result<(), UxfError>)
        requires
            keys_unique(import_entries(old(self).imports)),
        ensures
            keys_unique(import_entries(final(self).imports)),
            final(self).is_import == old(self).is_import,
            options.bits & 2 != 0 ==> import_entries(final(self).imports).len() == 0,
            final(self).used == old(self).used,
            old(self).used@.len() == 0 ==> r is Ok,
            old(self).tclasses@.len() == 0 ==> final(self).events == old(self).events,
            options.bits & 3 == 0 ==> final(self).tclasses == old(self).tclasses,
            r is Ok ==> forall|x: Seq<char>|
                names_of(final(self).used@).contains(x) ==> #[trigger] ttypes_of(final(self).tclasses@).contains(x),
    {
        proof {
            let b = options.bits;
            assert(b & 2 != 0 ==> b & 3 != 0) by (bit_vector);
            assert(b & 1 != 0 ==> b & 3 != 0) by (bit_vector);
        }
        let mut imported: Vec<String> = Vec::new();
        let n = index_map_len(&self.imports);
        let mut i: usize = 0;
        while i < n
            invariant
                options.bits & 3 == 0 ==> self.tclasses == old(self).tclasses,
                i <= n == import_entries(self.imports).len(),
                self.events == old(self).events,
                self.tclasses == old(self).tclasses,
            decreases n - i,
        {
            imported.push(index_map_key_at(&self.imports, i).clone());
            i += 1;
        }
        if options.bits & 2 != 0 {
            let mut k: usize = 0;
            while k < imported.len()
                invariant
                    options.bits & 2 != 0,
                    k <= imported@.len(),
                    keys_unique(import_entries(self.imports)),
                    self.is_import == old(self).is_import,
                    self.used == old(self).used,
                    self.events == old(self).events,
                    old(self).tclasses@.len() == 0 ==> self.tclasses@.len() == 0,
                decreases imported@.len() - k,
            {
                if !self.is_used(imported[k].as_str()) {
                    self.tclasses.remove(imported[k].as_str());
                }
                k += 1;
            }
            index_map_clear(&mut self.imports);
            imported = Vec::new();
        }
        let mut defined = self.defined_ttypes();
        proof {
            assert(names_of(defined@).len() == defined@.len());
            assert(ttypes_of(self.tclasses@).len() == self.tclasses@.len());
            assert forall|j: int| 0 <= j < defined@.len() implies ttypes_of(self.tclasses@).contains(
                #[trigger] defined@[j]@,
            ) by {
                assert(names_of(defined@)[j] == defined@[j]@);
            }
        }
        if options.bits & 1 != 0 {
            let mut kept: Vec<String> = Vec::new();
            let mut removed: Vec<String> = Vec::new();
            let mut k: usize = 0;
            while k < defined.len()
                invariant
                    options.bits & 1 != 0,
                    k <= defined@.len(),
                    keys_unique(import_entries(self.imports)),
                    self.is_import == old(self).is_import,
                    options.bits & 2 != 0 ==> import_entries(self.imports).len() == 0,
                    self.used == old(self).used,
                    self.events == old(self).events,
                    kept@.len() <= k,
                    forall|j: int| 0 <= j < kept@.len() ==> names_of(self.used@).contains(#[trigger] kept@[j]@),
                    forall|j: int| 0 <= j < kept@.len() ==> ttypes_of(self.tclasses@).contains(#[trigger] kept@[j]@),
                    forall|j: int|
                        k <= j < defined@.len() ==> names_of(self.used@).contains(#[trigger] defined@[j]@)
                            ==> ttypes_of(self.tclasses@).contains(defined@[j]@),
                decreases defined@.len() - k,
            {
                if self.is_used(defined[k].as_str()) {
                    kept.push(defined[k].clone());
                } else {
                    let ghost before = self.tclasses@;
                    self.tclasses.remove(defined[k].as_str());
                    proof {
                        lemma_removed_keeps(before, self.tclasses@, defined@[k as int]@);
                    }
                    removed.push(defined[k].clone());
                }
                k += 1;
            }
            defined = kept;
            let mut imports = index_map_new();
            let n = index_map_len(&self.imports);
            let mut i: usize = 0;
            while i < n
                invariant
                    options.bits & 3 == 0 ==> self.tclasses == old(self).tclasses,
                    i <= n == import_entries(self.imports).len(),
                    keys_unique(import_entries(imports)),
                    import_entries(imports).len() <= i,
                    options.bits & 2 != 0 ==> import_entries(self.imports).len() == 0,
                    self.events == old(self).events,
                decreases n - i,
            {
                let f = index_map_value_at(&self.imports, i);
                let mut deleted = false;
                let mut j: usize = 0;
                while j < n
                    invariant
                        options.bits & 3 == 0 ==> self.tclasses == old(self).tclasses,
                        j <= n == import_entries(self.imports).len(),
                    decreases n - j,
                {
                    if same_str(index_map_key_at(&self.imports, j).as_str(), f.as_str()) && contains_string(
                        &removed,
                        index_map_value_at(&self.imports, j).as_str(),
                    ) {
                        deleted = true;
                    }
                    j += 1;
                }
                if !deleted {
                    index_map_insert(&mut imports, index_map_key_at(&self.imports, i).clone(), f.clone());
                }
                i += 1;
            }
            self.imports = imports;
        }
        let mut unused: Vec<String> = Vec::new();
        let mut k: usize = 0;
        while k < defined.len()
            invariant
                options.bits & 3 == 0 ==> self.tclasses == old(self).tclasses,
                k <= defined@.len(),
                keys_unique(import_entries(self.imports)),
                self.is_import == old(self).is_import,
                options.bits & 2 != 0 ==> import_entries(self.imports).len() == 0,
                self.events == old(self).events,
                unused@.len() <= k,
            decreases defined@.len() - k,
        {
            let t = defined[k].as_str();
            if !self.is_used(t) && !contains_string(&imported, t) {
                let fieldless = match self.tclasses.get(t) {
                    Some(tc) => tc.is_fieldless(),
                    None => false,
                };
                if !fieldless {
                    unused.push(defined[k].clone());
                }
            }
            k += 1;
        }
        if unused.len() > 0 {
            let message = ttypes_message("unused", &unused);
            self.events.push(Event::new_warning(422, message.as_str(), self.filename.as_str(), self.lino));
        }
        let mut undefined = false;
        let mut k: usize = 0;
        while k < self.used.len()
            invariant
                options.bits & 3 == 0 ==> self.tclasses == old(self).tclasses,
                k <= self.used@.len(),
                keys_unique(import_entries(self.imports)),
                self.is_import == old(self).is_import,
                options.bits & 2 != 0 ==> import_entries(self.imports).len() == 0,
                self.used == old(self).used,
                old(self).used@.len() == 0 ==> !undefined,
                !undefined ==> forall|kk: int|
                    0 <= kk < k ==> exists|i: int|
                        0 <= i < defined@.len() && (#[trigger] defined@[i])@ == (#[trigger] self.used@[kk])@,
            decreases self.used@.len() - k,
        {
            if !contains_string(&defined, self.used[k].as_str()) {
                undefined = true;
            }
            k += 1;
        }
        if undefined {
            return Err(self.error(424, ttypes_message("undefined", &unused)));
        }
        proof {
            assert forall|x: Seq<char>| names_of(self.used@).contains(x) implies #[trigger] ttypes_of(
                self.tclasses@,
            ).contains(x) by {
                let kk = choose|kk: int| 0 <= kk < names_of(self.used@).len() && names_of(self.used@)[kk] == x;
                assert(self.used@[kk]@ == x);
                let i = choose|i: int| 0 <= i < defined@.len() && (#[trigger] defined@[i])@ == self.used@[kk]@;
                assert(ttypes_of(self.tclasses@).contains(defined@[i]@));
            }
        }
        Ok(())
    }
}


/// The error code of a text whose header is bad, if it is.
pub open spec fn header_error(text: Seq<char>) -> Option<u16> {
    match first_newline(text) {
        None => Some(110u16),
        Some(nl) => match header_of(text.take(nl)) {
            Ok(_) => None,
            Err(code) => Some(code),
        },
    }
}

/// The tokens of `text` (see `tokenize`) and where the imports start
/// (after the file comment, if any).
fn lex(text: &str, filename: &str) -> (r: Result<(Lexed, usize), UxfError>)
    requires
        text@.len() < usize::MAX,
    ensures
        r matches Ok((l, i)) ==> i <= 1 && (i == 1 ==> l.tokens@.len() > 0) && scalar_tokens(l.tokens@),
        match first_newline(text@) {
            None => r matches Err(e) && e.code == 110 && e.lino == 1 && e.filename@ == filename@
                && e.message@ == header_message(110),
            Some(nl) => match header_of(text@.take(nl)) {
                Ok((v, custom)) => (r matches Ok((l, _)) ==> l.custom@ == custom && l.events@.len() == (if v > 1 {
                    1int
                } else {
                    0int
                }) && (v > 1 ==> l.events@.len()
                    > 0 && l.events@[0].code == 141 && l.events@[0].kind == crate::event::EventKind::Warning
                    && l.events@[0].lino == 1 && l.events@[0].filename@ == filename@ && l.events@[0].message@
                    == crate::lexer::version_message(v))),
                Err(code) => r matches Err(e) && e.code == code && e.lino == 1 && e.filename@
                    == filename@ && e.message@ == header_message(code),
            },
        },
        empty_body(text@) ==> (r matches Ok((l, i)) && i == 0 && l.tokens@.len() == 1 && l.tokens@[0].kind
            == TokenKind::Eof),
        comment_only_body(text@) ==> (r matches Ok((l, i)) && i == 1 && l.tokens@.len() == 2
            && l.tokens@[0].value@ == ValueModel::Str(file_comment(text@)->Some_0) && l.tokens@[1].kind
            == TokenKind::Eof),
        comment_syntax_error(text@) ==> (r matches Err(e) && e.code == 160 && e.filename@ == filename@ && e.message@
            == comment_syntax_message(char_after(text@, after_header(text@)))),
        file_comment_alone(text@) ==> (r matches Ok((l, i)) ==> match file_comment(text@) {
            Some(c) => i == 1 && l.tokens@[0].value@ == ValueModel::Str(c),
            None => i == 0,
        }),
        file_comment_alone(text@) && imports_alone(text@) ==> (r matches Ok((l, i)) ==> import_run(
            l.tokens@,
            i as int,
            imports_from(text@, imports_start(text@)),
        )),
        crate::lexer::plain_import_body(text@) ==> (r matches Ok((l, i)) && i == after_comment_index(text@)
            && plain_list_starts(l.tokens@) && l.tokens@.len() > 0 && l.tokens@.last().kind == TokenKind::Eof
            && l.tokens@.len() - 1 >= i + imports_from(text@, imports_start(text@)).len()
            && crate::lexer::token_models(l.tokens@.drop_last().skip(i + imports_from(text@, imports_start(text@)).len()))
            == crate::lexer::def_tokens(text@, crate::lexer::after_imports(text@), false)->Some_0
            && (file_comment(text@) matches Some(c) ==> l.tokens@[0].value@ == ValueModel::Str(c)) && (forall|j: int|
            0 <= j < l.tokens@.len() && (#[trigger] l.tokens@[j]).kind == TokenKind::Field ==> l.tokens@[j].vtype@.len()
                == 0) && forall|j: int|
            0 <= j < l.tokens@.len() && (#[trigger] l.tokens@[j]).kind == TokenKind::TClassBegin
                ==> l.tokens@[j].comment@.len() == 0),
{
    proof {
        if crate::lexer::plain_import_body(text@) {
            assert(file_comment_alone(text@));
        }
    }
    let lexed = match tokenize(text, filename) {
        Ok(l) => l,
        Err(e) => return Err(e),
    };
    let start: usize = if lexed.tokens.len() > 0 && lexed.tokens[0].kind == TokenKind::FileComment {
        1
    } else {
        0
    };
    Ok((lexed, start))
}

/// Returns the names of the imports of the UXF text (in order), which the
/// caller reads and parses (see `parse_import`) to hand in the outcomes.
pub fn import_names(text: &str, filename: &str) -> (r: Result<Vec<String>, UxfError>)
    requires
        text@.len() < usize::MAX,
    ensures
        header_error(text@) matches Some(code) ==> (r matches Err(e) && e.code == code),
        comment_syntax_error(text@) ==> (r matches Err(e) && e.code == 160 && e.filename@ == filename@ && e.message@
            == comment_syntax_message(char_after(text@, after_header(text@)))),
        file_comment_alone(text@) && imports_alone(text@) ==> (r matches Ok(names) ==> names_of(names@)
            == imports_from(text@, imports_start(text@))),
        empty_body(text@) ==> (r matches Ok(names) && names@.len() == 0),
        crate::lexer::plain_import_body(text@) ==> (r matches Ok(names) && names_of(names@) == imports_from(
            text@,
            imports_start(text@),
        )),
{
    proof {
        if crate::lexer::plain_import_body(text@) {
            assert(file_comment_alone(text@));
        }
    }
    let (lexed, start) = match lex(text, filename) {
        Ok(l) => l,
        Err(e) => return Err(e),
    };
    let ghost clean = file_comment_alone(text@) && imports_alone(text@);
    let ghost full = imports_from(text@, imports_start(text@));
    let mut names: Vec<String> = Vec::new();
    let mut i = start;
    while i < lexed.tokens.len() && lexed.tokens[i].kind == TokenKind::Import
        invariant
            start <= i <= lexed.tokens@.len(),
            clean ==> import_run(lexed.tokens@, start as int, full),
            clean ==> i <= start + full.len(),
            clean ==> names_of(names@) == full.take(i - start),
            empty_body(text@) ==> i == 0 && names@.len() == 0 && lexed.tokens@.len() == 1
                && lexed.tokens@[0].kind == TokenKind::Eof,
        decreases lexed.tokens@.len() - i,
    {
        let ghost before = names@;
        proof {
            crate::value::lemma_value_view(lexed.tokens@[i as int].value);
            if clean {
                if i == start + full.len() {
                    assert(false);
                }
                assert(import_token(lexed.tokens@.skip(start as int)[i - start], full[i - start]));
            }
        }
        match &lexed.tokens[i].value {
            Value::Str(s) => names.push(s.clone()),
            _ => {},
        }
        proof {
            if clean {
                assert(names_of(names@) =~= names_of(before).push(full[i - start]));
                assert(full.take(i - start + 1) =~= full.take(i - start).push(full[i - start]));
            }
        }
        i += 1;
    }
    proof {
        if clean {
            if i < start + full.len() {
                assert(import_token(lexed.tokens@.skip(start as int)[i - start], full[i - start]));
            }
            assert(full.take(i - start) =~= full);
        }
    }
    Ok(names)
}

/// A parser with nothing read yet.
fn new_parser(filename: &str, is_import: bool) -> (p: Parser)
    ensures
        keys_unique(import_entries(p.imports)),
        p.is_import == is_import,
        p.used@.len() == 0,
        p.tclasses@.len() == 0,
        p.events@.len() == 0,
        import_entries(p.imports).len() == 0,
{
    Parser {
        filename: String::from_str(filename),
        lino: 0,
        is_import,
        tclasses: TClasses::new(),
        imports: index_map_new(),
        used: Vec::new(),
        events: Vec::new(),
    }
}

/// Reads the file comment (into `uxf`), the imports, the tclasses and the
/// data; returns the value, if any.
fn run(
    parser: &mut Parser,
    uxf: &mut Uxf,
    tokens: &Vec<Token>,
    start: usize,
    imported: &Vec<(String, Imported)>,
    options: ParserOptions,
) -> (r:
    Result<Option<Value>, UxfError>)
    requires
        start <= 1,
        start == 1 ==> tokens@.len() > 0,
        keys_unique(import_entries(old(parser).imports)),
        scalar_tokens(tokens@),
    ensures
        !old(parser).is_import ==> (r matches Ok(Some(v)) ==> forall|k: int|
            0 <= k < tclasses_in(v@).len() ==> ttypes_of(final(parser).tclasses@).contains(
                #[trigger] tclasses_in(v@)[k].0,
            )),
        keys_unique(import_entries(final(parser).imports)),
        final(parser).is_import == old(parser).is_import,
        !old(parser).is_import && options.bits & 2 != 0 ==> (r is Ok ==> import_entries(
            final(parser).imports,
        ).len() == 0),
        final(uxf)@.custom == old(uxf)@.custom,
        final(uxf)@.value == old(uxf)@.value,
        start == 0 ==> final(uxf)@.comment == old(uxf)@.comment,
        start == 1 ==> (tokens@[0].value@ matches ValueModel::Str(c) ==> final(uxf)@.comment == c),
        tokens@.len() == start + 1 && tokens@[start as int].kind == TokenKind::Eof && old(parser).used@.len()
            == 0 ==> r matches Ok(None),
        tokens@.len() == start + 1 && tokens@[start as int].kind == TokenKind::Eof && old(parser).is_import
            ==> final(parser).tclasses == old(parser).tclasses,
        forall|n: int| #[trigger] flat_list_at(tokens@, start as int, n) && old(parser).used@.len() == 0 ==> (r matches Ok(
            Some(v),
        ) && v@ == ValueModel::List(flat_list_model(tokens@, start as int, n))),
        forall|n: int| #[trigger] flat_list_at(tokens@, start as int, n) && old(parser).tclasses@.len() == 0
            ==> final(parser).events == old(parser).events,
        tokens@.len() == start + 1 && tokens@[start as int].kind == TokenKind::Eof && old(parser).tclasses@.len()
            == 0 ==> final(parser).events == old(parser).events,
        old(parser).used@.len() == 0 ==> (list_data(tokens@, start as int) matches Some(Some(v)) ==> (r matches Ok(
            Some(x),
        ) && x@ == v)),
        list_data(tokens@, start as int) is Some && old(parser).used@.len() == 0 && old(parser).tclasses@.len()
            == 0 ==> final(parser).events == old(parser).events,
        list_data(tokens@, start as int) is Some && old(parser).is_import ==> final(parser).tclasses == old(
            parser,
        ).tclasses,
        (old(parser).is_import || options.bits & 3 == 0) && old(parser).used@.len() == 0 && old(parser).tclasses@.len()
            == 0 && import_entries(old(parser).imports).len() == 0 && defs_ok(tokens@, start as int) && list_data(
            tokens@,
            groups_end(tokens@, start as int),
        ) is Some && (start < tokens@.len() ==> tokens@[start as int].kind != TokenKind::Import) ==> r is Ok
            && final(parser).tclasses@.len() == def_groups(tokens@, start as int).len() && (forall|x: int|
            0 <= x < def_groups(tokens@, start as int).len() ==> final(parser).tclasses@.contains(
                #[trigger] defined_tclasses(tokens@, start as int)[x],
            )) && (list_data(tokens@, groups_end(tokens@, start as int)) matches Some(Some(v)) ==> (r matches Ok(
                Some(x),
            ) && x@ == v)),
{
    if start == 1 {
        parser.lino = tokens[0].lino;
        proof {
            crate::value::lemma_value_view(tokens@[0].value);
        }
        match &tokens[0].value {
            Value::Str(s) => uxf.set_comment(s.as_str()),
            _ => {},
        }
    }
    let ghost mid = uxf@;
    proof {
        if list_data(tokens@, start as int) is Some && start < tokens@.len() {
            assert(crate::lexer::token_models(tokens@)[start as int].0 == tokens@[start as int].kind);
        }
    }
    let mut pos = start;
    while pos < tokens.len() && tokens[pos].kind == TokenKind::Import
        invariant
            pos <= tokens@.len(),
            start <= tokens@.len(),
            start == tokens@.len() ==> pos == start && parser.tclasses == old(parser).tclasses && parser.events
                == old(parser).events,
            list_data(tokens@, start as int) is Some ==> start == tokens@.len() || tokens@[start as int].kind
                == TokenKind::Eof || tokens@[start as int].kind == TokenKind::ListBegin || tokens@[start as int].kind
                == TokenKind::MapBegin,
            keys_unique(import_entries(parser.imports)),
            parser.is_import == old(parser).is_import,
            uxf@ == mid,
            mid.custom == old(uxf)@.custom,
            mid.value == old(uxf)@.value,
            start == 0 ==> mid.comment == old(uxf)@.comment,
            start == 1 ==> (tokens@[0].value@ matches ValueModel::Str(c) ==> mid.comment == c),
            parser.used == old(parser).used,
            start < tokens@.len() && tokens@[start as int].kind == TokenKind::Eof ==> pos == start
                && parser.tclasses == old(parser).tclasses && parser.events == old(parser).events,
            start < tokens@.len() && (tokens@[start as int].kind == TokenKind::ListBegin || tokens@[start as int].kind
                == TokenKind::MapBegin) ==> pos == start && parser.tclasses == old(parser).tclasses && parser.events
                == old(parser).events,
            start == tokens@.len() || tokens@[start as int].kind != TokenKind::Import ==> pos == start
                && parser.tclasses == old(parser).tclasses && parser.imports == old(parser).imports,
        decreases tokens@.len() - pos,
    {
        parser.lino = tokens[pos].lino;
        let name = match &tokens[pos].value {
            Value::Str(s) => s.as_str(),
            _ => "",
        };
        match parser.handle_import(name, imported) {
            Ok(()) => {},
            Err(e) => return Err(e),
        }
        pos += 1;
    }
    proof {
        lemma_groups_front(tokens@, pos as int);
    }
    let data_start = match parser.parse_tclasses(tokens, pos) {
        Ok(i) => i,
        Err(e) => return Err(e),
    };
    let value = match parser.parse_data(tokens, data_start) {
        Ok(v) => v,
        Err(e) => return Err(e),
    };
    if !parser.is_import {
        match parser.cleanup_tclasses(options) {
            Ok(()) => {},
            Err(e) => return Err(e),
        }
    }
    Ok(value)
}

/// Parses UXF text: its header (see `tokenize`), file comment, imports
/// (whose outcomes the caller gives in `imported`, by import name; see
/// `import_names`), tclasses and data. With `options`, unused tclasses
/// may be dropped and imports replaced (see `ParserOptions`). Returns the
/// document and the warnings and repairs met, in order.
pub fn parse_options(text: &str, filename: &str, options: ParserOptions, imported: &Vec<(String, Imported)>) -> (r:
    Result<Parsed, UxfError>)
    requires
        text@.len() < usize::MAX,
    ensures
        match first_newline(text@) {
            None => r matches Err(e) && e.code == 110 && e.lino == 1 && e.filename@ == filename@
                && e.message@ == header_message(110),
            Some(nl) => match header_of(text@.take(nl)) {
                Ok((v, custom)) => (r matches Ok(p) ==> p.uxf@.custom == custom && ((empty_body(text@)
                    || comment_only_body(text@) || plain_document_value(text@) is Some)
                    ==> p.events@.len() == (if v > 1 {
                    1int
                } else {
                    0int
                })) && (v > 1 ==> p.events@.len()
                    > 0 && p.events@[0].code == 141 && p.events@[0].kind == crate::event::EventKind::Warning
                    && p.events@[0].lino == 1 && p.events@[0].filename@ == filename@ && p.events@[0].message@
                    == crate::lexer::version_message(v))),
                Err(code) => r matches Err(e) && e.code == code && e.lino == 1 && e.filename@
                    == filename@ && e.message@ == header_message(code),
            },
        },
        empty_body(text@) ==> (r matches Ok(p) && p.uxf@.value == ValueModel::List(
            ListModel { vtype: seq![], comment: seq![], values: seq![] },
        )),
        plain_document_value(text@) matches Some(v) ==> (r matches Ok(p) && p.uxf@.value == v),
        options.bits & 3 == 0 ==> (plain_document(text@) matches Some((tcs, v)) ==> (r matches Ok(p) && p.uxf@.value
            == v && p.uxf@.tclasses.len() == tcs.len() && forall|x: int|
            0 <= x < tcs.len() ==> p.uxf@.tclasses.contains(#[trigger] tcs[x]))),
        comment_only_body(text@) ==> (r matches Ok(p) && p.uxf@.value == ValueModel::List(
            ListModel { vtype: seq![], comment: seq![], values: seq![] },
        ) && p.uxf@.comment == file_comment(text@)->Some_0),
        comment_syntax_error(text@) ==> (r matches Err(e) && e.code == 160 && e.filename@ == filename@ && e.message@
            == comment_syntax_message(char_after(text@, after_header(text@)))),
        options.bits & 2 != 0 ==> (r matches Ok(p) ==> p.uxf@.imports.len() == 0),
        r matches Ok(p) ==> tables_defined(p.uxf@),
        file_comment_alone(text@) ==> (r matches Ok(p) ==> p.uxf@.comment == match file_comment(text@) {
            Some(c) => c,
            None => seq![],
        }),
{
    let (lexed, start) = match lex(text, filename) {
        Ok(l) => l,
        Err(e) => return Err(e),
    };
    let mut uxf = Uxf::default();
    uxf.set_custom(lexed.custom.as_str());
    let mut parser = new_parser(filename, false);
    proof {
        if plain_document_value(text@) is Some {
            lemma_plain_document_data(text@, lexed.tokens@, start as int);
        }
        if plain_document(text@) is Some {
            assert(file_comment_alone(text@));
            lemma_plain_defs_data(text@, lexed.tokens@, start as int);
            let d = crate::lexer::def_tokens(text@, crate::lexer::after_imports(text@), false)->Some_0;
            assert(defined_tclasses(lexed.tokens@, start as int) == plain_document(text@)->Some_0.0);
        }
    }
    let value = match run(&mut parser, &mut uxf, &lexed.tokens, start, imported, options) {
        Ok(v) => v,
        Err(e) => return Err(e),
    };
    match value {
        Some(v) => {
            proof {
                crate::value::lemma_value_view(v);
            }
            if v.is_collection() {
                match uxf.set_value(v) {
                    Ok(()) => {},
                    Err(e) => return Err(e),
                }
            }
        },
        None => {},
    }
    proof {
        crate::visit::lemma_tclasses_in_empty_list();
    }
    let Parser { tclasses, imports, events: parse_events, .. } = parser;
    uxf.install(tclasses, imports);
    let mut events = lexed.events;
    let mut i: usize = 0;
    let ghost first = events@;
    while i < parse_events.len()
        invariant
            i <= parse_events@.len(),
            events@.len() == first.len() + i,
            forall|k: int| 0 <= k < first.len() ==> events@[k] == first[k],
        decreases parse_events@.len() - i,
    {
        events.push(parse_events[i].clone());
        i += 1;
    }
    Ok(Parsed { uxf, events })
}

/// Parses UXF text with the standard options and no file or URL imports
/// (see `parse_options`).
pub fn parse(text: &str) -> (r: Result<Parsed, UxfError>)
    requires
        text@.len() < usize::MAX,
    ensures
        match first_newline(text@) {
            None => r matches Err(e) && e.code == 110 && e.lino == 1 && e.filename@ == "-"@
                && e.message@ == header_message(110),
            Some(nl) => match header_of(text@.take(nl)) {
                Ok((v, custom)) => (r matches Ok(p) ==> p.uxf@.custom == custom && ((empty_body(text@)
                    || comment_only_body(text@) || plain_document_value(text@) is Some)
                    ==> p.events@.len() == (if v > 1 {
                    1int
                } else {
                    0int
                })) && (v > 1 ==> p.events@.len() > 0 && p.events@[0].code == 141 && p.events@[0].kind
                    == crate::event::EventKind::Warning && p.events@[0].lino == 1 && p.events@[0].filename@ == "-"@
                    && p.events@[0].message@ == crate::lexer::version_message(v))),
                Err(code) => r matches Err(e) && e.code == code && e.lino == 1 && e.filename@ == "-"@
                    && e.message@ == header_message(code),
            },
        },
        empty_body(text@) ==> (r matches Ok(p) && p.uxf@.value == ValueModel::List(
            ListModel { vtype: seq![], comment: seq![], values: seq![] },
        )),
        plain_document_value(text@) matches Some(v) ==> (r matches Ok(p) && p.uxf@.value == v),
        plain_document(text@) matches Some((tcs, v)) ==> (r matches Ok(p) && p.uxf@.value == v
            && p.uxf@.tclasses.len() == tcs.len() && forall|x: int|
            0 <= x < tcs.len() ==> p.uxf@.tclasses.contains(#[trigger] tcs[x])),
        comment_only_body(text@) ==> (r matches Ok(p) && p.uxf@.value == ValueModel::List(
            ListModel { vtype: seq![], comment: seq![], values: seq![] },
        ) && p.uxf@.comment == file_comment(text@)->Some_0),
        comment_syntax_error(text@) ==> (r matches Err(e) && e.code == 160 && e.filename@ == "-"@ && e.message@
            == comment_syntax_message(char_after(text@, after_header(text@)))),
        r matches Ok(p) ==> tables_defined(p.uxf@),
        file_comment_alone(text@) ==> (r matches Ok(p) ==> p.uxf@.comment == match file_comment(text@) {
            Some(c) => c,
            None => seq![],
        }),
{
    let imported: Vec<(String, Imported)> = Vec::new();
    let options = ParserOptions::standard();
    let bits: u8 = options.bits;
    assert(bits & 3 == 0) by (bit_vector)
        requires
            bits == 0,
    ;
    parse_options(text, "-", options, &imported)
}

/// What a text of plain definitions and data gives as a document: after
/// a valid header and an optional file comment, with no imports, tclass
/// definitions (see `def_tokens`; perhaps none) that are valid and of
/// distinct ttypes (see `mdefs_ok`), then plain data that reads as a value
/// (see `list_run`): the tclasses of the definitions, in their order, and
/// that value. `None` for other texts.
pub open spec fn plain_document(text: Seq<char>) -> Option<(Seq<TClassModel>, ValueModel)> {
    let ms = crate::lexer::def_tokens(text, crate::lexer::after_imports(text), false)->Some_0;
    if crate::lexer::plain_import_body(text) && imports_from(text, imports_start(text)).len() == 0 && mdefs_ok(ms, 0) {
        match list_run(ms, mdefs_end(ms, 0), seq![], None) {
            Some(Some(v)) => Some((mdefs(ms, 0).map_values(|d: (Seq<char>, Seq<Seq<char>>)| mdef_tclass(d)), v)),
            _ => None,
        }
    } else {
        None
    }
}

/// The lexed tokens of a text of plain definitions and data hold its
/// definitions and then its data, from the data's start.
proof fn lemma_plain_defs_data(text: Seq<char>, ts: Seq<Token>, i: int)
    requires
        crate::lexer::plain_import_body(text),
        imports_from(text, imports_start(text)).len() == 0,
        mdefs_ok(crate::lexer::def_tokens(text, crate::lexer::after_imports(text), false)->Some_0, 0),
        0 <= i,
        ts.len() > 0,
        ts.last().kind == TokenKind::Eof,
        ts.len() - 1 >= i,
        crate::lexer::token_models(ts.drop_last().skip(i)) == crate::lexer::def_tokens(
            text,
            crate::lexer::after_imports(text),
            false,
        )->Some_0,
        forall|j: int| 0 <= j < ts.len() && (#[trigger] ts[j]).kind == TokenKind::Field ==> ts[j].vtype@.len() == 0,
        forall|j: int| 0 <= j < ts.len() && (#[trigger] ts[j]).kind == TokenKind::TClassBegin ==> ts[j].comment@.len() == 0,
    ensures
        ({
            let d = crate::lexer::def_tokens(text, crate::lexer::after_imports(text), false)->Some_0;
            &&& defs_ok(ts, i)
            &&& defined_tclasses(ts, i) == mdefs(d, 0).map_values(|x: (Seq<char>, Seq<Seq<char>>)| mdef_tclass(x))
            &&& list_run(crate::lexer::token_models(ts), groups_end(ts, i), seq![], None) == list_run(
                d,
                mdefs_end(d, 0),
                seq![],
                None,
            )
            &&& list_run(d, mdefs_end(d, 0), seq![], None) matches Some(Some(v)) ==> (v is List || v is UxfMap)
        }),
{
    let d = crate::lexer::def_tokens(text, crate::lexer::after_imports(text), false)->Some_0;
    let pre = crate::lexer::token_models(ts.take(i));
    let e = (ts.last().kind, ts.last().value@);
    assert(ts =~= ts.take(i) + ts.drop_last().skip(i).push(ts.last()));
    assert(crate::lexer::token_models(ts) =~= pre + d.push(e));
    lemma_mdefs_ok_wrap(pre, d, e);
    lemma_mdefs_wrap(pre, d, e, 0);
    lemma_defs_from_models(ts, i);
    lemma_list_run_shift(pre, d.push(e), mdefs_end(d, 0), seq![], None);
    lemma_list_run_eof(d, e, mdefs_end(d, 0), seq![], None);
    lemma_list_run_list(d, mdefs_end(d, 0), seq![], None);
}

/// The tclasses that an imported file's text defines, where it is a valid
/// header, an optional file comment, no imports, tclass definitions (see
/// `def_tokens`) that are valid and of distinct ttypes (see `mdefs_ok`),
/// and plain data that reads as a value: those of its definitions, in
/// their order. `None` for other texts.
pub open spec fn plain_defined_tclasses(text: Seq<char>) -> Option<Seq<TClassModel>> {
    let ms = crate::lexer::def_tokens(text, crate::lexer::after_imports(text), false)->Some_0;
    if crate::lexer::plain_import_body(text) && imports_from(text, imports_start(text)).len() == 0 && mdefs_ok(ms, 0)
        && list_run(ms, mdefs_end(ms, 0), seq![], None) is Some {
        Some(mdefs(ms, 0).map_values(|d: (Seq<char>, Seq<Seq<char>>)| mdef_tclass(d)))
    } else {
        None
    }
}

/// Parses an imported file's UXF text: its imports (whose outcomes the
/// caller gives), tclasses and data, with no cleanup; returns the
/// tclasses that it defines or imports.
pub fn parse_import(text: &str, filename: &str, imported: &Vec<(String, Imported)>) -> (r: Result<
    Vec<TClass>,
    UxfError,
>)
    requires
        text@.len() < usize::MAX,
    ensures
        header_error(text@) matches Some(code) ==> (r matches Err(e) && e.code == code),
        comment_syntax_error(text@) ==> (r matches Err(e) && e.code == 160 && e.filename@ == filename@ && e.message@
            == comment_syntax_message(char_after(text@, after_header(text@)))),
        empty_body(text@) ==> (r matches Ok(ts) && ts@.len() == 0),
        plain_document_value(text@) is Some ==> (r matches Ok(ts) && ts@.len() == 0),
        plain_defined_tclasses(text@) matches Some(tcs) ==> (r matches Ok(ts) && tclass_models(ts@).len() == tcs.len()
            && (forall|x: int| 0 <= x < tcs.len() ==> tclass_models(ts@).contains(#[trigger] tcs[x])) && ttypes_sorted(
            tclass_models(ts@),
        )),
{
    let (lexed, start) = match lex(text, filename) {
        Ok(l) => l,
        Err(e) => return Err(e),
    };
    let mut uxf = Uxf::default();
    let mut parser = new_parser(filename, true);
    proof {
        if plain_document_value(text@) is Some {
            lemma_plain_document_data(text@, lexed.tokens@, start as int);
        }
        if plain_defined_tclasses(text@) is Some {
            assert(file_comment_alone(text@));
            lemma_plain_defs_data(text@, lexed.tokens@, start as int);
            assert(list_data(lexed.tokens@, groups_end(lexed.tokens@, start as int)) is Some);
        }
    }
    match run(&mut parser, &mut uxf, &lexed.tokens, start, imported, ParserOptions::standard()) {
        Ok(_) => {},
        Err(e) => return Err(e),
    }
    let items = parser.tclasses.items();
    assert(empty_body(text@) || plain_document_value(text@) is Some ==> items@.len() == 0) by {
        if empty_body(text@) || plain_document_value(text@) is Some {
            assert(tclass_models(items@).len() == items@.len());
        }
    }
    let mut out: Vec<TClass> = Vec::new();
    let mut i: usize = 0;
    while i < items.len()
        invariant
            i <= items@.len(),
            out@.len() == i,
            forall|j: int| 0 <= j < i ==> (#[trigger] out@[j])@ == items@[j]@,
        decreases items@.len() - i,
    {
        out.push(items[i].clone_tclass());
        i += 1;
    }
    proof {
        assert(tclass_models(out@) =~= tclass_models(items@));
        if plain_defined_tclasses(text@) is Some {
            let tcs = plain_defined_tclasses(text@)->Some_0;
            assert forall|x: int| 0 <= x < tcs.len() implies tclass_models(out@).contains(#[trigger] tcs[x]) by {
                assert(tcs[x] == defined_tclasses(lexed.tokens@, start as int)[x]);
            }
        }
    }
    Ok(out)
}

} // verus!
