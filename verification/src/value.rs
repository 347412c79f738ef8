//! UXF values: the scalars (null, bool, bytes, date, datetime, int, real,
//! str) and the collections (list, map, table) that hold them, with their
//! compact UXF text.
use crate::datetime::{date_text, datetime_text, push_date, push_datetime, Date, DateTime};
use crate::key::{key_lt, Key, KeyModel};
use crate::tclass::{TClass, TClassModel};
use crate::text::{int_text, push_int, push_str};
use crate::uxf::Compare;
use crate::util::{bytes_text, escaped, push_bytes_text, push_escaped, str_for_chars};
use vstd::prelude::*;

verus! {

/// The values of a list.
pub type Values = Vec<Value>;

/// The values of one table row.
pub type Record = Values;

/// A UXF value. A real is held as its UXF text (e.g., `0.15` or `-2.5e3`).
#[derive(Debug)]
pub enum Value {
    Null,
    Bool(bool),
    Bytes(Vec<u8>),
    Date(Date),
    DateTime(DateTime),
    Int(i64),
    List(List),
    UxfMap(UxfMap),
    Real(String),
    Str(String),
    Table(Table),
}

/// A list of values, with an optional vtype and an optional comment.
#[derive(Debug)]
pub struct List {
    pub(crate) vtype: String,
    pub(crate) comment: String,
    pub(crate) values: Vec<Value>,
}

/// A map of keys to values, with an optional ktype, an optional vtype,
/// and an optional comment. No two of its keys are the same.
#[derive(Debug)]
pub struct UxfMap {
    pub(crate) ktype: String,
    pub(crate) vtype: String,
    pub(crate) comment: String,
    pub(crate) pending_key: Option<Key>,
    pub(crate) keys: Vec<Key>,
    pub(crate) values: Vec<Value>,
}

/// A table: a tclass, an optional comment, and zero or more records.
#[derive(Debug)]
pub struct Table {
    pub(crate) tclass: TClass,
    pub(crate) comment: String,
    pub(crate) pending_record: Vec<Value>,
    pub(crate) records: Vec<Vec<Value>>,
}

impl Table {
    /// The record being built never holds a value for every field.
    #[verifier::type_invariant]
    pub(crate) open spec fn pending_fits(&self) -> bool {
        self.pending_record@.len() < self.tclass@.1.len() || self.tclass@.1.len() == 0
    }
}

/// What a value is.
pub enum ValueModel {
    Null,
    Bool(bool),
    Bytes(Seq<u8>),
    Date(Date),
    DateTime(DateTime),
    Int(i64),
    List(ListModel),
    UxfMap(MapModel),
    Real(Seq<char>),
    Str(Seq<char>),
    Table(TableModel),
}

/// What a list is: its vtype, comment, and values.
pub struct ListModel {
    pub vtype: Seq<char>,
    pub comment: Seq<char>,
    pub values: Seq<ValueModel>,
}

/// What a map is: its ktype, vtype, comment, and items in key order.
pub struct MapModel {
    pub ktype: Seq<char>,
    pub vtype: Seq<char>,
    pub comment: Seq<char>,
    pub items: Seq<(KeyModel, ValueModel)>,
}

/// What a table is: its tclass, comment, and records.
pub struct TableModel {
    pub tclass: TClassModel,
    pub comment: Seq<char>,
    pub records: Seq<Seq<ValueModel>>,
}

// ---------------------------------------------------------------------
// Models of values

/// Whether the keys are in strictly ascending key order (so no key occurs
/// twice).
pub open spec fn keys_sorted(keys: Seq<KeyModel>) -> bool {
    forall|i: int, j: int| 0 <= i < j < keys.len() ==> key_lt(#[trigger] keys[i], #[trigger] keys[j])
}

/// The keys of a map's items.
pub open spec fn keys_of(items: Seq<(KeyModel, ValueModel)>) -> Seq<KeyModel> {
    items.map_values(|p: (KeyModel, ValueModel)| p.0)
}

/// The models of stored keys.
pub open spec fn key_models(keys: Seq<Key>) -> Seq<KeyModel> {
    keys.map_values(|k: Key| k@)
}

impl UxfMap {
    /// A map's items are held in key order, so no key occurs twice.
    #[verifier::type_invariant]
    pub(crate) open spec fn keys_in_order(&self) -> bool {
        keys_sorted(key_models(self.keys@)) && self.keys@.len() == self.values@.len()
    }
}

/// What a value is.
pub closed spec fn value_model(v: Value) -> ValueModel
    decreases v, 0int,
{
    match v {
        Value::Null => ValueModel::Null,
        Value::Bool(b) => ValueModel::Bool(b),
        Value::Bytes(b) => ValueModel::Bytes(b@),
        Value::Date(d) => ValueModel::Date(d),
        Value::DateTime(d) => ValueModel::DateTime(d),
        Value::Int(i) => ValueModel::Int(i),
        Value::List(l) => ValueModel::List(
            ListModel { vtype: l.vtype@, comment: l.comment@, values: values_model(l.values@) },
        ),
        Value::UxfMap(m) => ValueModel::UxfMap(
            MapModel {
                ktype: m.ktype@,
                vtype: m.vtype@,
                comment: m.comment@,
                items: Seq::new(
                    m.values@.len(),
                    |i: int| (m.keys@[i]@, values_model(m.values@)[i]),
                ),
            },
        ),
        Value::Real(s) => ValueModel::Real(s@),
        Value::Str(s) => ValueModel::Str(s@),
        Value::Table(t) => ValueModel::Table(
            TableModel { tclass: t.tclass@, comment: t.comment@, records: records_model(t.records@) },
        ),
    }
}

/// What a sequence of values is.
pub closed spec fn values_model(vs: Seq<Value>) -> Seq<ValueModel>
    decreases vs, 0int,
{
    if vs.len() == 0 {
        seq![]
    } else {
        values_model(vs.drop_last()).push(value_model(vs.last()))
    }
}

/// What the stored keys and values of a map are, as items.
pub closed spec fn items_model(keys: Seq<Key>, vals: Seq<Value>) -> Seq<(KeyModel, ValueModel)> {
    Seq::new(vals.len(), |i: int| (keys[i]@, values_model(vals)[i]))
}

/// What a sequence of table records is.
pub closed spec fn records_model(rs: Seq<Vec<Value>>) -> Seq<Seq<ValueModel>>
    decreases rs, 0int,
{
    if rs.len() == 0 {
        seq![]
    } else {
        proof {
            assert(decreases_to!(rs => rs[rs.len() - 1]));
            assert(decreases_to!(rs[rs.len() - 1] => rs[rs.len() - 1]@));
        }
        records_model(rs.drop_last()).push(values_model(rs.last()@))
    }
}

impl View for Value {
    type V = ValueModel;

    open spec fn view(&self) -> ValueModel {
        value_model(*self)
    }
}

impl View for List {
    type V = ListModel;

    closed spec fn view(&self) -> ListModel {
        ListModel { vtype: self.vtype@, comment: self.comment@, values: values_model(self.values@) }
    }
}

impl View for UxfMap {
    type V = MapModel;

    closed spec fn view(&self) -> MapModel {
        MapModel {
            ktype: self.ktype@,
            vtype: self.vtype@,
            comment: self.comment@,
            items: items_model(self.keys@, self.values@),
        }
    }
}

impl View for Table {
    type V = TableModel;

    closed spec fn view(&self) -> TableModel {
        TableModel { tclass: self.tclass@, comment: self.comment@, records: records_model(self.records@) }
    }
}

/// A value's model is made from the models of its parts.
pub broadcast proof fn lemma_value_view(v: Value)
    ensures
        #[trigger] value_model(v) == match v {
            Value::Null => ValueModel::Null,
            Value::Bool(b) => ValueModel::Bool(b),
            Value::Bytes(b) => ValueModel::Bytes(b@),
            Value::Date(d) => ValueModel::Date(d),
            Value::DateTime(d) => ValueModel::DateTime(d),
            Value::Int(i) => ValueModel::Int(i),
            Value::List(l) => ValueModel::List(l@),
            Value::UxfMap(m) => ValueModel::UxfMap(m@),
            Value::Real(s) => ValueModel::Real(s@),
            Value::Str(s) => ValueModel::Str(s@),
            Value::Table(t) => ValueModel::Table(t@),
        },
{
}

// ---------------------------------------------------------------------
// Compact UXF text

/// The UXF text of a str: `<`, the escaped text, `>`.
pub open spec fn str_text(s: Seq<char>) -> Seq<char> {
    seq!['<'] + escaped(s) + seq!['>']
}

/// The UXF text of a comment: `#<`, the escaped text, `>`.
pub open spec fn comment_text(s: Seq<char>) -> Seq<char> {
    seq!['#', '<'] + escaped(s) + seq!['>']
}

/// The UXF text of a map key.
pub open spec fn key_text(k: KeyModel) -> Seq<char> {
    match k {
        KeyModel::Bytes(b) => bytes_text(b),
        KeyModel::Date(d) => date_text(d),
        KeyModel::DateTime(d) => datetime_text(d),
        KeyModel::Int(i) => int_text(i as int),
        KeyModel::Str(s) => str_text(s),
    }
}

/// The compact UXF text of a value (as `to_string()` writes it).
pub open spec fn value_text(v: ValueModel) -> Seq<char>
    decreases v, 0int,
{
    match v {
        ValueModel::Null => seq!['?'],
        ValueModel::Bool(b) => if b {
            seq!['y', 'e', 's']
        } else {
            seq!['n', 'o']
        },
        ValueModel::Bytes(b) => bytes_text(b),
        ValueModel::Date(d) => date_text(d),
        ValueModel::DateTime(d) => datetime_text(d),
        ValueModel::Int(i) => int_text(i as int),
        ValueModel::List(l) => list_head(l) + joined_text(l.values, '\n') + seq![']'],
        ValueModel::UxfMap(m) => map_head(m) + items_text(m.items) + seq!['}'],
        ValueModel::Real(s) => s,
        ValueModel::Str(s) => str_text(s),
        ValueModel::Table(t) => table_head(t) + records_text(t.records) + seq![')'],
    }
}

/// The texts of the values, separated by `sep`.
pub open spec fn joined_text(vs: Seq<ValueModel>, sep: char) -> Seq<char>
    decreases vs, 0int,
{
    if vs.len() == 0 {
        seq![]
    } else if vs.len() == 1 {
        value_text(vs[0])
    } else {
        joined_text(vs.drop_last(), sep) + seq![sep] + value_text(vs.last())
    }
}

/// The texts of map items (`key value`), one per line.
pub open spec fn items_text(items: Seq<(KeyModel, ValueModel)>) -> Seq<char>
    decreases items, 0int,
{
    if items.len() == 0 {
        seq![]
    } else {
        let last = key_text(items.last().0) + seq![' '] + value_text(items.last().1);
        if items.len() == 1 {
            last
        } else {
            items_text(items.drop_last()) + seq!['\n'] + last
        }
    }
}

/// The texts of table records (values separated by spaces), one per line.
pub open spec fn records_text(records: Seq<Seq<ValueModel>>) -> Seq<char>
    decreases records, 0int,
{
    if records.len() == 0 {
        seq![]
    } else if records.len() == 1 {
        joined_text(records[0], ' ')
    } else {
        records_text(records.drop_last()) + seq!['\n'] + joined_text(records.last(), ' ')
    }
}

/// `[`, then the comment, then the vtype (after a space if there is a
/// comment), then a space if there are values and a comment or vtype.
pub open spec fn list_head(l: ListModel) -> Seq<char> {
    let c = if l.comment.len() > 0 { comment_text(l.comment) } else { seq![] };
    let v = if l.vtype.len() > 0 {
        (if l.comment.len() > 0 { seq![' '] } else { seq![] }) + l.vtype
    } else {
        seq![]
    };
    let s = if l.values.len() > 0 && (l.comment.len() > 0 || l.vtype.len() > 0) {
        seq![' ']
    } else {
        seq![]
    };
    seq!['['] + c + v + s
}

/// `{`, then the comment, ktype and vtype (each after a space if something
/// came before it), then a space if there are items and something came
/// before.
pub open spec fn map_head(m: MapModel) -> Seq<char> {
    let c = if m.comment.len() > 0 { comment_text(m.comment) } else { seq![] };
    let after_c = m.comment.len() > 0;
    let k = if m.ktype.len() > 0 {
        (if after_c { seq![' '] } else { seq![] }) + m.ktype
    } else {
        seq![]
    };
    let after_k = after_c || m.ktype.len() > 0;
    let v = if m.vtype.len() > 0 {
        (if after_k { seq![' '] } else { seq![] }) + m.vtype
    } else {
        seq![]
    };
    let after_v = after_k || m.vtype.len() > 0;
    let s = if after_v && m.items.len() > 0 { seq![' '] } else { seq![] };
    seq!['{'] + c + k + v + s
}

/// `(`, then the comment and a space, then the ttype, then a space if
/// there are records.
pub open spec fn table_head(t: TableModel) -> Seq<char> {
    let c = if t.comment.len() > 0 { comment_text(t.comment) + seq![' '] } else { seq![] };
    let s = if t.records.len() > 0 { seq![' '] } else { seq![] };
    seq!['('] + c + t.tclass.0 + s
}


// ---------------------------------------------------------------------
// Lemmas about models

/// The model of a sequence of values holds the model of each value.
pub proof fn lemma_values_model(vs: Seq<Value>)
    ensures
        values_model(vs).len() == vs.len(),
        forall|i: int| 0 <= i < vs.len() ==> #[trigger] values_model(vs)[i] == value_model(vs[i]),
    decreases vs.len(),
{
    if vs.len() > 0 {
        lemma_values_model(vs.drop_last());
    }
}

/// The model of a sequence of values is as long as the sequence.
pub broadcast proof fn lemma_values_model_len(vs: Seq<Value>)
    ensures
        #[trigger] values_model(vs).len() == vs.len(),
{
    lemma_values_model(vs);
}

/// The model of a sequence of values holds the model of each value.
pub broadcast proof fn lemma_values_model_index(vs: Seq<Value>, i: int)
    requires
        0 <= i < vs.len(),
    ensures
        #[trigger] values_model(vs)[i] == vs[i]@,
{
    lemma_values_model(vs);
}

/// The text of the first `i + 1` values.
proof fn lemma_joined_step(vs: Seq<ValueModel>, i: int, sep: char)
    requires
        0 <= i < vs.len(),
    ensures
        joined_text(vs.take(i + 1), sep) == if i == 0 {
            value_text(vs[0])
        } else {
            joined_text(vs.take(i), sep) + seq![sep] + value_text(vs[i])
        },
{
    assert(vs.take(i + 1).drop_last() =~= vs.take(i));
    assert(vs.take(i + 1).last() == vs[i]);
}

/// The model of map items holds the model of each item.
pub proof fn lemma_items_model(keys: Seq<Key>, vals: Seq<Value>)
    ensures
        items_model(keys, vals).len() == vals.len(),
        forall|k: int| 0 <= k < vals.len() ==> #[trigger] items_model(keys, vals)[k] == (
            keys[k]@,
            vals[k]@,
        ),
{
    lemma_values_model(vals);
}

/// The model of a sequence of records holds the model of each record.
pub proof fn lemma_records_model(rs: Seq<Vec<Value>>)
    ensures
        records_model(rs).len() == rs.len(),
        forall|k: int| 0 <= k < rs.len() ==> #[trigger] records_model(rs)[k] == values_model(rs[k]@),
    decreases rs.len(),
{
    if rs.len() > 0 {
        lemma_records_model(rs.drop_last());
    }
}

/// What a list's model is made of.
pub(crate) broadcast proof fn lemma_list_view(l: List)
    ensures
        #[trigger] l@ == (ListModel { vtype: l.vtype@, comment: l.comment@, values: values_model(l.values@) }),
{
}

/// The model of values with one value replaced.
pub proof fn lemma_values_model_update(vs: Seq<Value>, i: int)
    requires
        0 <= i < vs.len(),
    ensures
        forall|v: Value| #[trigger] values_model(vs.update(i, v)) == values_model(vs).update(i, v@),
{
    lemma_values_model(vs);
    assert forall|v: Value| #[trigger] values_model(vs.update(i, v)) == values_model(vs).update(i, v@) by {
        lemma_values_model(vs.update(i, v));
        assert(values_model(vs.update(i, v)) =~= values_model(vs).update(i, v@));
    }
}

/// A map's model, from its fields.
pub(crate) broadcast proof fn lemma_map_model(m: UxfMap)
    ensures
        #[trigger] m@ == (MapModel {
            ktype: m.ktype@,
            vtype: m.vtype@,
            comment: m.comment@,
            items: items_model(m.keys@, m.values@),
        }),
{
}

/// A table's model, from its fields.
pub(crate) broadcast proof fn lemma_table_model(t: Table)
    ensures
        #[trigger] t@ == (TableModel { tclass: t.tclass@, comment: t.comment@, records: records_model(t.records@) }),
{
}

/// The model of map items with one value replaced.
pub proof fn lemma_items_model_update(keys: Seq<Key>, vals: Seq<Value>, i: int)
    requires
        0 <= i < vals.len(),
    ensures
        forall|v: Value| #[trigger] items_model(keys, vals.update(i, v)) == items_model(keys, vals).update(i, (keys[i]@, v@)),
{
    assert forall|v: Value| #[trigger] items_model(keys, vals.update(i, v)) == items_model(keys, vals).update(i, (keys[i]@, v@)) by {
        lemma_items_model(keys, vals.update(i, v));
        lemma_items_model(keys, vals);
        assert(items_model(keys, vals.update(i, v)) =~= items_model(keys, vals).update(i, (keys[i]@, v@)));
    }
}

/// The model of map items is as long as the values.
pub broadcast proof fn lemma_items_model_len(keys: Seq<Key>, vals: Seq<Value>)
    ensures
        #[trigger] items_model(keys, vals).len() == vals.len(),
{
    lemma_items_model(keys, vals);
}

/// The model of map items holds the model of each item.
pub broadcast proof fn lemma_items_model_index(keys: Seq<Key>, vals: Seq<Value>, i: int)
    requires
        0 <= i < vals.len(),
    ensures
        #[trigger] items_model(keys, vals)[i] == (keys[i]@, vals[i]@),
{
    lemma_items_model(keys, vals);
}

/// The model of records is as long as the records.
pub broadcast proof fn lemma_records_model_len(rs: Seq<Vec<Value>>)
    ensures
        #[trigger] records_model(rs).len() == rs.len(),
{
    lemma_records_model(rs);
}

/// The model of records holds the model of each record.
pub broadcast proof fn lemma_records_model_index(rs: Seq<Vec<Value>>, i: int)
    requires
        0 <= i < rs.len(),
    ensures
        #[trigger] records_model(rs)[i] == values_model(rs[i]@),
{
    lemma_records_model(rs);
}

/// What a map's model is made of.
pub(crate) proof fn lemma_map_view(m: UxfMap)
    requires
        m.keys@.len() == m.values@.len(),
    ensures
        m@.ktype == m.ktype@,
        m@.vtype == m.vtype@,
        m@.comment == m.comment@,
        m@.items == items_model(m.keys@, m.values@),
        m@.items.len() == m.values@.len(),
        forall|k: int| 0 <= k < m.values@.len() ==> #[trigger] m@.items[k] == (
            m.keys@[k]@,
            m.values@[k]@,
        ),
        keys_of(m@.items) == key_models(m.keys@),
{
    lemma_items_model(m.keys@, m.values@);
    assert(keys_of(m@.items) =~= key_models(m.keys@));
}

/// What a table's model is made of.
pub(crate) proof fn lemma_table_view(t: Table)
    ensures
        t@.tclass == t.tclass@,
        t@.comment == t.comment@,
        t@.records == records_model(t.records@),
        t@.records.len() == t.records@.len(),
        forall|k: int| 0 <= k < t.records@.len() ==> #[trigger] t@.records[k] == values_model(
            t.records@[k]@,
        ),
{
    lemma_records_model(t.records@);
}

// ---------------------------------------------------------------------
// Writing compact UXF text

/// Appends `<`, the escaped text, `>`.
pub fn push_str_text(out: &mut Vec<char>, s: &str)
    ensures
        final(out)@ == old(out)@ + str_text(s@),
{
    let c = crate::text::chars_of(s);
    out.push('<');
    push_escaped(out, c.as_slice());
    out.push('>');
    assert(final(out)@ =~= old(out)@ + str_text(s@));
}

/// Appends `#<`, the escaped text, `>`.
pub fn push_comment_text(out: &mut Vec<char>, s: &str)
    ensures
        final(out)@ == old(out)@ + comment_text(s@),
{
    let c = crate::text::chars_of(s);
    out.push('#');
    out.push('<');
    push_escaped(out, c.as_slice());
    out.push('>');
    assert(final(out)@ =~= old(out)@ + comment_text(s@));
}

/// Appends the UXF text of a map key.
pub fn push_key_text(out: &mut Vec<char>, k: &Key)
    ensures
        final(out)@ == old(out)@ + key_text(k@),
{
    match k {
        Key::Bytes(b) => push_bytes_text(out, b.as_slice()),
        Key::Date(d) => push_date(out, *d),
        Key::DateTime(d) => push_datetime(out, *d),
        Key::Int(i) => push_int(out, *i),
        Key::Str(s) => push_str_text(out, s.as_str()),
    }
}

fn push_list_head(out: &mut Vec<char>, l: &List)
    ensures
        final(out)@ == old(out)@ + list_head(l@),
{
    let ghost start = out@;
    proof {
        lemma_list_view(*l);
        lemma_values_model(l.values@);
    }
    let has_comment = !l.comment.as_str().is_empty();
    let has_vtype = !l.vtype.as_str().is_empty();
    out.push('[');
    if has_comment {
        push_comment_text(out, l.comment.as_str());
    }
    if has_vtype {
        if has_comment {
            out.push(' ');
        }
        push_str(out, l.vtype.as_str());
    }
    if l.values.len() > 0 && (has_comment || has_vtype) {
        out.push(' ');
    }
    assert(out@ =~= start + list_head(l@));
}

fn push_map_head(out: &mut Vec<char>, m: &UxfMap)
    ensures
        final(out)@ == old(out)@ + map_head(m@),
{
    let ghost start = out@;
    proof {
        use_type_invariant(m);
        lemma_map_view(*m);
    }
    let has_comment = !m.comment.as_str().is_empty();
    let has_ktype = !m.ktype.as_str().is_empty();
    let has_vtype = !m.vtype.as_str().is_empty();
    out.push('{');
    if has_comment {
        push_comment_text(out, m.comment.as_str());
    }
    if has_ktype {
        if has_comment {
            out.push(' ');
        }
        push_str(out, m.ktype.as_str());
    }
    if has_vtype {
        if has_comment || has_ktype {
            out.push(' ');
        }
        push_str(out, m.vtype.as_str());
    }
    if (has_comment || has_ktype || has_vtype) && m.values.len() > 0 {
        out.push(' ');
    }
    assert(out@ =~= start + map_head(m@));
}

fn push_table_head(out: &mut Vec<char>, t: &Table)
    ensures
        final(out)@ == old(out)@ + table_head(t@),
{
    let ghost start = out@;
    proof {
        lemma_table_view(*t);
    }
    out.push('(');
    if !t.comment.as_str().is_empty() {
        push_comment_text(out, t.comment.as_str());
        out.push(' ');
    }
    push_str(out, t.tclass.ttype());
    if t.records.len() > 0 {
        out.push(' ');
    }
    assert(out@ =~= start + table_head(t@));
}

/// Appends the compact UXF text of a value.
pub fn push_value_text(out: &mut Vec<char>, v: &Value)
    ensures
        final(out)@ == old(out)@ + value_text(v@),
    decreases v,
{
    let ghost start = out@;
    match v {
        Value::Null => {
            out.push('?');
            assert(out@ =~= start + value_text(v@));
        },
        Value::Bool(b) => {
            if *b {
                out.push('y');
                out.push('e');
                out.push('s');
            } else {
                out.push('n');
                out.push('o');
            }
            assert(out@ =~= start + value_text(v@));
        },
        Value::Bytes(b) => push_bytes_text(out, b.as_slice()),
        Value::Date(d) => push_date(out, *d),
        Value::DateTime(d) => push_datetime(out, *d),
        Value::Int(i) => push_int(out, *i),
        Value::Real(s) => push_str(out, s.as_str()),
        Value::Str(s) => push_str_text(out, s.as_str()),
        Value::List(l) => {
            push_list_head(out, l);
            let ghost vm = values_model(l.values@);
            proof {
                lemma_values_model(l.values@);
            }
            let ghost mid = out@;
            let mut i: usize = 0;
            assert(vm.take(0) =~= Seq::<ValueModel>::empty());
            while i < l.values.len()
                invariant
                    i <= l.values@.len(),
                    *v == Value::List(*l),
                    vm == values_model(l.values@),
                    vm.len() == l.values@.len(),
                    forall|k: int| 0 <= k < l.values@.len() ==> #[trigger] vm[k] == value_model(l.values@[k]),
                    out@ == mid + joined_text(vm.take(i as int), '\n'),
                decreases l.values@.len() - i,
            {
                if i > 0 {
                    out.push('\n');
                }
                proof {
                    lemma_joined_step(vm, i as int, '\n');
                    assert(decreases_to!(*v => (*v)->List_0));
                    assert(decreases_to!(*v => *l));
                    assert(decreases_to!(*l => l.values));
                    assert(decreases_to!(l.values => l.values@));
                    assert(decreases_to!(l.values@ => l.values@[i as int]));
                }
                push_value_text(out, &l.values[i]);
                i += 1;
                assert(out@ =~= mid + joined_text(vm.take(i as int), '\n'));
            }
            out.push(']');
            assert(vm.take(vm.len() as int) =~= vm);
            assert(out@ =~= start + value_text(v@));
        },
        Value::UxfMap(m) => {
            push_map_head(out, m);
            proof {
                use_type_invariant(m);
                lemma_map_view(*m);
            }
            let ghost im = m@.items;
            let ghost mid = out@;
            let mut k: usize = 0;
            assert(im.take(0) =~= Seq::<(KeyModel, ValueModel)>::empty());
            while k < m.values.len()
                invariant
                    k <= m.values@.len(),
                    m.keys@.len() == m.values@.len(),
                    *v == Value::UxfMap(*m),
                    im == m@.items,
                    im.len() == m.values@.len(),
                    forall|j: int| 0 <= j < m.values@.len() ==> #[trigger] im[j] == (
                        m.keys@[j]@,
                        m.values@[j]@,
                    ),
                    value_text(v@) == map_head(m@) + items_text(im) + seq!['}'],
                    out@ == mid + items_text(im.take(k as int)),
                decreases m.values@.len() - k,
            {
                if k > 0 {
                    out.push('\n');
                }
                push_key_text(out, &m.keys[k]);
                out.push(' ');
                proof {
                    assert(decreases_to!(*v => (*v)->UxfMap_0));
                    assert(decreases_to!(*m => m.values));
                    assert(decreases_to!(m.values => m.values@));
                    assert(decreases_to!(m.values@ => m.values@[k as int]));
                }
                push_value_text(out, &m.values[k]);
                proof {
                    assert(im.take(k + 1).drop_last() =~= im.take(k as int));
                    assert(im.take(k + 1).last() == im[k as int]);
                }
                k += 1;
                assert(out@ =~= mid + items_text(im.take(k as int)));
            }
            out.push('}');
            assert(im.take(im.len() as int) =~= im);
            assert(out@ =~= start + value_text(v@));
        },
        Value::Table(t) => {
            push_table_head(out, t);
            let ghost rm = records_model(t.records@);
            proof {
                lemma_records_model(t.records@);
            }
            let ghost mid = out@;
            let mut r: usize = 0;
            assert(rm.take(0) =~= Seq::<Seq<ValueModel>>::empty());
            while r < t.records.len()
                invariant
                    r <= t.records@.len(),
                    *v == Value::Table(*t),
                    rm == records_model(t.records@),
                    rm.len() == t.records@.len(),
                    forall|k: int| 0 <= k < t.records@.len() ==> #[trigger] rm[k] == values_model(t.records@[k]@),
                    out@ == mid + records_text(rm.take(r as int)),
                decreases t.records@.len() - r,
            {
                if r > 0 {
                    out.push('\n');
                }
                let ghost before = out@;
                let record = &t.records[r];
                let ghost vm = values_model(record@);
                proof {
                    lemma_values_model(record@);
                }
                let mut c: usize = 0;
                assert(vm.take(0) =~= Seq::<ValueModel>::empty());
                while c < record.len()
                    invariant
                        c <= record@.len(),
                        *v == Value::Table(*t),
                        r < t.records@.len(),
                        *record == t.records@[r as int],
                        vm == values_model(record@),
                        vm.len() == record@.len(),
                        forall|k: int| 0 <= k < record@.len() ==> #[trigger] vm[k] == value_model(record@[k]),
                        out@ == before + joined_text(vm.take(c as int), ' '),
                    decreases record@.len() - c,
                {
                    if c > 0 {
                        out.push(' ');
                    }
                    proof {
                        lemma_joined_step(vm, c as int, ' ');
                        assert(decreases_to!(*v => (*v)->Table_0));
                        assert(decreases_to!(*v => *t));
                        assert(decreases_to!(*t => t.records));
                        assert(decreases_to!(t.records => t.records@));
                        assert(decreases_to!(t.records@ => t.records@[r as int]));
                        assert(decreases_to!(t.records@[r as int] => t.records@[r as int]@));
                        assert(decreases_to!(t.records@[r as int]@ => t.records@[r as int]@[c as int]));
                    }
                    push_value_text(out, &record[c]);
                    c += 1;
                    assert(out@ =~= before + joined_text(vm.take(c as int), ' '));
                }
                proof {
                    assert(vm.take(vm.len() as int) =~= vm);
                    assert(rm.take(r + 1).drop_last() =~= rm.take(r as int));
                    assert(rm.take(r + 1).last() == rm[r as int]);
                }
                r += 1;
                assert(out@ =~= mid + records_text(rm.take(r as int)));
            }
            out.push(')');
            assert(rm.take(rm.len() as int) =~= rm);
            assert(out@ =~= start + value_text(v@));
        },
    }
}

impl Value {
    /// Returns the compact UXF text of this value, e.g., `[1\n2]`.
    pub fn to_string(&self) -> (s: String)
        ensures
            s@ == value_text(self@),
    {
        let mut out: Vec<char> = Vec::new();
        push_value_text(&mut out, self);
        assert(out@ =~= value_text(self@));
        str_for_chars(out.as_slice())
    }
}

impl List {
    /// Returns the compact UXF text of this list, e.g., `[int 1\n2]`.
    pub fn to_string(&self) -> (s: String)
        ensures
            s@ == value_text(ValueModel::List(self@)),
    {
        Value::List(self.clone_list()).to_string()
    }
}

impl UxfMap {
    /// Returns the compact UXF text of this map, e.g., `{1 <one>}`.
    pub fn to_string(&self) -> (s: String)
        ensures
            s@ == value_text(ValueModel::UxfMap(self@)),
    {
        Value::UxfMap(self.clone_map()).to_string()
    }
}

impl Table {
    /// Returns the compact UXF text of this table, e.g., `(Point 1 2)`.
    pub fn to_string(&self) -> (s: String)
        ensures
            s@ == value_text(ValueModel::Table(self@)),
    {
        Value::Table(self.clone_table()).to_string()
    }
}

impl Key {
    /// Returns the UXF text of this key, e.g., `<alpha>` or `17`.
    pub fn to_string(&self) -> (s: String)
        ensures
            s@ == key_text(self@),
    {
        let mut out: Vec<char> = Vec::new();
        push_key_text(&mut out, self);
        assert(out@ =~= key_text(self@));
        str_for_chars(out.as_slice())
    }
}

// ---------------------------------------------------------------------
// Sameness of values

/// Whether two values are the same, with comments ignored when `ic` holds:
/// scalars are equal; lists have the same vtype, comment, and the same
/// values; maps have the same ktype, vtype, comment, keys, and the same
/// values; tables have the same ttype and fields (tclass comments do not
/// count), the same comment, the same number of records, and records that
/// are the same as far as both go.
pub open spec fn value_alike(a: ValueModel, b: ValueModel, ic: bool) -> bool
    decreases a, 1int,
{
    match a {
        ValueModel::List(x) => match b {
            ValueModel::List(y) => x.vtype == y.vtype && (ic || x.comment == y.comment) && values_alike(
                x.values,
                y.values, ic),
            _ => false,
        },
        ValueModel::UxfMap(x) => match b {
            ValueModel::UxfMap(y) => x.ktype == y.ktype && x.vtype == y.vtype && (ic
                || x.comment == y.comment) && items_alike(x.items, y.items, ic),
            _ => false,
        },
        ValueModel::Table(x) => match b {
            ValueModel::Table(y) => x.tclass.0 == y.tclass.0 && x.tclass.1 == y.tclass.1
                && (ic || x.comment == y.comment) && records_alike(x.records, y.records, ic),
            _ => false,
        },
        _ => a == b,
    }
}

/// Whether two sequences of values have the same length and the same
/// values, pairwise.
pub open spec fn values_alike(xs: Seq<ValueModel>, ys: Seq<ValueModel>, ic: bool) -> bool
    decreases xs, 0int,
{
    xs.len() == ys.len() && (xs.len() == 0 || (value_alike(xs[0], ys[0], ic) && values_alike(
        xs.skip(1),
        ys.skip(1), ic)))
}

/// Whether two sequences of map items have the same length, the same keys,
/// and the same values, pairwise.
pub open spec fn items_alike(xs: Seq<(KeyModel, ValueModel)>, ys: Seq<(KeyModel, ValueModel)>, ic: bool) -> bool
    decreases xs, 0int,
{
    xs.len() == ys.len() && (xs.len() == 0 || (xs[0].0 == ys[0].0 && value_alike(xs[0].1, ys[0].1, ic)
        && items_alike(xs.skip(1), ys.skip(1), ic)))
}

/// Whether two records have the same values, pairwise, as far as both go.
pub open spec fn prefix_alike(xs: Seq<ValueModel>, ys: Seq<ValueModel>, ic: bool) -> bool
    decreases xs, 0int,
{
    xs.len() == 0 || ys.len() == 0 || (value_alike(xs[0], ys[0], ic) && prefix_alike(
        xs.skip(1),
        ys.skip(1), ic))
}

/// Whether two sequences of records have the same length and records that
/// are the same as far as both go, pairwise.
pub open spec fn records_alike(xs: Seq<Seq<ValueModel>>, ys: Seq<Seq<ValueModel>>, ic: bool) -> bool
    decreases xs, 0int,
{
    xs.len() == ys.len() && (xs.len() == 0 || (prefix_alike(xs[0], ys[0], ic) && records_alike(
        xs.skip(1),
        ys.skip(1), ic)))
}

/// Whether two values are the same, comments included (see
/// `value_alike`).
pub open spec fn value_same(a: ValueModel, b: ValueModel) -> bool {
    value_alike(a, b, false)
}

/// Whether two sequences of values are the same, pairwise.
pub open spec fn values_same(xs: Seq<ValueModel>, ys: Seq<ValueModel>) -> bool {
    values_alike(xs, ys, false)
}

/// Whether two sequences of map items are the same, pairwise.
pub open spec fn items_same(xs: Seq<(KeyModel, ValueModel)>, ys: Seq<(KeyModel, ValueModel)>) -> bool {
    items_alike(xs, ys, false)
}

/// Whether two records are the same as far as both go.
pub open spec fn prefix_same(xs: Seq<ValueModel>, ys: Seq<ValueModel>) -> bool {
    prefix_alike(xs, ys, false)
}

/// Whether two sequences of records are the same, pairwise.
pub open spec fn records_same(xs: Seq<Seq<ValueModel>>, ys: Seq<Seq<ValueModel>>) -> bool {
    records_alike(xs, ys, false)
}

/// Every value is the same as itself (so `==` on values, lists, maps, and
/// tables is reflexive), and sameness does not depend on the order of the
/// two values (so `==` is symmetric).
pub proof fn law_value_same_reflexive_symmetric(a: ValueModel, b: ValueModel)
    ensures
        value_same(a, a),
        value_same(a, b) == value_same(b, a),
{
    law_value_alike(a, b, false);
}

/// Whether comments are ignored or not, every value is alike to itself,
/// likeness does not depend on the order of the two values, and two values
/// that are the same, comments included, are alike.
pub proof fn law_value_alike(a: ValueModel, b: ValueModel, ic: bool)
    ensures
        value_alike(a, a, ic),
        value_alike(a, b, ic) == value_alike(b, a, ic),
        value_alike(a, b, false) ==> value_alike(a, b, ic),
    decreases a, 1int,
{
    match a {
        ValueModel::List(x) => {
            lemma_values_alike(x.values, x.values, ic);
            match b {
                ValueModel::List(y) => lemma_values_alike(x.values, y.values, ic),
                _ => {},
            }
        },
        ValueModel::UxfMap(x) => {
            lemma_items_alike(x.items, x.items, ic);
            match b {
                ValueModel::UxfMap(y) => lemma_items_alike(x.items, y.items, ic),
                _ => {},
            }
        },
        ValueModel::Table(x) => {
            lemma_records_alike(x.records, x.records, ic);
            match b {
                ValueModel::Table(y) => lemma_records_alike(x.records, y.records, ic),
                _ => {},
            }
        },
        _ => {},
    }
}

proof fn lemma_values_alike(xs: Seq<ValueModel>, ys: Seq<ValueModel>, ic: bool)
    ensures
        values_alike(xs, xs, ic),
        values_alike(xs, ys, ic) == values_alike(ys, xs, ic),
        values_alike(xs, ys, false) ==> values_alike(xs, ys, ic),
    decreases xs, 0int,
{
    if xs.len() > 0 {
        assert(decreases_to!(xs => xs[0]));
        law_value_alike(xs[0], xs[0], ic);
        if ys.len() > 0 {
            law_value_alike(xs[0], ys[0], ic);
        }
        lemma_values_alike(xs.skip(1), xs.skip(1), ic);
        if ys.len() > 0 {
            lemma_values_alike(xs.skip(1), ys.skip(1), ic);
        }
    }
}

proof fn lemma_items_alike(xs: Seq<(KeyModel, ValueModel)>, ys: Seq<(KeyModel, ValueModel)>, ic: bool)
    ensures
        items_alike(xs, xs, ic),
        items_alike(xs, ys, ic) == items_alike(ys, xs, ic),
        items_alike(xs, ys, false) ==> items_alike(xs, ys, ic),
    decreases xs, 0int,
{
    if xs.len() > 0 {
        assert(decreases_to!(xs => xs[0]));
        law_value_alike(xs[0].1, xs[0].1, ic);
        if ys.len() > 0 {
            law_value_alike(xs[0].1, ys[0].1, ic);
        }
        lemma_items_alike(xs.skip(1), xs.skip(1), ic);
        if ys.len() > 0 {
            lemma_items_alike(xs.skip(1), ys.skip(1), ic);
        }
    }
}

proof fn lemma_prefix_alike(xs: Seq<ValueModel>, ys: Seq<ValueModel>, ic: bool)
    ensures
        prefix_alike(xs, xs, ic),
        prefix_alike(xs, ys, ic) == prefix_alike(ys, xs, ic),
        prefix_alike(xs, ys, false) ==> prefix_alike(xs, ys, ic),
    decreases xs, 0int,
{
    if xs.len() > 0 {
        assert(decreases_to!(xs => xs[0]));
        law_value_alike(xs[0], xs[0], ic);
        if ys.len() > 0 {
            law_value_alike(xs[0], ys[0], ic);
        }
        lemma_prefix_alike(xs.skip(1), xs.skip(1), ic);
        if ys.len() > 0 {
            lemma_prefix_alike(xs.skip(1), ys.skip(1), ic);
        }
    }
}

proof fn lemma_records_alike(xs: Seq<Seq<ValueModel>>, ys: Seq<Seq<ValueModel>>, ic: bool)
    ensures
        records_alike(xs, xs, ic),
        records_alike(xs, ys, ic) == records_alike(ys, xs, ic),
        records_alike(xs, ys, false) ==> records_alike(xs, ys, ic),
    decreases xs, 0int,
{
    if xs.len() > 0 {
        assert(decreases_to!(xs => xs[0]));
        lemma_prefix_alike(xs[0], xs[0], ic);
        if ys.len() > 0 {
            lemma_prefix_alike(xs[0], ys[0], ic);
        }
        lemma_records_alike(xs.skip(1), xs.skip(1), ic);
        if ys.len() > 0 {
            lemma_records_alike(xs.skip(1), ys.skip(1), ic);
        }
    }
}

proof fn lemma_skip_step<A>(s: Seq<A>, i: int)
    requires
        0 <= i < s.len(),
    ensures
        s.skip(i).skip(1) == s.skip(i + 1),
        s.skip(i)[0] == s[i],
        s.skip(i).len() == s.len() - i,
{
    assert(s.skip(i).skip(1) =~= s.skip(i + 1));
}

fn same_bytes(a: &Vec<u8>, b: &Vec<u8>) -> (r: bool)
    ensures
        r == (a@ == b@),
{
    if a.len() != b.len() {
        return false;
    }
    let mut i: usize = 0;
    while i < a.len()
        invariant
            i <= a@.len(),
            a@.len() == b@.len(),
            forall|k: int| 0 <= k < i ==> a@[k] == b@[k],
        decreases a@.len() - i,
    {
        if a[i] != b[i] {
            return false;
        }
        i += 1;
    }
    assert(a@ =~= b@);
    true
}

/// Returns whether `a` and `b` are the same value, with comments ignored
/// when `ic` holds (see `value_alike`).
pub fn same_value_with(a: &Value, b: &Value, ic: bool) -> (r: bool)
    ensures
        r == value_alike(a@, b@, ic),
    decreases a,
{
    proof {
        broadcast use lemma_value_view;
    }
    match (a, b) {
        (Value::List(x), Value::List(y)) => {
            proof {
                lemma_list_view(*x);
        lemma_values_model(x.values@);
                lemma_list_view(*y);
        lemma_values_model(y.values@);
            }
            assert(a@ == ValueModel::List(x@));
            assert(b@ == ValueModel::List(y@));
            if !x.vtype.eq(&y.vtype) || (!ic && !x.comment.eq(&y.comment)) || x.values.len() != y.values.len() {
                return false;
            }
            let ghost (xs, ys) = (x@.values, y@.values);
            assert(xs.skip(0) =~= xs);
            assert(ys.skip(0) =~= ys);
            let mut i: usize = 0;
            while i < x.values.len()
                invariant
                    *a == Value::List(*x),
                    xs == x@.values,
                    ys == y@.values,
                    i <= x.values@.len(),
                    x.values@.len() == y.values@.len(),
                    xs.len() == x.values@.len(),
                    ys.len() == y.values@.len(),
                    forall|k: int| 0 <= k < x.values@.len() ==> #[trigger] xs[k] == x.values@[k]@,
                    forall|k: int| 0 <= k < y.values@.len() ==> #[trigger] ys[k] == y.values@[k]@,
                    values_alike(xs, ys, ic) == values_alike(xs.skip(i as int), ys.skip(i as int), ic),
                    value_alike(a@, b@, ic) == values_alike(xs, ys, ic),
                decreases x.values@.len() - i,
            {
                proof {
                    assert(decreases_to!(*a => (*a)->List_0));
                    assert(decreases_to!(*x => x.values));
                    assert(decreases_to!(x.values => x.values@));
                    assert(decreases_to!(x.values@ => x.values@[i as int]));
                    lemma_skip_step(xs, i as int);
                    lemma_skip_step(ys, i as int);
                }
                if !same_value_with(&x.values[i], &y.values[i], ic) {
                    assert(!values_alike(xs.skip(i as int), ys.skip(i as int), ic));
                    return false;
                }
                i += 1;
            }
            assert(xs.skip(i as int) =~= Seq::<ValueModel>::empty());
            assert(ys.skip(i as int) =~= Seq::<ValueModel>::empty());
            true
        },
        (Value::UxfMap(x), Value::UxfMap(y)) => {
            proof {
                use_type_invariant(x);
                use_type_invariant(y);
                lemma_map_view(*x);
                lemma_map_view(*y);
            }
            assert(a@ == ValueModel::UxfMap(x@));
            assert(b@ == ValueModel::UxfMap(y@));
            if !x.ktype.eq(&y.ktype) || !x.vtype.eq(&y.vtype) || (!ic && !x.comment.eq(&y.comment))
                || x.values.len() != y.values.len() {
                return false;
            }
            let ghost (xs, ys) = (x@.items, y@.items);
            assert(xs.skip(0) =~= xs);
            assert(ys.skip(0) =~= ys);
            let mut i: usize = 0;
            while i < x.values.len()
                invariant
                    *a == Value::UxfMap(*x),
                    xs == x@.items,
                    ys == y@.items,
                    i <= x.values@.len(),
                    x.values@.len() == y.values@.len(),
                    x.keys@.len() == x.values@.len(),
                    y.keys@.len() == y.values@.len(),
                    xs.len() == x.values@.len(),
                    ys.len() == y.values@.len(),
                    forall|k: int| 0 <= k < x.values@.len() ==> #[trigger] xs[k] == (x.keys@[k]@, x.values@[k]@),
                    forall|k: int| 0 <= k < y.values@.len() ==> #[trigger] ys[k] == (y.keys@[k]@, y.values@[k]@),
                    items_alike(xs, ys, ic) == items_alike(xs.skip(i as int), ys.skip(i as int), ic),
                    value_alike(a@, b@, ic) == items_alike(xs, ys, ic),
                decreases x.values@.len() - i,
            {
                proof {
                    assert(decreases_to!(*a => (*a)->UxfMap_0));
                    assert(decreases_to!(*x => x.values));
                    assert(decreases_to!(x.values => x.values@));
                    assert(decreases_to!(x.values@ => x.values@[i as int]));
                    lemma_skip_step(xs, i as int);
                    lemma_skip_step(ys, i as int);
                    assert(xs[i as int] == (x.keys@[i as int]@, x.values@[i as int]@));
                    assert(ys[i as int] == (y.keys@[i as int]@, y.values@[i as int]@));
                }
                if !x.keys[i].same_as(&y.keys[i]) || !same_value_with(&x.values[i], &y.values[i], ic) {
                    assert(!items_alike(xs.skip(i as int), ys.skip(i as int), ic));
                    return false;
                }
                i += 1;
            }
            assert(xs.skip(i as int) =~= Seq::<(KeyModel, ValueModel)>::empty());
            assert(ys.skip(i as int) =~= Seq::<(KeyModel, ValueModel)>::empty());
            true
        },
        (Value::Table(x), Value::Table(y)) => {
            proof {
                lemma_table_view(*x);
                lemma_table_view(*y);
            }
            assert(a@ == ValueModel::Table(x@));
            assert(b@ == ValueModel::Table(y@));
            if !x.tclass.same_as(&y.tclass) || (!ic && !x.comment.eq(&y.comment)) || x.records.len() != y.records.len() {
                return false;
            }
            let ghost (xs, ys) = (x@.records, y@.records);
            assert(xs.skip(0) =~= xs);
            assert(ys.skip(0) =~= ys);
            let mut r: usize = 0;
            while r < x.records.len()
                invariant
                    *a == Value::Table(*x),
                    xs == x@.records,
                    ys == y@.records,
                    r <= x.records@.len(),
                    x.records@.len() == y.records@.len(),
                    xs.len() == x.records@.len(),
                    ys.len() == y.records@.len(),
                    forall|k: int| 0 <= k < x.records@.len() ==> #[trigger] xs[k] == values_model(x.records@[k]@),
                    forall|k: int| 0 <= k < y.records@.len() ==> #[trigger] ys[k] == values_model(y.records@[k]@),
                    records_alike(xs, ys, ic) == records_alike(xs.skip(r as int), ys.skip(r as int), ic),
                    value_alike(a@, b@, ic) == records_alike(xs, ys, ic),
                decreases x.records@.len() - r,
            {
                let xr = &x.records[r];
                let yr = &y.records[r];
                let ghost (xv, yv) = (values_model(xr@), values_model(yr@));
                proof {
                    lemma_values_model(xr@);
                    lemma_values_model(yr@);
                    lemma_skip_step(xs, r as int);
                    lemma_skip_step(ys, r as int);
                }
                assert(xv.skip(0) =~= xv);
                assert(yv.skip(0) =~= yv);
                let mut c: usize = 0;
                while c < xr.len() && c < yr.len()
                    invariant
                        *a == Value::Table(*x),
                        r < x.records@.len(),
                        *xr == x.records@[r as int],
                        xv == values_model(xr@),
                        yv == values_model(yr@),
                        xv.len() == xr@.len(),
                        yv.len() == yr@.len(),
                        forall|k: int| 0 <= k < xr@.len() ==> #[trigger] xv[k] == value_model(xr@[k]),
                        forall|k: int| 0 <= k < yr@.len() ==> #[trigger] yv[k] == value_model(yr@[k]),
                        c <= xr@.len(),
                        c <= yr@.len(),
                        prefix_alike(xv, yv, ic) == prefix_alike(xv.skip(c as int), yv.skip(c as int), ic),
                        xs == x@.records,
                        ys == y@.records,
                        xs.len() == ys.len(),
                        xs.len() == x.records@.len(),
                        xs[r as int] == xv,
                        ys[r as int] == yv,
                        records_alike(xs, ys, ic) == records_alike(xs.skip(r as int), ys.skip(r as int), ic),
                        value_alike(a@, b@, ic) == records_alike(xs, ys, ic),
                        xs.skip(r as int)[0] == xs[r as int],
                        ys.skip(r as int)[0] == ys[r as int],
                    decreases xr@.len() - c,
                {
                    proof {
                        assert(decreases_to!(*a => (*a)->Table_0));
                        assert(decreases_to!(*x => x.records));
                        assert(decreases_to!(x.records => x.records@));
                        assert(decreases_to!(x.records@ => x.records@[r as int]));
                        assert(decreases_to!(x.records@[r as int] => x.records@[r as int]@));
                        assert(decreases_to!(x.records@[r as int]@ => x.records@[r as int]@[c as int]));
                        lemma_skip_step(xv, c as int);
                        lemma_skip_step(yv, c as int);
                    }
                    if !same_value_with(&xr[c], &yr[c], ic) {
                        assert(!prefix_alike(xv.skip(c as int), yv.skip(c as int), ic));
                        assert(!prefix_alike(xv, yv, ic));
                        assert(xs.skip(r as int).len() > 0);
                        assert(!records_alike(xs.skip(r as int), ys.skip(r as int), ic));
                        return false;
                    }
                    c += 1;
                }
                assert(prefix_alike(xv.skip(c as int), yv.skip(c as int), ic));
                r += 1;
            }
            assert(xs.skip(r as int) =~= Seq::<Seq<ValueModel>>::empty());
            assert(ys.skip(r as int) =~= Seq::<Seq<ValueModel>>::empty());
            true
        },
        (Value::Null, Value::Null) => true,
        (Value::Bool(x), Value::Bool(y)) => *x == *y,
        (Value::Bytes(x), Value::Bytes(y)) => same_bytes(x, y),
        (Value::Date(x), Value::Date(y)) => *x == *y,
        (Value::DateTime(x), Value::DateTime(y)) => *x == *y,
        (Value::Int(x), Value::Int(y)) => *x == *y,
        (Value::Real(x), Value::Real(y)) => x.eq(y),
        (Value::Str(x), Value::Str(y)) => x.eq(y),
        _ => false,
    }
}

/// Returns whether `a` and `b` are the same value (see `value_same`).
pub fn same_value(a: &Value, b: &Value) -> (r: bool)
    ensures
        r == value_same(a@, b@),
{
    same_value_with(a, b, false)
}

// ---------------------------------------------------------------------
// Copies of values

/// Returns a copy of the values.
pub fn clone_values(vs: &Vec<Value>) -> (r: Vec<Value>)
    ensures
        values_model(r@) == values_model(vs@),
        r@.len() == vs@.len(),
    decreases vs, 1int,
{
    proof {
        lemma_values_model(vs@);
    }
    let mut out: Vec<Value> = Vec::new();
    let mut i: usize = 0;
    while i < vs.len()
        invariant
            i <= vs@.len(),
            out@.len() == i,
            values_model(vs@).len() == vs@.len(),
            forall|k: int| 0 <= k < vs@.len() ==> #[trigger] values_model(vs@)[k] == value_model(vs@[k]),
            forall|k: int| 0 <= k < i ==> #[trigger] out@[k]@ == vs@[k]@,
        decreases vs@.len() - i,
    {
        proof {
            assert(decreases_to!(vs => vs@));
            assert(decreases_to!(vs@ => vs@[i as int]));
        }
        out.push(vs[i].clone_value());
        i += 1;
    }
    proof {
        lemma_values_model(out@);
        lemma_values_model(vs@);
        assert forall|k: int| 0 <= k < vs@.len() implies #[trigger] values_model(out@)[k] == values_model(vs@)[k] by {
            assert(out@[k]@ == vs@[k]@);
        }
        assert(values_model(out@) =~= values_model(vs@));
    }
    out
}

impl UxfMap {
    /// Returns a copy of this map (without any pending key).
    pub fn clone_map(&self) -> (c: UxfMap)
        ensures
            c@ == self@,
        decreases self, 2int,
    {
                proof {
                    use_type_invariant(self);
                    lemma_map_view(*self);
                    assert(decreases_to!(*self => self.values));
                }
                let mut keys: Vec<Key> = Vec::new();
                let mut i: usize = 0;
                while i < self.keys.len()
                    invariant
                        i <= self.keys@.len(),
                        keys@.len() == i,
                        forall|k: int| 0 <= k < i ==> #[trigger] keys@[k]@ == self.keys@[k]@,
                    decreases self.keys@.len() - i,
                {
                    keys.push(self.keys[i].clone_key());
                    i += 1;
                }
                let values = clone_values(&self.values);
                assert(key_models(keys@) =~= key_models(self.keys@));
                let c = UxfMap {
                    ktype: self.ktype.clone(),
                    vtype: self.vtype.clone(),
                    comment: self.comment.clone(),
                    pending_key: None,
                    keys,
                    values,
                };
                proof {
                    lemma_map_view(c);
                    lemma_values_model(c.values@);
                    lemma_values_model(self.values@);
                    assert(c@.items =~= self@.items);
                }
                c
    }
}

impl Value {
    /// Returns a copy of this value.
    pub fn clone_value(&self) -> (r: Value)
        ensures
            r@ == self@,
        decreases self, 0int,
    {
        proof {
            broadcast use lemma_value_view;
        }
        match self {
            Value::Null => Value::Null,
            Value::Bool(b) => Value::Bool(*b),
            Value::Bytes(b) => Value::Bytes(b.clone()),
            Value::Date(d) => Value::Date(*d),
            Value::DateTime(d) => Value::DateTime(*d),
            Value::Int(i) => Value::Int(*i),
            Value::Real(s) => Value::Real(s.clone()),
            Value::Str(s) => Value::Str(s.clone()),
            Value::List(l) => {
                proof {
                    assert(decreases_to!(*self => (*self)->List_0));
                    assert(decreases_to!(*l => l.values));
                }
                let values = clone_values(&l.values);
                let c = List { vtype: l.vtype.clone(), comment: l.comment.clone(), values };
                proof {
                    lemma_list_view(*l);
        lemma_values_model(l.values@);
                    lemma_list_view(c);
        lemma_values_model(c.values@);
                }
                Value::List(c)
            },
            Value::UxfMap(m) => {
                proof {
                    assert(decreases_to!(*self => (*self)->UxfMap_0));
                }
                Value::UxfMap(m.clone_map())
            },
            Value::Table(t) => {
                proof {
                    lemma_table_view(*t);
                }
                let mut records: Vec<Vec<Value>> = Vec::new();
                let mut r: usize = 0;
                while r < t.records.len()
                    invariant
                        *self == Value::Table(*t),
                        r <= t.records@.len(),
                        records@.len() == r,
                        forall|k: int| 0 <= k < r ==> #[trigger] values_model(records@[k]@) == values_model(t.records@[k]@),
                    decreases t.records@.len() - r,
                {
                    proof {
                        assert(decreases_to!(*self => (*self)->Table_0));
                        assert(decreases_to!(*t => t.records));
                        assert(decreases_to!(t.records => t.records@));
                        assert(decreases_to!(t.records@ => t.records@[r as int]));
                    }
                    records.push(clone_values(&t.records[r]));
                    r += 1;
                }
                let c = Table {
                    tclass: t.tclass.clone_tclass(),
                    comment: t.comment.clone(),
                    pending_record: Vec::new(),
                    records,
                };
                proof {
                    lemma_table_view(c);
                    assert(c@.records =~= t@.records);
                }
                Value::Table(c)
            },
        }
    }
}

// ---------------------------------------------------------------------
// Queries

/// The name of a value's type: `null`, or its vtype.
pub open spec fn typename_of(v: ValueModel) -> Seq<char> {
    match v {
        ValueModel::Null => "null"@,
        ValueModel::Bool(_) => "bool"@,
        ValueModel::Bytes(_) => "bytes"@,
        ValueModel::Date(_) => "date"@,
        ValueModel::DateTime(_) => "datetime"@,
        ValueModel::Int(_) => "int"@,
        ValueModel::List(_) => "list"@,
        ValueModel::UxfMap(_) => "map"@,
        ValueModel::Real(_) => "real"@,
        ValueModel::Str(_) => "str"@,
        ValueModel::Table(_) => "table"@,
    }
}

impl Value {
    /// Returns `true` if `Value::Null`; otherwise returns `false`.
    pub fn is_null(&self) -> (b: bool)
        ensures
            b == (*self is Null),
    {
        matches!(self, Value::Null)
    }

    /// Returns `true` if this is a scalar (single-valued); otherwise
    /// returns `false`.
    pub fn is_scalar(&self) -> (b: bool)
        ensures
            b == (*self is Bool || *self is Bytes || *self is Date || *self is DateTime || *self is Int
                || *self is Real || *self is Str),
    {
        matches!(
            self,
            Value::Bool(_) | Value::Bytes(_) | Value::Date(_) | Value::DateTime(_) | Value::Int(_)
                | Value::Real(_) | Value::Str(_)
        )
    }

    /// Returns `true` if this is a collection (a list, map, or table);
    /// otherwise returns `false`.
    pub fn is_collection(&self) -> (b: bool)
        ensures
            b == (*self is List || *self is UxfMap || *self is Table),
    {
        matches!(self, Value::List(_) | Value::UxfMap(_) | Value::Table(_))
    }

    /// Returns `true` if this can be used as a map key (bytes, date, int,
    /// or str); otherwise returns `false`.
    pub fn is_ktype(&self) -> (b: bool)
        ensures
            b == (*self is Bytes || *self is Date || *self is Int || *self is Str),
    {
        matches!(self, Value::Bytes(_) | Value::Date(_) | Value::Int(_) | Value::Str(_))
    }

    /// Returns `true` if `Value::Bool`; otherwise returns `false`.
    pub fn is_bool(&self) -> (b: bool)
        ensures
            b == (*self is Bool),
    {
        matches!(self, Value::Bool(_))
    }

    /// Returns `true` if `Value::Bytes`; otherwise returns `false`.
    pub fn is_bytes(&self) -> (b: bool)
        ensures
            b == (*self is Bytes),
    {
        matches!(self, Value::Bytes(_))
    }

    /// Returns `true` if `Value::Date`; otherwise returns `false`.
    pub fn is_date(&self) -> (b: bool)
        ensures
            b == (*self is Date),
    {
        matches!(self, Value::Date(_))
    }

    /// Returns `true` if `Value::DateTime`; otherwise returns `false`.
    pub fn is_datetime(&self) -> (b: bool)
        ensures
            b == (*self is DateTime),
    {
        matches!(self, Value::DateTime(_))
    }

    /// Returns `true` if `Value::Int`; otherwise returns `false`.
    pub fn is_int(&self) -> (b: bool)
        ensures
            b == (*self is Int),
    {
        matches!(self, Value::Int(_))
    }

    /// Returns `true` if `Value::List`; otherwise returns `false`.
    pub fn is_list(&self) -> (b: bool)
        ensures
            b == (*self is List),
    {
        matches!(self, Value::List(_))
    }

    /// Returns `true` if `Value::UxfMap`; otherwise returns `false`.
    pub fn is_map(&self) -> (b: bool)
        ensures
            b == (*self is UxfMap),
    {
        matches!(self, Value::UxfMap(_))
    }

    /// Returns `true` if `Value::Real`; otherwise returns `false`.
    pub fn is_real(&self) -> (b: bool)
        ensures
            b == (*self is Real),
    {
        matches!(self, Value::Real(_))
    }

    /// Returns `true` if `Value::Str`; otherwise returns `false`.
    pub fn is_str(&self) -> (b: bool)
        ensures
            b == (*self is Str),
    {
        matches!(self, Value::Str(_))
    }

    /// Returns `true` if `Value::Table`; otherwise returns `false`.
    pub fn is_table(&self) -> (b: bool)
        ensures
            b == (*self is Table),
    {
        matches!(self, Value::Table(_))
    }

    /// Returns `Some(bool)` if `Value::Bool`; otherwise returns `None`.
    pub fn as_bool(&self) -> (r: Option<bool>)
        ensures
            r == match *self {
                Value::Bool(b) => Some(b),
                _ => None::<bool>,
            },
    {
        if let Value::Bool(b) = self {
            Some(*b)
        } else {
            None
        }
    }

    /// Returns `Some(&Vec<u8>)` if `Value::Bytes`; otherwise returns `None`.
    pub fn as_bytes(&self) -> (r: Option<&Vec<u8>>)
        ensures
            r is Some == (*self is Bytes),
            r matches Some(b) ==> *self == Value::Bytes(*b),
    {
        if let Value::Bytes(b) = self {
            Some(b)
        } else {
            None
        }
    }

    /// Returns `Some(Date)` if `Value::Date`; otherwise returns `None`.
    pub fn as_date(&self) -> (r: Option<Date>)
        ensures
            r == match *self {
                Value::Date(d) => Some(d),
                _ => None::<Date>,
            },
    {
        if let Value::Date(d) = self {
            Some(*d)
        } else {
            None
        }
    }

    /// Returns `Some(DateTime)` if `Value::DateTime`; otherwise returns
    /// `None`.
    pub fn as_datetime(&self) -> (r: Option<DateTime>)
        ensures
            r == match *self {
                Value::DateTime(d) => Some(d),
                _ => None::<DateTime>,
            },
    {
        if let Value::DateTime(d) = self {
            Some(*d)
        } else {
            None
        }
    }

    /// Returns `Some(i64)` if `Value::Int`; otherwise returns `None`.
    pub fn as_int(&self) -> (r: Option<i64>)
        ensures
            r == match *self {
                Value::Int(i) => Some(i),
                _ => None::<i64>,
            },
    {
        if let Value::Int(i) = self {
            Some(*i)
        } else {
            None
        }
    }

    /// Returns `Some(&List)` if `Value::List`; otherwise returns `None`.
    pub fn as_list(&self) -> (r: Option<&List>)
        ensures
            r is Some == (*self is List),
            r matches Some(l) ==> *self == Value::List(*l),
    {
        if let Value::List(l) = self {
            Some(l)
        } else {
            None
        }
    }

    /// Returns `Some(&mut List)` if `Value::List`; otherwise returns `None`.
    pub fn as_list_mut(&mut self) -> (r: Option<&mut List>)
        ensures
            r is Some == (*old(self) is List),
            r matches Some(l) ==> *old(self) == Value::List(*l) && *final(self) == Value::List(*final(l)),
            r is None ==> *final(self) == *old(self),
    {
        match self {
            Value::List(l) => Some(l),
            _ => None,
        }
    }

    /// Returns `Some(&UxfMap)` if `Value::UxfMap`; otherwise returns `None`.
    pub fn as_map(&self) -> (r: Option<&UxfMap>)
        ensures
            r is Some == (*self is UxfMap),
            r matches Some(m) ==> *self == Value::UxfMap(*m),
    {
        if let Value::UxfMap(m) = self {
            Some(m)
        } else {
            None
        }
    }

    /// Returns `Some(&mut UxfMap)` if `Value::UxfMap`; otherwise returns
    /// `None`.
    pub fn as_map_mut(&mut self) -> (r: Option<&mut UxfMap>)
        ensures
            r is Some == (*old(self) is UxfMap),
            r matches Some(m) ==> *old(self) == Value::UxfMap(*m) && *final(self) == Value::UxfMap(*final(m)),
            r is None ==> *final(self) == *old(self),
    {
        match self {
            Value::UxfMap(m) => Some(m),
            _ => None,
        }
    }

    /// Returns `Some(&str)`, the real's UXF text, if `Value::Real`;
    /// otherwise returns `None`.
    pub fn as_real(&self) -> (r: Option<&str>)
        ensures
            r is Some == (*self is Real),
            r matches Some(s) ==> self@ == ValueModel::Real(s@),
    {
        proof {
            broadcast use lemma_value_view;
        }
        if let Value::Real(s) = self {
            Some(s.as_str())
        } else {
            None
        }
    }

    /// Returns `Some(&str)` if `Value::Str`; otherwise returns `None`.
    pub fn as_str(&self) -> (r: Option<&str>)
        ensures
            r is Some == (*self is Str),
            r matches Some(s) ==> self@ == ValueModel::Str(s@),
    {
        proof {
            broadcast use lemma_value_view;
        }
        if let Value::Str(s) = self {
            Some(s.as_str())
        } else {
            None
        }
    }

    /// Returns `Some(&Table)` if `Value::Table`; otherwise returns `None`.
    pub fn as_table(&self) -> (r: Option<&Table>)
        ensures
            r is Some == (*self is Table),
            r matches Some(t) ==> *self == Value::Table(*t),
    {
        if let Value::Table(t) = self {
            Some(t)
        } else {
            None
        }
    }

    /// Returns `Some(&mut Table)` if `Value::Table`; otherwise returns
    /// `None`.
    pub fn as_table_mut(&mut self) -> (r: Option<&mut Table>)
        ensures
            r is Some == (*old(self) is Table),
            r matches Some(t) ==> *old(self) == Value::Table(*t) && *final(self) == Value::Table(*final(t)),
            r is None ==> *final(self) == *old(self),
    {
        match self {
            Value::Table(t) => Some(t),
            _ => None,
        }
    }

    /// Returns `null` if the value is `Value::Null`; otherwise returns the
    /// value's vtype (`bool`, `bytes`, ..., `table`).
    pub fn typename(&self) -> (r: &'static str)
        ensures
            r@ == typename_of(self@),
    {
        proof {
            broadcast use lemma_value_view;
        }
        match self {
            Value::Null => "null",
            Value::Bool(_) => "bool",
            Value::Bytes(_) => "bytes",
            Value::Date(_) => "date",
            Value::DateTime(_) => "datetime",
            Value::Int(_) => "int",
            Value::List(_) => "list",
            Value::UxfMap(_) => "map",
            Value::Real(_) => "real",
            Value::Str(_) => "str",
            Value::Table(_) => "table",
        }
    }

    /// Returns whether this value and `other` are the same (see
    /// `value_alike`); comment differences do not matter where `compare`
    /// disregards comments (`equivalent()` or `ignore_comments()`).
    pub fn is_equivalent(&self, other: &Value, compare: Compare) -> (b: bool)
        ensures
            b == value_alike(self@, other@, compare.ignores_comments_spec()),
    {
        same_value_with(self, other, compare.bits & 1 == 1)
    }
}

impl Default for Value {
    fn default() -> (v: Value)
        ensures
            v is Null,
    {
        Value::Null
    }
}

impl PartialEq for Value {
    fn eq(&self, other: &Self) -> (r: bool) {
        same_value(self, other)
    }
}

impl vstd::std_specs::cmp::PartialEqSpecImpl for Value {
    open spec fn obeys_eq_spec() -> bool {
        true
    }

    open spec fn eq_spec(&self, other: &Value) -> bool {
        value_same(self@, other@)
    }
}

impl Eq for Value {
}

// ---------------------------------------------------------------------
// Conversions

impl From<bool> for Value {
    fn from(b: bool) -> (v: Value) {
        Value::Bool(b)
    }
}

impl vstd::std_specs::convert::FromSpecImpl<bool> for Value {
    open spec fn obeys_from_spec() -> bool {
        true
    }

    open spec fn from_spec(b: bool) -> Value {
        Value::Bool(b)
    }
}

impl From<i64> for Value {
    fn from(i: i64) -> (v: Value) {
        Value::Int(i)
    }
}

impl vstd::std_specs::convert::FromSpecImpl<i64> for Value {
    open spec fn obeys_from_spec() -> bool {
        true
    }

    open spec fn from_spec(i: i64) -> Value {
        Value::Int(i)
    }
}

impl From<Vec<u8>> for Value {
    fn from(b: Vec<u8>) -> (v: Value) {
        Value::Bytes(b)
    }
}

impl vstd::std_specs::convert::FromSpecImpl<Vec<u8>> for Value {
    open spec fn obeys_from_spec() -> bool {
        true
    }

    open spec fn from_spec(b: Vec<u8>) -> Value {
        Value::Bytes(b)
    }
}

impl From<String> for Value {
    fn from(s: String) -> (v: Value) {
        Value::Str(s)
    }
}

impl vstd::std_specs::convert::FromSpecImpl<String> for Value {
    open spec fn obeys_from_spec() -> bool {
        true
    }

    open spec fn from_spec(s: String) -> Value {
        Value::Str(s)
    }
}

impl From<Date> for Value {
    fn from(d: Date) -> (v: Value) {
        Value::Date(d)
    }
}

impl vstd::std_specs::convert::FromSpecImpl<Date> for Value {
    open spec fn obeys_from_spec() -> bool {
        true
    }

    open spec fn from_spec(d: Date) -> Value {
        Value::Date(d)
    }
}

impl From<DateTime> for Value {
    fn from(d: DateTime) -> (v: Value) {
        Value::DateTime(d)
    }
}

impl vstd::std_specs::convert::FromSpecImpl<DateTime> for Value {
    open spec fn obeys_from_spec() -> bool {
        true
    }

    open spec fn from_spec(d: DateTime) -> Value {
        Value::DateTime(d)
    }
}

impl From<List> for Value {
    fn from(l: List) -> (v: Value) {
        Value::List(l)
    }
}

impl vstd::std_specs::convert::FromSpecImpl<List> for Value {
    open spec fn obeys_from_spec() -> bool {
        true
    }

    open spec fn from_spec(l: List) -> Value {
        Value::List(l)
    }
}

impl From<UxfMap> for Value {
    fn from(m: UxfMap) -> (v: Value) {
        Value::UxfMap(m)
    }
}

impl vstd::std_specs::convert::FromSpecImpl<UxfMap> for Value {
    open spec fn obeys_from_spec() -> bool {
        true
    }

    open spec fn from_spec(m: UxfMap) -> Value {
        Value::UxfMap(m)
    }
}

impl From<Table> for Value {
    fn from(t: Table) -> (v: Value) {
        Value::Table(t)
    }
}

impl vstd::std_specs::convert::FromSpecImpl<Table> for Value {
    open spec fn obeys_from_spec() -> bool {
        true
    }

    open spec fn from_spec(t: Table) -> Value {
        Value::Table(t)
    }
}

impl From<Key> for Value {
    fn from(key: Key) -> (v: Value) {
        match key {
            Key::Bytes(b) => Value::Bytes(b),
            Key::Date(d) => Value::Date(d),
            Key::DateTime(d) => Value::DateTime(d),
            Key::Int(i) => Value::Int(i),
            Key::Str(s) => Value::Str(s),
        }
    }
}

impl vstd::std_specs::convert::FromSpecImpl<Key> for Value {
    open spec fn obeys_from_spec() -> bool {
        true
    }

    open spec fn from_spec(key: Key) -> Value {
        match key {
            Key::Bytes(b) => Value::Bytes(b),
            Key::Date(d) => Value::Date(d),
            Key::DateTime(d) => Value::DateTime(d),
            Key::Int(i) => Value::Int(i),
            Key::Str(s) => Value::Str(s),
        }
    }
}

} // verus!
