//! Walking a value: the steps of a walk over it (list values and table
//! records in order, map items in key order, each key before its value),
//! and the tclasses of all the tables that it holds, in walk order.
use crate::tclass::{TClass, TClassModel};
use crate::key::KeyModel;
use crate::tclasses::tclass_models;
use crate::value::{ListModel, Value, ValueModel};
use crate::key::Key;
use vstd::prelude::*;

verus! {

/// The tclasses of the tables in a value, in walk order.
pub open spec fn tclasses_in(v: ValueModel) -> Seq<TClassModel>
    decreases v, 1int,
{
    match v {
        ValueModel::List(l) => tclasses_in_values(l.values),
        ValueModel::UxfMap(m) => tclasses_in_items(m.items),
        ValueModel::Table(t) => seq![t.tclass] + tclasses_in_records(t.records),
        _ => seq![],
    }
}

/// An empty list holds no tables.
pub proof fn lemma_tclasses_in_empty_list()
    ensures
        forall|vtype: Seq<char>, comment: Seq<char>|
            #[trigger] tclasses_in(ValueModel::List(ListModel { vtype, comment, values: seq![] })).len() == 0,
{
    assert forall|vtype: Seq<char>, comment: Seq<char>|
        #[trigger] tclasses_in(ValueModel::List(ListModel { vtype, comment, values: seq![] })).len() == 0 by {
        assert(tclasses_in_values(seq![]).len() == 0);
    }
}

/// The tclasses of the tables in a sequence of values, in walk order.
pub open spec fn tclasses_in_values(vs: Seq<ValueModel>) -> Seq<TClassModel>
    decreases vs, 0int,
{
    if vs.len() == 0 {
        seq![]
    } else {
        tclasses_in_values(vs.drop_last()) + tclasses_in(vs.last())
    }
}

/// The tclasses of the tables in map items' values, in walk order.
pub open spec fn tclasses_in_items(items: Seq<(KeyModel, ValueModel)>) -> Seq<TClassModel>
    decreases items, 0int,
{
    if items.len() == 0 {
        seq![]
    } else {
        proof {
            assert(decreases_to!(items => items[items.len() - 1]));
        }
        tclasses_in_items(items.drop_last()) + tclasses_in(items.last().1)
    }
}

/// The tclasses of the tables in table records, in walk order.
pub open spec fn tclasses_in_records(rs: Seq<Seq<ValueModel>>) -> Seq<TClassModel>
    decreases rs, 0int,
{
    if rs.len() == 0 {
        seq![]
    } else {
        tclasses_in_records(rs.drop_last()) + tclasses_in_values(rs.last())
    }
}

/// Appends the tclasses of the tables in `v` (see `tclasses_in`).
pub fn push_tclasses(out: &mut Vec<TClass>, v: &Value)
    ensures
        tclass_models(final(out)@) == tclass_models(old(out)@) + tclasses_in(v@),
    decreases v,
{
    proof {
        broadcast use crate::value::lemma_value_view;
    }
    let ghost start = tclass_models(out@);
    match v {
        Value::List(l) => {
            let ghost vm = l@.values;
            proof {
                crate::value::lemma_list_view(*l);
                crate::value::lemma_values_model(l.values@);
            }
            let mut i: usize = 0;
            assert(vm.take(0) =~= Seq::<ValueModel>::empty());
            assert(tclass_models(out@) =~= start + tclasses_in_values(vm.take(0)));
            while i < l.values.len()
                invariant
                    *v == Value::List(*l),
                    vm == l@.values,
                    vm.len() == l.values@.len(),
                    forall|k: int| 0 <= k < l.values@.len() ==> #[trigger] vm[k] == l.values@[k]@,
                    i <= l.values@.len(),
                    tclass_models(out@) == start + tclasses_in_values(vm.take(i as int)),
                decreases l.values@.len() - i,
            {
                proof {
                    assert(decreases_to!(*v => (*v)->List_0));
                    assert(decreases_to!(*l => l.values));
                    assert(decreases_to!(l.values => l.values@));
                    assert(decreases_to!(l.values@ => l.values@[i as int]));
                }
                push_tclasses(out, &l.values[i]);
                proof {
                    assert(vm.take(i + 1).drop_last() =~= vm.take(i as int));
                    assert(vm.take(i + 1).last() == vm[i as int]);
                    assert(tclass_models(out@) =~= start + tclasses_in_values(vm.take(i + 1)));
                }
                i += 1;
            }
            assert(vm.take(vm.len() as int) =~= vm);
        },
        Value::UxfMap(m) => {
            let ghost im = m@.items;
            proof {
                use_type_invariant(m);
                crate::value::lemma_map_view(*m);
            }
            let mut i: usize = 0;
            assert(im.take(0) =~= Seq::<(KeyModel, ValueModel)>::empty());
            assert(tclass_models(out@) =~= start + tclasses_in_items(im.take(0)));
            while i < m.values.len()
                invariant
                    *v == Value::UxfMap(*m),
                    im == m@.items,
                    im.len() == m.values@.len(),
                    forall|k: int| 0 <= k < m.values@.len() ==> #[trigger] im[k].1 == m.values@[k]@,
                    i <= m.values@.len(),
                    tclass_models(out@) == start + tclasses_in_items(im.take(i as int)),
                decreases m.values@.len() - i,
            {
                proof {
                    assert(decreases_to!(*v => (*v)->UxfMap_0));
                    assert(decreases_to!(*m => m.values));
                    assert(decreases_to!(m.values => m.values@));
                    assert(decreases_to!(m.values@ => m.values@[i as int]));
                }
                push_tclasses(out, &m.values[i]);
                proof {
                    assert(im.take(i + 1).drop_last() =~= im.take(i as int));
                    assert(im.take(i + 1).last() == im[i as int]);
                    assert(tclass_models(out@) =~= start + tclasses_in_items(im.take(i + 1)));
                }
                i += 1;
            }
            assert(im.take(im.len() as int) =~= im);
        },
        Value::Table(t) => {
            let ghost rm = t@.records;
            proof {
                crate::value::lemma_table_view(*t);
            }
            out.push(t.tclass.clone_tclass());
            let ghost mid = tclass_models(out@);
            assert(mid =~= start + seq![t@.tclass]);
            let mut r: usize = 0;
            assert(rm.take(0) =~= Seq::<Seq<ValueModel>>::empty());
            assert(tclass_models(out@) =~= mid + tclasses_in_records(rm.take(0)));
            while r < t.records.len()
                invariant
                    *v == Value::Table(*t),
                    rm == t@.records,
                    rm.len() == t.records@.len(),
                    forall|k: int| 0 <= k < t.records@.len() ==> #[trigger] rm[k] == crate::value::values_model(t.records@[k]@),
                    r <= t.records@.len(),
                    tclass_models(out@) == mid + tclasses_in_records(rm.take(r as int)),
                decreases t.records@.len() - r,
            {
                let record = &t.records[r];
                let ghost rv = rm[r as int];
                let ghost before = tclass_models(out@);
                proof {
                    crate::value::lemma_values_model(record@);
                }
                let mut c: usize = 0;
                assert(rv.take(0) =~= Seq::<ValueModel>::empty());
                assert(tclass_models(out@) =~= before + tclasses_in_values(rv.take(0)));
                while c < record.len()
                    invariant
                        *v == Value::Table(*t),
                        r < t.records@.len(),
                        *record == t.records@[r as int],
                        rv == crate::value::values_model(record@),
                        rv.len() == record@.len(),
                        forall|k: int| 0 <= k < record@.len() ==> #[trigger] rv[k] == record@[k]@,
                        c <= record@.len(),
                        tclass_models(out@) == before + tclasses_in_values(rv.take(c as int)),
                    decreases record@.len() - c,
                {
                    proof {
                        assert(decreases_to!(*v => (*v)->Table_0));
                        assert(decreases_to!(*t => t.records));
                        assert(decreases_to!(t.records => t.records@));
                        assert(decreases_to!(t.records@ => t.records@[r as int]));
                        assert(decreases_to!(t.records@[r as int] => t.records@[r as int]@));
                        assert(decreases_to!(t.records@[r as int]@ => t.records@[r as int]@[c as int]));
                    }
                    push_tclasses(out, &record[c]);
                    proof {
                        assert(rv.take(c + 1).drop_last() =~= rv.take(c as int));
                        assert(rv.take(c + 1).last() == rv[c as int]);
                        assert(tclass_models(out@) =~= before + tclasses_in_values(rv.take(c + 1)));
                    }
                    c += 1;
                }
                proof {
                    assert(rv.take(rv.len() as int) =~= rv);
                    assert(rm.take(r + 1).drop_last() =~= rm.take(r as int));
                    assert(rm.take(r + 1).last() == rm[r as int]);
                    assert(tclass_models(out@) =~= mid + tclasses_in_records(rm.take(r + 1)));
                }
                r += 1;
            }
            assert(rm.take(rm.len() as int) =~= rm);
            assert(tclass_models(out@) =~= start + tclasses_in(v@));
        },
        _ => {
            assert(tclass_models(out@) =~= start + tclasses_in(v@));
        },
    }
}

impl Value {
    /// Returns the tclasses of all the tables in this value, in walk order
    /// (see `tclasses_in`).
    pub fn tclasses(&self) -> (r: Vec<TClass>)
        ensures
            tclass_models(r@) == tclasses_in(self@),
    {
        let mut out: Vec<TClass> = Vec::new();
        push_tclasses(&mut out, self);
        assert(tclass_models(Seq::<TClass>::empty()) =~= Seq::<TClassModel>::empty());
        assert(tclass_models(out@) =~= tclasses_in(self@));
        out
    }
}


broadcast use crate::value::lemma_value_view;

/// A step of a walk over a value (see `Value::visit`).
#[derive(Clone, Copy, Debug, PartialEq, Eq, Structural)]
pub enum Visit {
    UxfBegin,
    UxfEnd,
    ListBegin,
    ListEnd,
    ListValueBegin,
    ListValueEnd,
    MapBegin,
    MapEnd,
    MapItemBegin,
    MapItemEnd,
    TableBegin,
    TableEnd,
    TableRecordBegin,
    TableRecordEnd,
    Value,
    Import,
    Ttype,
}

/// A map key as a value.
pub open spec fn key_value_model(k: KeyModel) -> ValueModel {
    match k {
        KeyModel::Bytes(b) => ValueModel::Bytes(b),
        KeyModel::Date(d) => ValueModel::Date(d),
        KeyModel::DateTime(d) => ValueModel::DateTime(d),
        KeyModel::Int(i) => ValueModel::Int(i),
        KeyModel::Str(t) => ValueModel::Str(t),
    }
}

/// The steps of a walk over a value: a collection is met (with itself)
/// at its start and (with null) at its end, each list value between
/// `ListValueBegin` and `ListValueEnd`, each map item between
/// `MapItemBegin` and `MapItemEnd` (its key, as a `Value` step, then its
/// value), each table record between `TableRecordBegin` and
/// `TableRecordEnd`; a scalar is one `Value` step.
pub open spec fn visit_trace(v: ValueModel) -> Seq<(Visit, ValueModel)>
    decreases v, 1int,
{
    match v {
        ValueModel::List(l) => seq![(Visit::ListBegin, v)] + list_values_trace(l.values) + seq![
            (Visit::ListEnd, ValueModel::Null),
        ],
        ValueModel::UxfMap(m) => seq![(Visit::MapBegin, v)] + items_trace(m.items) + seq![
            (Visit::MapEnd, ValueModel::Null),
        ],
        ValueModel::Table(t) => seq![(Visit::TableBegin, v)] + records_trace(t.records) + seq![
            (Visit::TableEnd, ValueModel::Null),
        ],
        _ => seq![(Visit::Value, v)],
    }
}

/// The steps of a walk over a list's values.
pub open spec fn list_values_trace(vs: Seq<ValueModel>) -> Seq<(Visit, ValueModel)>
    decreases vs, 0int,
{
    if vs.len() == 0 {
        seq![]
    } else {
        list_values_trace(vs.drop_last()) + seq![(Visit::ListValueBegin, ValueModel::Null)] + visit_trace(
            vs.last(),
        ) + seq![(Visit::ListValueEnd, ValueModel::Null)]
    }
}

/// The steps of a walk over a map's items.
pub open spec fn items_trace(items: Seq<(KeyModel, ValueModel)>) -> Seq<(Visit, ValueModel)>
    decreases items, 0int,
{
    if items.len() == 0 {
        seq![]
    } else {
        proof {
            assert(decreases_to!(items => items[items.len() - 1]));
        }
        items_trace(items.drop_last()) + seq![
            (Visit::MapItemBegin, ValueModel::Null),
            (Visit::Value, key_value_model(items.last().0)),
        ] + visit_trace(items.last().1) + seq![(Visit::MapItemEnd, ValueModel::Null)]
    }
}

/// The steps of a walk over the values of a record.
pub open spec fn record_trace(vs: Seq<ValueModel>) -> Seq<(Visit, ValueModel)>
    decreases vs, 0int,
{
    if vs.len() == 0 {
        seq![]
    } else {
        record_trace(vs.drop_last()) + visit_trace(vs.last())
    }
}

/// The steps of a walk over a table's records.
pub open spec fn records_trace(rs: Seq<Seq<ValueModel>>) -> Seq<(Visit, ValueModel)>
    decreases rs, 0int,
{
    if rs.len() == 0 {
        seq![]
    } else {
        records_trace(rs.drop_last()) + seq![(Visit::TableRecordBegin, ValueModel::Null)] + record_trace(
            rs.last(),
        ) + seq![(Visit::TableRecordEnd, ValueModel::Null)]
    }
}

/// The steps with their values as models.
pub open spec fn visit_models(s: Seq<(Visit, Value)>) -> Seq<(Visit, ValueModel)> {
    s.map_values(|p: (Visit, Value)| (p.0, p.1@))
}

/// Appends the steps of a walk over `v` (see `visit_trace`).
pub fn push_visits(out: &mut Vec<(Visit, Value)>, v: &Value)
    ensures
        visit_models(final(out)@) == visit_models(old(out)@) + visit_trace(v@),
    decreases v,
{
    proof {
        broadcast use crate::value::lemma_value_view;
    }
    let ghost start = visit_models(out@);
    match v {
        Value::List(l) => {
            let ghost vm = l@.values;
            proof {
                crate::value::lemma_list_view(*l);
                crate::value::lemma_values_model(l.values@);
            }
            out.push((Visit::ListBegin, v.clone_value()));
            let ghost mid = visit_models(out@);
            assert(mid =~= start + seq![(Visit::ListBegin, v@)]);
            let mut i: usize = 0;
            assert(vm.take(0) =~= Seq::<ValueModel>::empty());
            assert(visit_models(out@) =~= mid + list_values_trace(vm.take(0)));
            while i < l.values.len()
                invariant
                    *v == Value::List(*l),
                    vm == l@.values,
                    vm.len() == l.values@.len(),
                    forall|k: int| 0 <= k < l.values@.len() ==> #[trigger] vm[k] == l.values@[k]@,
                    i <= l.values@.len(),
                    visit_models(out@) == mid + list_values_trace(vm.take(i as int)),
                decreases l.values@.len() - i,
            {
                proof {
                    assert(decreases_to!(*v => (*v)->List_0));
                    assert(decreases_to!(*l => l.values));
                    assert(decreases_to!(l.values => l.values@));
                    assert(decreases_to!(l.values@ => l.values@[i as int]));
                }
                let ghost before = visit_models(out@);
                out.push((Visit::ListValueBegin, Value::Null));
                assert(visit_models(out@) =~= before + seq![(Visit::ListValueBegin, ValueModel::Null)]);
                push_visits(out, &l.values[i]);
                let ghost after = visit_models(out@);
                out.push((Visit::ListValueEnd, Value::Null));
                assert(visit_models(out@) =~= after + seq![(Visit::ListValueEnd, ValueModel::Null)]);
                proof {
                    assert(vm.take(i + 1).drop_last() =~= vm.take(i as int));
                    assert(vm.take(i + 1).last() == vm[i as int]);
                    assert(visit_models(out@) =~= mid + list_values_trace(vm.take(i + 1)));
                }
                i += 1;
            }
            assert(vm.take(vm.len() as int) =~= vm);
            let ghost before = visit_models(out@);
            out.push((Visit::ListEnd, Value::Null));
            assert(visit_models(out@) =~= before + seq![(Visit::ListEnd, ValueModel::Null)]);
            assert(visit_models(out@) =~= start + visit_trace(v@));
        },
        Value::UxfMap(m) => {
            let ghost im = m@.items;
            proof {
                use_type_invariant(m);
                crate::value::lemma_map_view(*m);
            }
            out.push((Visit::MapBegin, v.clone_value()));
            let ghost mid = visit_models(out@);
            assert(mid =~= start + seq![(Visit::MapBegin, v@)]);
            let mut i: usize = 0;
            assert(im.take(0) =~= Seq::<(KeyModel, ValueModel)>::empty());
            assert(visit_models(out@) =~= mid + items_trace(im.take(0)));
            while i < m.values.len()
                invariant
                    *v == Value::UxfMap(*m),
                    im == m@.items,
                    im.len() == m.values@.len(),
                    im.len() == m.keys@.len(),
                    forall|k: int| 0 <= k < m.values@.len() ==> #[trigger] im[k].1 == m.values@[k]@,
                    forall|k: int| 0 <= k < m.keys@.len() ==> #[trigger] im[k].0 == m.keys@[k]@,
                    i <= m.values@.len(),
                    visit_models(out@) == mid + items_trace(im.take(i as int)),
                decreases m.values@.len() - i,
            {
                proof {
                    assert(decreases_to!(*v => (*v)->UxfMap_0));
                    assert(decreases_to!(*m => m.values));
                    assert(decreases_to!(m.values => m.values@));
                    assert(decreases_to!(m.values@ => m.values@[i as int]));
                }
                let ghost before = visit_models(out@);
                out.push((Visit::MapItemBegin, Value::Null));
                let kv = key_value(&m.keys[i]);
                out.push((Visit::Value, kv));
                assert(visit_models(out@) =~= before + seq![
                    (Visit::MapItemBegin, ValueModel::Null),
                    (Visit::Value, key_value_model(im[i as int].0)),
                ]);
                push_visits(out, &m.values[i]);
                let ghost after = visit_models(out@);
                out.push((Visit::MapItemEnd, Value::Null));
                assert(visit_models(out@) =~= after + seq![(Visit::MapItemEnd, ValueModel::Null)]);
                proof {
                    assert(im.take(i + 1).drop_last() =~= im.take(i as int));
                    assert(im.take(i + 1).last() == im[i as int]);
                    assert(visit_models(out@) =~= mid + items_trace(im.take(i + 1)));
                }
                i += 1;
            }
            assert(im.take(im.len() as int) =~= im);
            let ghost before = visit_models(out@);
            out.push((Visit::MapEnd, Value::Null));
            assert(visit_models(out@) =~= before + seq![(Visit::MapEnd, ValueModel::Null)]);
            assert(visit_models(out@) =~= start + visit_trace(v@));
        },
        Value::Table(t) => {
            let ghost rm = t@.records;
            proof {
                crate::value::lemma_table_view(*t);
            }
            out.push((Visit::TableBegin, v.clone_value()));
            let ghost mid = visit_models(out@);
            assert(mid =~= start + seq![(Visit::TableBegin, v@)]);
            let mut r: usize = 0;
            assert(rm.take(0) =~= Seq::<Seq<ValueModel>>::empty());
            assert(visit_models(out@) =~= mid + records_trace(rm.take(0)));
            while r < t.records.len()
                invariant
                    *v == Value::Table(*t),
                    rm == t@.records,
                    rm.len() == t.records@.len(),
                    forall|k: int| 0 <= k < t.records@.len() ==> #[trigger] rm[k] == crate::value::values_model(t.records@[k]@),
                    r <= t.records@.len(),
                    visit_models(out@) == mid + records_trace(rm.take(r as int)),
                decreases t.records@.len() - r,
            {
                let record = &t.records[r];
                let ghost rv = rm[r as int];
                let ghost before0 = visit_models(out@);
                out.push((Visit::TableRecordBegin, Value::Null));
                let ghost before = visit_models(out@);
                assert(before =~= before0 + seq![(Visit::TableRecordBegin, ValueModel::Null)]);
                proof {
                    crate::value::lemma_values_model(record@);
                }
                let mut c: usize = 0;
                assert(rv.take(0) =~= Seq::<ValueModel>::empty());
                assert(visit_models(out@) =~= before + record_trace(rv.take(0)));
                while c < record.len()
                    invariant
                        *v == Value::Table(*t),
                        r < t.records@.len(),
                        *record == t.records@[r as int],
                        rv == crate::value::values_model(record@),
                        rv.len() == record@.len(),
                        forall|k: int| 0 <= k < record@.len() ==> #[trigger] rv[k] == record@[k]@,
                        c <= record@.len(),
                        visit_models(out@) == before + record_trace(rv.take(c as int)),
                    decreases record@.len() - c,
                {
                    proof {
                        assert(decreases_to!(*v => (*v)->Table_0));
                        assert(decreases_to!(*t => t.records));
                        assert(decreases_to!(t.records => t.records@));
                        assert(decreases_to!(t.records@ => t.records@[r as int]));
                        assert(decreases_to!(t.records@[r as int] => t.records@[r as int]@));
                        assert(decreases_to!(t.records@[r as int]@ => t.records@[r as int]@[c as int]));
                    }
                    push_visits(out, &record[c]);
                    proof {
                        assert(rv.take(c + 1).drop_last() =~= rv.take(c as int));
                        assert(rv.take(c + 1).last() == rv[c as int]);
                        assert(visit_models(out@) =~= before + record_trace(rv.take(c + 1)));
                    }
                    c += 1;
                }
                assert(rv.take(rv.len() as int) =~= rv);
                let ghost after = visit_models(out@);
                out.push((Visit::TableRecordEnd, Value::Null));
                assert(visit_models(out@) =~= after + seq![(Visit::TableRecordEnd, ValueModel::Null)]);
                proof {
                    assert(rm.take(r + 1).drop_last() =~= rm.take(r as int));
                    assert(rm.take(r + 1).last() == rm[r as int]);
                    assert(visit_models(out@) =~= mid + records_trace(rm.take(r + 1)));
                }
                r += 1;
            }
            assert(rm.take(rm.len() as int) =~= rm);
            let ghost before = visit_models(out@);
            out.push((Visit::TableEnd, Value::Null));
            assert(visit_models(out@) =~= before + seq![(Visit::TableEnd, ValueModel::Null)]);
            assert(visit_models(out@) =~= start + visit_trace(v@));
        },
        _ => {
            out.push((Visit::Value, v.clone_value()));
            assert(visit_models(out@) =~= start + visit_trace(v@));
        },
    }
}

/// A map key as a value.
fn key_value(k: &Key) -> (v: Value)
    ensures
        v@ == key_value_model(k@),
{
    proof {
        broadcast use crate::value::lemma_value_view;
    }
    match k {
        Key::Bytes(b) => Value::Bytes(b.clone()),
        Key::Date(d) => Value::Date(*d),
        Key::DateTime(d) => Value::DateTime(*d),
        Key::Int(i) => Value::Int(*i),
        Key::Str(t) => Value::Str(t.clone()),
    }
}

impl Value {
    /// Returns the steps of a walk over this value and, if it is a
    /// collection, over every value that it holds, recursively (see
    /// `visit_trace`): list values and table records (and the values in
    /// them) in order, map items in key order, key then value.
    pub fn visit(&self) -> (r: Vec<(Visit, Value)>)
        ensures
            visit_models(r@) == visit_trace(self@),
    {
        let mut out: Vec<(Visit, Value)> = Vec::new();
        push_visits(&mut out, self);
        assert(visit_models(Seq::<(Visit, Value)>::empty()) =~= Seq::<(Visit, ValueModel)>::empty());
        assert(visit_models(out@) =~= visit_trace(self@));
        out
    }
}

} // verus!
