//! Tables: a tclass (the table's type: its ttype and fields), an optional
//! comment, and zero or more records, each normally holding one value per
//! field.
use crate::error::UxfError;
use crate::tclass::{column_of, new_tclass_outcome, TClass};
use crate::uxf::Compare;
use crate::value::{
    clone_values, value_alike, value_same, values_model, Record, Table, TableModel, Value, ValueModel,
};
use vstd::prelude::*;

verus! {

broadcast use {
    crate::value::lemma_table_model,
    crate::value::lemma_records_model_len,
    crate::value::lemma_records_model_index,
    crate::value::lemma_values_model_len,
    crate::value::lemma_values_model_index,
};

/// `n` nulls.
pub open spec fn nulls(n: nat) -> Seq<ValueModel> {
    Seq::new(n, |i: int| ValueModel::Null)
}

/// The records and the pending values of a table of `n` fields after one
/// value is pushed: the value joins the pending ones, which become a
/// record once there are `n` of them.
pub open spec fn push_step(
    state: (Seq<Seq<ValueModel>>, Seq<ValueModel>),
    n: nat,
    v: ValueModel,
) -> (Seq<Seq<ValueModel>>, Seq<ValueModel>) {
    let p = state.1.push(v);
    if p.len() == n {
        (state.0.push(p), seq![])
    } else {
        (state.0, p)
    }
}

/// The records and the pending values of a table of `n` fields after the
/// values `vs` are pushed in turn.
pub open spec fn pushed_all(
    state: (Seq<Seq<ValueModel>>, Seq<ValueModel>),
    n: nat,
    vs: Seq<ValueModel>,
) -> (Seq<Seq<ValueModel>>, Seq<ValueModel>)
    decreases vs.len(),
{
    if vs.len() == 0 {
        state
    } else {
        push_step(pushed_all(state, n, vs.drop_last()), n, vs.last())
    }
}

/// The text of the error for appending a record of the wrong size.
pub open spec fn record_size_message(ttype: Seq<char>, n: nat, got: nat) -> Seq<char> {
    "rows for table of ttype "@ + ttype + " must have exactly "@ + crate::text::nat_text(n)
        + " values, got "@ + crate::text::nat_text(got)
}

impl TClass {
    /// Returns a record with one null per field, or an error (732) if the
    /// tclass is fieldless.
    pub fn record_of_nulls_x(&self, filename: &str, lino: usize) -> (r: Result<Record, UxfError>)
        ensures
            self@.1.len() == 0 ==> (r matches Err(e) && e.code == 732 && e.filename@ == filename@
                && e.lino == lino),
            self@.1.len() > 0 ==> (r matches Ok(rec) && values_model(rec@) == nulls(self@.1.len())),
    {
        if self.is_fieldless() {
            return Err(
                UxfError::new(
                    732,
                    String::from_str("can't create a record of nulls for a fieldless table's tclass"),
                    filename,
                    lino,
                ),
            );
        }
        let n = self.len();
        let mut record: Vec<Value> = Vec::new();
        let mut i: usize = 0;
        while i < n
            invariant
                i <= n,
                record@.len() == i,
                forall|k: int| 0 <= k < i ==> #[trigger] record@[k] == Value::Null,
            decreases n - i,
        {
            record.push(Value::Null);
            i += 1;
        }
        proof {
            broadcast use crate::value::lemma_value_view;
            assert(values_model(record@) =~= nulls(self@.1.len()));
        }
        Ok(record)
    }

    /// As `record_of_nulls_x`, with errors reported at `-` and line 0.
    pub fn record_of_nulls(&self) -> (r: Result<Record, UxfError>)
        ensures
            self@.1.len() == 0 ==> (r matches Err(e) && e.code == 732),
            self@.1.len() > 0 ==> (r matches Ok(rec) && values_model(rec@) == nulls(self@.1.len())),
    {
        self.record_of_nulls_x("-", 0)
    }
}

impl Table {
    /// Returns a new table with the given tclass and comment and no
    /// records.
    pub fn new(tclass: TClass, comment: &str) -> (t: Table)
        ensures
            t@ == (TableModel { tclass: tclass@, comment: comment@, records: seq![] }),
            t.pending().len() == 0,
    {
        let t = Table { tclass, comment: String::from_str(comment), pending_record: Vec::new(), records: Vec::new() };
        assert(t@.records =~= Seq::<Seq<ValueModel>>::empty());
        t
    }

    /// Returns a new table of a fieldless tclass with the given ttype (and
    /// no tclass comment), with the given comment, or an error if the ttype
    /// is invalid.
    pub fn new_fieldless(ttype: &str, comment: &str) -> (r: Result<Table, UxfError>)
        ensures
            match r {
                Ok(t) => crate::check::ttype_error(ttype@) is None && t@ == (TableModel {
                    tclass: (ttype@, seq![], seq![]),
                    comment: comment@,
                    records: seq![],
                }),
                Err(e) => new_tclass_outcome(Err(e), ttype@, seq![], seq![]),
            },
    {
        match TClass::new_fieldless(ttype, "") {
            Ok(tclass) => {
                proof {
                    reveal_strlit("");
                    assert(""@ =~= Seq::<char>::empty());
                }
                let t = Table::new(tclass, comment);
                assert(t@.tclass == (ttype@, Seq::<crate::field::FieldModel>::empty(), Seq::<char>::empty()));
                Ok(t)
            },
            Err(e) => Err(e),
        }
    }

    /// Returns the tclass.
    pub fn tclass(&self) -> (r: &TClass)
        ensures
            r@ == self@.tclass,
    {
        &self.tclass
    }

    /// Returns the ttype.
    pub fn ttype(&self) -> (r: &str)
        ensures
            r@ == self@.tclass.0,
    {
        self.tclass.ttype()
    }

    /// Returns the number of fields (values per record).
    pub fn ttype_len(&self) -> (n: usize)
        ensures
            n == self@.tclass.1.len(),
    {
        self.tclass.len()
    }

    /// Returns `true` if the table's tclass has no fields.
    pub fn is_fieldless(&self) -> (b: bool)
        ensures
            b == (self@.tclass.1.len() == 0),
    {
        self.tclass.is_fieldless()
    }

    /// Returns the `comment`, which may be empty.
    pub fn comment(&self) -> (r: &str)
        ensures
            r@ == self@.comment,
    {
        self.comment.as_str()
    }

    /// Returns the number of records.
    pub fn len(&self) -> (n: usize)
        ensures
            n == self@.records.len(),
    {
        self.records.len()
    }

    /// Returns `true` if there are no records.
    pub fn is_empty(&self) -> (b: bool)
        ensures
            b == (self@.records.len() == 0),
    {
        self.records.len() == 0
    }

    /// Returns the record at `row` if there is one; otherwise `None`.
    pub fn get(&self, row: usize) -> (r: Option<&Record>)
        ensures
            r is Some == (row < self@.records.len()),
            r matches Some(rec) ==> values_model(rec@) == self@.records[row as int],
    {
        if row < self.records.len() {
            Some(&self.records[row])
        } else {
            None
        }
    }

    /// Returns the first record if there is one; otherwise `None`.
    pub fn first(&self) -> (r: Option<&Record>)
        ensures
            r is Some == (self@.records.len() > 0),
            r matches Some(rec) ==> values_model(rec@) == self@.records[0],
    {
        self.get(0)
    }

    /// Returns the second record if there is one; otherwise `None`.
    pub fn second(&self) -> (r: Option<&Record>)
        ensures
            r is Some == (self@.records.len() > 1),
            r matches Some(rec) ==> values_model(rec@) == self@.records[1],
    {
        self.get(1)
    }

    /// Returns the third record if there is one; otherwise `None`.
    pub fn third(&self) -> (r: Option<&Record>)
        ensures
            r is Some == (self@.records.len() > 2),
            r matches Some(rec) ==> values_model(rec@) == self@.records[2],
    {
        self.get(2)
    }

    /// Returns the fourth record if there is one; otherwise `None`.
    pub fn fourth(&self) -> (r: Option<&Record>)
        ensures
            r is Some == (self@.records.len() > 3),
            r matches Some(rec) ==> values_model(rec@) == self@.records[3],
    {
        self.get(3)
    }

    /// Returns the last record if there is one; otherwise `None`.
    pub fn last(&self) -> (r: Option<&Record>)
        ensures
            r is Some == (self@.records.len() > 0),
            r matches Some(rec) ==> values_model(rec@) == self@.records.last(),
    {
        if self.records.len() > 0 {
            self.get(self.records.len() - 1)
        } else {
            None
        }
    }

    /// Returns the record at `row` as (field name, value) pairs in field
    /// order, if there is such a record; otherwise `None`. (Looking values
    /// up by field name does not depend on the order of the fields.)
    pub fn get_named(&self, row: usize) -> (r: Option<Vec<(&str, &Value)>>)
        requires
            row < self@.records.len() ==> self@.records[row as int].len() >= self@.tclass.1.len(),
        ensures
            r is Some == (row < self@.records.len()),
            r matches Some(named) ==> named@.len() == self@.tclass.1.len() && forall|i: int|
                0 <= i < named@.len() ==> (#[trigger] named@[i]).0@ == self@.tclass.1[i].0
                    && named@[i].1@ == self@.records[row as int][i],
    {
        proof {
            use_type_invariant(self);
        }
        if row >= self.records.len() {
            return None;
        }
        let fields = self.tclass.fields();
        let record = &self.records[row];
        let mut named: Vec<(&str, &Value)> = Vec::new();
        let mut i: usize = 0;
        while i < fields.len()
            invariant
                i <= fields@.len(),
                crate::field::field_models(fields@) == self@.tclass.1,
                row < self@.records.len(),
                *record == self.records@[row as int],
                values_model(record@) == self@.records[row as int],
                record@.len() >= fields@.len(),
                named@.len() == i,
                forall|k: int|
                    0 <= k < i ==> (#[trigger] named@[k]).0@ == self@.tclass.1[k].0 && named@[k].1@
                        == self@.records[row as int][k],
            decreases fields@.len() - i,
        {
            named.push((fields[i].name(), &record[i]));
            i += 1;
        }
        Some(named)
    }

    /// The first record as (field name, value) pairs (see `get_named`).
    pub fn first_named(&self) -> (r: Option<Vec<(&str, &Value)>>)
        requires
            self@.records.len() > 0 ==> self@.records[0].len() >= self@.tclass.1.len(),
        ensures
            r is Some == (self@.records.len() > 0),
            r matches Some(named) ==> named@.len() == self@.tclass.1.len() && forall|i: int|
                0 <= i < named@.len() ==> (#[trigger] named@[i]).0@ == self@.tclass.1[i].0
                    && named@[i].1@ == self@.records[0][i],
    {
        self.get_named(0)
    }

    /// The second record as (field name, value) pairs (see `get_named`).
    pub fn second_named(&self) -> (r: Option<Vec<(&str, &Value)>>)
        requires
            self@.records.len() > 1 ==> self@.records[1].len() >= self@.tclass.1.len(),
        ensures
            r is Some == (self@.records.len() > 1),
            r matches Some(named) ==> named@.len() == self@.tclass.1.len() && forall|i: int|
                0 <= i < named@.len() ==> (#[trigger] named@[i]).0@ == self@.tclass.1[i].0
                    && named@[i].1@ == self@.records[1][i],
    {
        self.get_named(1)
    }

    /// The third record as (field name, value) pairs (see `get_named`).
    pub fn third_named(&self) -> (r: Option<Vec<(&str, &Value)>>)
        requires
            self@.records.len() > 2 ==> self@.records[2].len() >= self@.tclass.1.len(),
        ensures
            r is Some == (self@.records.len() > 2),
            r matches Some(named) ==> named@.len() == self@.tclass.1.len() && forall|i: int|
                0 <= i < named@.len() ==> (#[trigger] named@[i]).0@ == self@.tclass.1[i].0
                    && named@[i].1@ == self@.records[2][i],
    {
        self.get_named(2)
    }

    /// The fourth record as (field name, value) pairs (see `get_named`).
    pub fn fourth_named(&self) -> (r: Option<Vec<(&str, &Value)>>)
        requires
            self@.records.len() > 3 ==> self@.records[3].len() >= self@.tclass.1.len(),
        ensures
            r is Some == (self@.records.len() > 3),
            r matches Some(named) ==> named@.len() == self@.tclass.1.len() && forall|i: int|
                0 <= i < named@.len() ==> (#[trigger] named@[i]).0@ == self@.tclass.1[i].0
                    && named@[i].1@ == self@.records[3][i],
    {
        self.get_named(3)
    }

    /// The last record as (field name, value) pairs (see `get_named`).
    pub fn last_named(&self) -> (r: Option<Vec<(&str, &Value)>>)
        requires
            self@.records.len() > 0 ==> self@.records.last().len() >= self@.tclass.1.len(),
        ensures
            r is Some == (self@.records.len() > 0),
            r matches Some(named) ==> named@.len() == self@.tclass.1.len() && forall|i: int|
                0 <= i < named@.len() ==> (#[trigger] named@[i]).0@ == self@.tclass.1[i].0
                    && named@[i].1@ == self@.records.last()[i],
    {
        if self.records.len() > 0 {
            self.get_named(self.records.len() - 1)
        } else {
            None
        }
    }

    /// Returns the value of the field with the given name in the record at
    /// `row` to change, if there are such a field and record; otherwise
    /// `None`.
    pub fn get_field_mut(&mut self, row: usize, fieldname: &str) -> (r: Option<&mut Value>)
        ensures
            r is Some == (row < old(self)@.records.len() && (column_of(old(self)@.tclass.1, fieldname@) matches Some(c)
                && c < old(self)@.records[row as int].len())),
            r matches Some(v) ==> column_of(old(self)@.tclass.1, fieldname@) matches Some(c) && v@
                == old(self)@.records[row as int][c] && final(self)@ == (TableModel {
                records: old(self)@.records.update(
                    row as int,
                    old(self)@.records[row as int].update(c, final(v)@),
                ),
                ..old(self)@
            }),
            r is None ==> final(self)@ == old(self)@,
    {
        match self.tclass.column_for_fieldname(fieldname) {
            Some(column) => {
                if row < self.records.len() && column < self.records[row].len() {
                    match self.get_mut(row) {
                        Some(record) => {
                            let ghost before = record@;
                            proof {
                                crate::value::lemma_values_model(before);
                                assert forall|v: Value| #[trigger] values_model(before.update(column as int, v))
                                    == values_model(before).update(column as int, v@) by {
                                    crate::value::lemma_values_model(before.update(column as int, v));
                                    assert(values_model(before.update(column as int, v)) =~= values_model(
                                        before,
                                    ).update(column as int, v@));
                                }
                            }
                            Some(&mut record[column])
                        },
                        None => None,
                    }
                } else {
                    None
                }
            },
            None => None,
        }
    }

    /// Returns the record at `row` to change, if there is one; otherwise
    /// `None`.
    pub fn get_mut(&mut self, row: usize) -> (r: Option<&mut Record>)
        ensures
            r is Some == (row < old(self)@.records.len()),
            r matches Some(rec) ==> values_model(rec@) == old(self)@.records[row as int] && final(self)@
                == (TableModel {
                records: old(self)@.records.update(row as int, values_model(final(rec)@)),
                ..old(self)@
            }),
            r is None ==> final(self)@ == old(self)@,
    {
        proof {
            use_type_invariant(&*self);
        }
        if row < self.records.len() {
            proof {
                assert forall|v: Vec<Value>| #[trigger] crate::value::records_model(self.records@.update(row as int, v))
                    == crate::value::records_model(self.records@).update(row as int, values_model(v@)) by {
                    assert(crate::value::records_model(self.records@.update(row as int, v))
                        =~= crate::value::records_model(self.records@).update(row as int, values_model(v@)));
                }
            }
            Some(&mut self.records[row])
        } else {
            None
        }
    }

    /// Returns the value of the field with the given name in the record at
    /// `row`, if there are such a field and record; otherwise `None`.
    pub fn get_field(&self, row: usize, fieldname: &str) -> (r: Option<&Value>)
        ensures
            r is Some == (row < self@.records.len() && (column_of(self@.tclass.1, fieldname@) matches Some(c)
                && c < self@.records[row as int].len())),
            r matches Some(v) ==> column_of(self@.tclass.1, fieldname@) matches Some(c) && v@
                == self@.records[row as int][c],
    {
        match self.tclass.column_for_fieldname(fieldname) {
            Some(column) => {
                if row < self.records.len() && column < self.records[row].len() {
                    Some(&self.records[row][column])
                } else {
                    None
                }
            },
            None => None,
        }
    }

    /// Appends the record, or returns an error if the table is fieldless
    /// (732) or the record does not have one value per field (736); the
    /// table is then unchanged.
    pub fn append_x(&mut self, record: Record, filename: &str, lino: usize) -> (r: Result<(), UxfError>)
        ensures
            old(self)@.tclass.1.len() == 0 ==> final(self)@ == old(self)@ && (r matches Err(e) && e.code
                == 732 && e.filename@ == filename@ && e.lino == lino && e.message@
                == "can't append a record to a fieldless table"@),
            old(self)@.tclass.1.len() > 0 && record@.len() == old(self)@.tclass.1.len() ==> r is Ok
                && final(self)@ == (TableModel {
                records: old(self)@.records.push(values_model(record@)),
                ..old(self)@
            }),
            old(self)@.tclass.1.len() > 0 && record@.len() != old(self)@.tclass.1.len() ==> final(self)@
                == old(self)@ && (r matches Err(e) && e.code == 736 && e.filename@ == filename@ && e.lino
                == lino && e.message@ == record_size_message(
                old(self)@.tclass.0,
                old(self)@.tclass.1.len(),
                record@.len(),
            )),
    {
        proof {
            use_type_invariant(&*self);
        }
        let n = self.tclass.len();
        if n == 0 {
            return Err(
                UxfError::new(732, String::from_str("can't append a record to a fieldless table"), filename, lino),
            );
        }
        if record.len() != n {
            let mut out: Vec<char> = Vec::new();
            crate::text::push_str(&mut out, "rows for table of ttype ");
            crate::text::push_str(&mut out, self.tclass.ttype());
            crate::text::push_str(&mut out, " must have exactly ");
            crate::text::push_nat(&mut out, n as u64);
            crate::text::push_str(&mut out, " values, got ");
            crate::text::push_nat(&mut out, record.len() as u64);
            proof {
                reveal_strlit("rows for table of ttype ");
                reveal_strlit(" must have exactly ");
                reveal_strlit(" values, got ");
                assert(out@ =~= record_size_message(self@.tclass.0, self@.tclass.1.len(), record@.len()));
            }
            let message = crate::util::str_for_chars(out.as_slice());
            return Err(UxfError::new(736, message, filename, lino));
        }
        let ghost rm = values_model(record@);
        let mut records: Vec<Vec<Value>> = Vec::new();
        std::mem::swap(&mut self.records, &mut records);
        records.push(record);
        self.records = records;
        assert(self@.records =~= old(self)@.records.push(rm));
        Ok(())
    }

    /// As `append_x`, with errors reported at `-` and line 0.
    pub fn append(&mut self, record: Record) -> (r: Result<(), UxfError>)
        ensures
            old(self)@.tclass.1.len() == 0 ==> final(self)@ == old(self)@ && (r matches Err(e) && e.code
                == 732),
            old(self)@.tclass.1.len() > 0 && record@.len() == old(self)@.tclass.1.len() ==> r is Ok
                && final(self)@ == (TableModel {
                records: old(self)@.records.push(values_model(record@)),
                ..old(self)@
            }),
            old(self)@.tclass.1.len() > 0 && record@.len() != old(self)@.tclass.1.len() ==> final(self)@
                == old(self)@ && (r matches Err(e) && e.code == 736),
    {
        self.append_x(record, "-", 0)
    }

    /// Appends a record of nulls, or returns an error (732) if the table is
    /// fieldless.
    pub fn append_empty_x(&mut self, filename: &str, lino: usize) -> (r: Result<(), UxfError>)
        ensures
            old(self)@.tclass.1.len() > 0 ==> r is Ok && final(self)@ == (TableModel {
                records: old(self)@.records.push(nulls(old(self)@.tclass.1.len())),
                ..old(self)@
            }),
            old(self)@.tclass.1.len() == 0 ==> final(self)@ == old(self)@ && (r matches Err(e) && e.code
                == 732 && e.filename@ == filename@ && e.lino == lino),
    {
        proof {
            use_type_invariant(&*self);
        }
        match self.tclass.record_of_nulls_x(filename, lino) {
            Ok(record) => {
                let mut records: Vec<Vec<Value>> = Vec::new();
                std::mem::swap(&mut self.records, &mut records);
                records.push(record);
                self.records = records;
                assert(self@.records =~= old(self)@.records.push(nulls(old(self)@.tclass.1.len())));
                Ok(())
            },
            Err(e) => Err(e),
        }
    }

    /// As `append_empty_x`, with errors reported at `-` and line 0.
    pub fn append_empty(&mut self) -> (r: Result<(), UxfError>)
        ensures
            old(self)@.tclass.1.len() > 0 ==> r is Ok && final(self)@ == (TableModel {
                records: old(self)@.records.push(nulls(old(self)@.tclass.1.len())),
                ..old(self)@
            }),
            old(self)@.tclass.1.len() == 0 ==> final(self)@ == old(self)@ && (r matches Err(e) && e.code
                == 732),
    {
        self.append_empty_x("-", 0)
    }

    /// The values pushed so far towards the next record (see `push_x`).
    pub closed spec fn pending(&self) -> Seq<ValueModel> {
        values_model(self.pending_record@)
    }

    /// Adds a value to the record being built; once it holds one value
    /// per field it is appended. A fieldless table takes no values (error
    /// 334).
    pub fn push_x(&mut self, value: Value, filename: &str, lino: usize) -> (r: Result<(), UxfError>)
        ensures
            old(self)@.tclass.1.len() == 0 ==> final(self)@ == old(self)@ && final(self).pending()
                == old(self).pending() && (r matches Err(e) && e.code == 334 && e.filename@ == filename@
                && e.lino == lino),
            old(self)@.tclass.1.len() > 0 ==> r is Ok && if old(self).pending().len() + 1
                == old(self)@.tclass.1.len() {
                final(self)@ == (TableModel {
                    records: old(self)@.records.push(old(self).pending().push(value@)),
                    ..old(self)@
                }) && final(self).pending().len() == 0
            } else {
                final(self)@ == old(self)@ && final(self).pending() == old(self).pending().push(value@)
            },
            final(self).pending().len() < final(self)@.tclass.1.len() || final(self)@.tclass.1.len() == 0,
    {
        proof {
            use_type_invariant(&*self);
        }
        if self.tclass.is_fieldless() {
            return Err(
                UxfError::new(
                    334,
                    String::from_str("can't append to a fieldless table"),
                    filename,
                    lino,
                ),
            );
        }
        let mut pending: Vec<Value> = Vec::new();
        std::mem::swap(&mut self.pending_record, &mut pending);
        pending.push(value);
        assert(values_model(pending@) =~= old(self).pending().push(value@));
        if pending.len() == self.tclass.len() {
            let mut records: Vec<Vec<Value>> = Vec::new();
            std::mem::swap(&mut self.records, &mut records);
            records.push(pending);
            self.records = records;
            assert(self@.records =~= old(self)@.records.push(old(self).pending().push(value@)));
            assert(values_model(self.pending_record@) =~= Seq::<ValueModel>::empty());
        } else {
            self.pending_record = pending;
        }
        Ok(())
    }

    /// The type that the next pushed value should have (for checking while
    /// parsing): the vtype of the field it is for (empty if that field has
    /// no vtype, or the table is fieldless).
    /// Pushes the values in turn (see `push_x`), or returns an error (334)
    /// if the table is fieldless and there are values (the table is then
    /// unchanged).
    pub fn push_many(&mut self, values: &[Value]) -> (r: Result<(), UxfError>)
        ensures
            old(self)@.tclass.1.len() == 0 ==> final(self)@ == old(self)@ && final(self).pending()
                == old(self).pending() && (values@.len() == 0 <==> r is Ok) && (r matches Err(e)
                ==> e.code == 334),
            old(self)@.tclass.1.len() > 0 ==> r is Ok && (final(self)@.records, final(self).pending())
                == pushed_all(
                (old(self)@.records, old(self).pending()),
                old(self)@.tclass.1.len(),
                values_model(values@),
            ) && final(self)@.tclass == old(self)@.tclass && final(self)@.comment == old(
                self,
            )@.comment,
    {
        let ghost vs = values_model(values@);
        let ghost n = self@.tclass.1.len();
        let ghost start = (self@.records, self.pending());
        proof {
            crate::value::lemma_values_model(values@);
        }
        let mut i: usize = 0;
        assert(vs.take(0) =~= Seq::<ValueModel>::empty());
        while i < values.len()
            invariant
                i <= values@.len(),
                vs == values_model(values@),
                vs.len() == values@.len(),
                forall|k: int| 0 <= k < values@.len() ==> #[trigger] vs[k] == values@[k]@,
                n == old(self)@.tclass.1.len(),
                start == (old(self)@.records, old(self).pending()),
                n > 0 ==> (self@.records, self.pending()) == pushed_all(start, n, vs.take(i as int)),
                self@.tclass == old(self)@.tclass,
                self@.comment == old(self)@.comment,
                n == 0 ==> self@ == old(self)@ && self.pending() == old(self).pending() && i == 0,
            decreases values@.len() - i,
        {
            let ghost before = (self@.records, self.pending());
            match self.push_x(values[i].clone_value(), "-", 0) {
                Ok(()) => {},
                Err(e) => return Err(e),
            }
            proof {
                assert(vs.take(i + 1).drop_last() =~= vs.take(i as int));
                assert(vs.take(i + 1).last() == vs[i as int]);
            }
            i += 1;
        }
        assert(vs.take(vs.len() as int) =~= vs);
        Ok(())
    }

    pub fn expected_type(&self) -> (r: String)
        ensures
            r@ == if self@.tclass.1.len() == 0 {
                seq![]
            } else {
                match self@.tclass.1[self.pending().len() as int].1 {
                    Some(vt) => vt,
                    None => seq![],
                }
            },
    {
        proof {
            use_type_invariant(self);
        }
        if self.tclass.is_fieldless() {
            return String::new();
        }
        let fields = self.tclass.fields();
        let i = self.pending_record.len();
        assert(fields@[i as int]@ == self@.tclass.1[i as int]);
        match fields[i].vtype() {
            Some(vt) => String::from_str(vt),
            None => String::new(),
        }
    }

    /// Truncates the table to hold at most `size` records.
    pub fn truncate(&mut self, size: usize)
        ensures
            final(self)@ == (TableModel {
                records: if size < old(self)@.records.len() {
                    old(self)@.records.take(size as int)
                } else {
                    old(self)@.records
                },
                ..old(self)@
            }),
    {
        proof {
            use_type_invariant(&*self);
        }
        let mut records: Vec<Vec<Value>> = Vec::new();
        std::mem::swap(&mut self.records, &mut records);
        records.truncate(size);
        self.records = records;
        proof {
            if size < old(self)@.records.len() {
                assert(self@.records =~= old(self)@.records.take(size as int));
            } else {
                assert(self@.records =~= old(self)@.records);
            }
        }
    }

    /// Deletes every record so that the table is empty.
    pub fn clear(&mut self)
        ensures
            final(self)@ == (TableModel { records: seq![], ..old(self)@ }),
    {
        proof {
            use_type_invariant(&*self);
        }
        self.records = Vec::new();
        assert(self@.records =~= Seq::<Seq<ValueModel>>::empty());
    }

    /// Returns the records, to use the whole `Vec` API for reading.
    pub fn inner(&self) -> (r: &Vec<Record>)
        ensures
            crate::value::records_model(r@) == self@.records,
    {
        &self.records
    }

    /// Returns a copy of this table (without any partly built record).
    pub fn clone_table(&self) -> (c: Table)
        ensures
            c@ == self@,
    {
        let mut records: Vec<Vec<Value>> = Vec::new();
        let mut r: usize = 0;
        while r < self.records.len()
            invariant
                r <= self.records@.len(),
                records@.len() == r,
                forall|k: int| 0 <= k < r ==> #[trigger] values_model(records@[k]@) == values_model(self.records@[k]@),
            decreases self.records@.len() - r,
        {
            records.push(clone_values(&self.records[r]));
            r += 1;
        }
        let c = Table {
            tclass: self.tclass.clone_tclass(),
            comment: self.comment.clone(),
            pending_record: Vec::new(),
            records,
        };
        assert(c@.records =~= self@.records);
        c
    }

    /// Returns `true` if this table and `other` are the same; comment
    /// differences do not matter where `compare` disregards comments.
    pub fn is_equivalent(&self, other: &Table, compare: Compare) -> (b: bool)
        ensures
            b == value_alike(ValueModel::Table(self@), ValueModel::Table(other@), compare.ignores_comments_spec()),
    {
        let a = Value::Table(self.clone_table());
        let b = Value::Table(other.clone_table());
        proof {
            broadcast use crate::value::lemma_value_view;
        }
        crate::value::same_value_with(&a, &b, compare.bits & 1 == 1)
    }
}

impl PartialEq for Table {
    fn eq(&self, other: &Self) -> (r: bool) {
        let r = self.is_equivalent(other, Compare::exact());
        proof {
            assert((0u8 & 1u8) == 0u8) by (bit_vector);
        }
        r
    }
}

impl vstd::std_specs::cmp::PartialEqSpecImpl for Table {
    open spec fn obeys_eq_spec() -> bool {
        true
    }

    open spec fn eq_spec(&self, other: &Table) -> bool {
        value_same(ValueModel::Table(self@), ValueModel::Table(other@))
    }
}

impl Eq for Table {
}

} // verus!
