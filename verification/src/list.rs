//! Lists: a sequence of values with an optional vtype (which the list does
//! not enforce) and an optional comment.
use crate::check::{check_vtype, vtype_error};
use crate::error::UxfError;
use crate::uxf::Compare;
use crate::value::{
    clone_values, lemma_values_model, lemma_values_model_update, value_alike, value_same, values_model, List, ListModel,
    Value, ValueModel,
};
use vstd::prelude::*;

verus! {

broadcast use {
    crate::value::lemma_list_view,
    crate::value::lemma_values_model_len,
    crate::value::lemma_values_model_index,
};

impl List {
    /// Returns a new list with the given `vtype` and `comment` and no
    /// values, or an error if the `vtype` is nonempty and invalid. An empty
    /// `vtype` means that any value type is acceptable.
    pub fn new(vtype: &str, comment: &str) -> (r: Result<List, UxfError>)
        ensures
            r is Ok <==> (vtype@.len() == 0 || vtype_error(vtype@) is None),
            r matches Ok(l) ==> l@ == (ListModel { vtype: vtype@, comment: comment@, values: seq![] }),
            r matches Err(e) ==> vtype_error(vtype@) == Some((e.code, e.message@)) && e.filename@
                == "-"@ && e.lino == 0,
    {
        if !vtype.is_empty() {
            match check_vtype(vtype) {
                Ok(()) => {},
                Err(e) => return Err(e),
            }
        }
        let l = List {
            vtype: String::from_str(vtype),
            comment: String::from_str(comment),
            values: Vec::new(),
        };
        assert(l@.values =~= Seq::<ValueModel>::empty());
        Ok(l)
    }

    /// An empty list with the given vtype and comment, taken as they are.
    pub(crate) fn with_parts(vtype: &str, comment: &str) -> (l: List)
        ensures
            l@ == (ListModel { vtype: vtype@, comment: comment@, values: seq![] }),
    {
        let l = List { vtype: String::from_str(vtype), comment: String::from_str(comment), values: Vec::new() };
        assert(l@.values =~= Seq::<ValueModel>::empty());
        l
    }

    /// Returns the `vtype`, which may be empty.
    pub fn vtype(&self) -> (r: &str)
        ensures
            r@ == self@.vtype,
    {
        self.vtype.as_str()
    }

    /// The type that the next value should have (for checking while
    /// parsing): the vtype.
    pub fn expected_type(&self) -> (r: String)
        ensures
            r@ == self@.vtype,
    {
        self.vtype.clone()
    }

    /// Returns the `comment`, which may be empty.
    pub fn comment(&self) -> (r: &str)
        ensures
            r@ == self@.comment,
    {
        self.comment.as_str()
    }

    /// Returns the number of values in the list.
    pub fn len(&self) -> (n: usize)
        ensures
            n == self@.values.len(),
    {
        self.values.len()
    }

    /// Returns `true` if the list is empty; otherwise returns `false`.
    pub fn is_empty(&self) -> (b: bool)
        ensures
            b == (self@.values.len() == 0),
    {
        self.values.len() == 0
    }

    /// Returns the first value if there is one; otherwise `None`.
    pub fn first(&self) -> (r: Option<&Value>)
        ensures
            r is Some == (self@.values.len() > 0),
            r matches Some(v) ==> v@ == self@.values[0],
    {
        self.get(0)
    }

    /// Returns the value at `index` if `index` is in bounds; otherwise
    /// `None`.
    pub fn get(&self, index: usize) -> (r: Option<&Value>)
        ensures
            r is Some == (index < self@.values.len()),
            r matches Some(v) ==> v@ == self@.values[index as int],
    {
        if index < self.values.len() {
            Some(&self.values[index])
        } else {
            None
        }
    }

    /// Returns the value at `index` to change if `index` is in bounds;
    /// otherwise `None`.
    pub fn get_mut(&mut self, index: usize) -> (r: Option<&mut Value>)
        ensures
            r is Some == (index < old(self)@.values.len()),
            r matches Some(v) ==> v@ == old(self)@.values[index as int] && final(self)@ == (ListModel {
                values: old(self)@.values.update(index as int, final(v)@),
                ..old(self)@
            }),
            r is None ==> final(self)@ == old(self)@,
    {
        proof {
            lemma_values_model(self.values@);
        }
        if index < self.values.len() {
            proof {
                lemma_values_model_update(self.values@, index as int);
            }
            Some(&mut self.values[index])
        } else {
            None
        }
    }

    /// Returns the last value if there is one; otherwise `None`.
    pub fn last(&self) -> (r: Option<&Value>)
        ensures
            r is Some == (self@.values.len() > 0),
            r matches Some(v) ==> v@ == self@.values.last(),
    {
        if self.values.len() > 0 {
            Some(&self.values[self.values.len() - 1])
        } else {
            None
        }
    }

    /// Returns the last value to change if there is one; otherwise `None`.
    pub fn last_mut(&mut self) -> (r: Option<&mut Value>)
        ensures
            r is Some == (old(self)@.values.len() > 0),
            r matches Some(v) ==> v@ == old(self)@.values.last() && final(self)@ == (ListModel {
                values: old(self)@.values.update(old(self)@.values.len() - 1, final(v)@),
                ..old(self)@
            }),
            r is None ==> final(self)@ == old(self)@,
    {
        let n = self.len();
        if n > 0 {
            self.get_mut(n - 1)
        } else {
            None
        }
    }

    /// Appends the given value to the end of the list.
    pub fn push(&mut self, value: Value)
        ensures
            final(self)@ == (ListModel { values: old(self)@.values.push(value@), ..old(self)@ }),
    {
        self.values.push(value);
        proof {
            assert(self@.values =~= old(self)@.values.push(value@));
        }
    }

    /// Appends copies of the given values to the end of the list.
    pub fn push_many(&mut self, values: &[Value])
        ensures
            final(self)@ == (ListModel { values: old(self)@.values + values_model(values@), ..old(self)@ }),
    {
        proof {
            lemma_values_model(values@);
        }
        let mut i: usize = 0;
        while i < values.len()
            invariant
                i <= values@.len(),
                values_model(values@).len() == values@.len(),
                forall|k: int| 0 <= k < values@.len() ==> #[trigger] values_model(values@)[k] == values@[k]@,
                self@ == (ListModel { values: old(self)@.values + values_model(values@).take(i as int), ..old(self)@ }),
            decreases values@.len() - i,
        {
            let v = values[i].clone_value();
            self.push(v);
            i += 1;
            assert(self@.values =~= old(self)@.values + values_model(values@).take(i as int));
        }
        assert(values_model(values@).take(i as int) =~= values_model(values@));
    }

    /// Truncates the list to hold at most `size` values.
    pub fn truncate(&mut self, size: usize)
        ensures
            final(self)@ == truncated(old(self)@, size as int),
            final(self)@ == (ListModel {
                values: if size < old(self)@.values.len() {
                    old(self)@.values.take(size as int)
                } else {
                    old(self)@.values
                },
                ..old(self)@
            }),
    {
        self.values.truncate(size);
        proof {
            if size < old(self)@.values.len() {
                assert(self@.values =~= old(self)@.values.take(size as int));
            } else {
                assert(self@.values =~= old(self)@.values);
            }
        }
    }

    /// Deletes every value so that the list is empty.
    pub fn clear(&mut self)
        ensures
            final(self)@ == (ListModel { values: seq![], ..old(self)@ }),
    {
        self.values.clear();
        proof {
            assert(self@.values =~= Seq::<ValueModel>::empty());
        }
    }

    /// Returns the values, to use the whole `Vec` API for reading.
    pub fn inner(&self) -> (r: &Vec<Value>)
        ensures
            values_model(r@) == self@.values,
    {
        &self.values
    }

    /// Returns the values, to use the whole `Vec` API for changing them.
    pub fn inner_mut(&mut self) -> (r: &mut Vec<Value>)
        ensures
            values_model(r@) == old(self)@.values,
            final(self)@ == (ListModel { values: values_model(final(r)@), ..old(self)@ }),
    {
        &mut self.values
    }

    /// Returns a copy of this list.
    pub fn clone_list(&self) -> (r: List)
        ensures
            r@ == self@,
    {
        let r = List { vtype: self.vtype.clone(), comment: self.comment.clone(), values: clone_values(&self.values) };
        r
    }

    /// Returns `true` if this list and `other` are the same; comment
    /// differences do not matter where `compare` disregards comments.
    pub fn is_equivalent(&self, other: &List, compare: Compare) -> (b: bool)
        ensures
            b == value_alike(ValueModel::List(self@), ValueModel::List(other@), compare.ignores_comments_spec()),
    {
        let a = Value::List(self.clone_list());
        let b = Value::List(other.clone_list());
        proof {
            broadcast use crate::value::lemma_value_view;
        }
        crate::value::same_value_with(&a, &b, compare.bits & 1 == 1)
    }
}

impl Default for List {
    /// Returns a new list with an empty vtype (any value type is
    /// acceptable), an empty comment, and no values.
    fn default() -> (l: List)
        ensures
            l@ == (ListModel { vtype: seq![], comment: seq![], values: seq![] }),
    {
        let l = List { vtype: String::new(), comment: String::new(), values: Vec::new() };
        assert(l@.values =~= Seq::<ValueModel>::empty());
        l
    }
}

impl PartialEq for List {
    fn eq(&self, other: &Self) -> (r: bool) {
        let r = self.is_equivalent(other, Compare::exact());
        proof {
            assert((0u8 & 1u8) == 0u8) by (bit_vector);
        }
        r
    }
}

impl vstd::std_specs::cmp::PartialEqSpecImpl for List {
    open spec fn obeys_eq_spec() -> bool {
        true
    }

    open spec fn eq_spec(&self, other: &List) -> bool {
        value_same(ValueModel::List(self@), ValueModel::List(other@))
    }
}

impl Eq for List {
}


/// What `truncate(size)` leaves of a list.
pub open spec fn truncated(l: ListModel, size: int) -> ListModel {
    ListModel {
        values: if size < l.values.len() {
            l.values.take(size)
        } else {
            l.values
        },
        ..l
    }
}

/// Truncating a list to its old length undoes pushes onto it: after
/// `push_many(vs)` (or `push(v)`, with one value) and then `truncate(n)`,
/// where `n` is the length before the push, the list is as it was.
pub proof fn law_truncate_undoes_push(before: ListModel, vs: Seq<ValueModel>)
    ensures
        truncated(
            ListModel { values: before.values + vs, ..before },
            before.values.len() as int,
        ) == before,
{
    if vs.len() > 0 {
        assert((before.values + vs).take(before.values.len() as int) =~= before.values);
    } else {
        assert(before.values + vs =~= before.values);
    }
}

} // verus!
