//! Maps: items (key-value pairs) held in key order, with an optional ktype
//! and vtype (which the map does not enforce, though every key is of some
//! ktype) and an optional comment.
use crate::check::{check_ktype_x, check_vtype_x, ktype_error, vtype_error};
use crate::error::UxfError;
use crate::key::{
    key_lt, lemma_key_lt_irreflexive, lemma_key_lt_total, lemma_key_lt_transitive, Key, KeyModel,
};
use crate::uxf::Compare;
use crate::value::{
    key_models, items_model, keys_of, keys_sorted, value_alike, value_same, MapModel, UxfMap, Value,
    ValueModel,
};
use vstd::prelude::*;

verus! {

broadcast use {
    crate::value::lemma_map_model,
    crate::value::lemma_items_model_len,
    crate::value::lemma_items_model_index,
};

/// The error (code and message) for a map's ktype and vtype, or `None` if
/// they are acceptable: a nonempty ktype must be valid (308); a nonempty
/// vtype needs a ktype (299) and must be valid.
pub open spec fn map_types_error(ktype: Seq<char>, vtype: Seq<char>) -> Option<(u16, Seq<char>)> {
    if ktype.len() > 0 && ktype_error(ktype) is Some {
        ktype_error(ktype)
    } else if vtype.len() > 0 && ktype.len() == 0 {
        Some((299u16, "a map may only have a vtype if it has a ktype"@))
    } else if vtype.len() > 0 {
        vtype_error(vtype)
    } else {
        None
    }
}

/// Whether the map items hold `k` with the value `v`.
pub open spec fn has_item(items: Seq<(KeyModel, ValueModel)>, k: KeyModel, v: ValueModel) -> bool {
    exists|i: int| 0 <= i < items.len() && items[i] == (k, v)
}

/// The value that the items give the key `k`, if they hold it.
pub open spec fn lookup(items: Seq<(KeyModel, ValueModel)>, k: KeyModel) -> Option<ValueModel> {
    if exists|i: int| 0 <= i < items.len() && items[i].0 == k {
        Some(items[lookup_index(items, k)].1)
    } else {
        None
    }
}

/// A position of an item of key `k`, if there is one.
pub open spec fn lookup_index(items: Seq<(KeyModel, ValueModel)>, k: KeyModel) -> int {
    choose|i: int| 0 <= i < items.len() && items[i].0 == k
}

/// Where keys are in order, the item at `i` is the one that `lookup`
/// finds for its key.
pub proof fn lemma_lookup_at(items: Seq<(KeyModel, ValueModel)>, i: int)
    requires
        keys_sorted(keys_of(items)),
        0 <= i < items.len(),
    ensures
        lookup(items, items[i].0) == Some(items[i].1),
{
    let k = items[i].0;
    assert(keys_of(items)[i] == k);
    assert(exists|j: int| 0 <= j < items.len() && items[j].0 == k);
    let j = lookup_index(items, k);
    assert(keys_of(items)[j] == k);
    assert(lookup(items, k) == Some(items[j].1));
    if j != i {
        lemma_key_lt_irreflexive(k);
        if j < i {
            assert(key_lt(keys_of(items)[j], keys_of(items)[i]));
        } else {
            assert(key_lt(keys_of(items)[i], keys_of(items)[j]));
        }
    }
}

/// `lookup` finds a key just where the items hold it.
pub proof fn lemma_lookup_contains(items: Seq<(KeyModel, ValueModel)>, k: KeyModel)
    ensures
        (lookup(items, k) is Some) == keys_of(items).contains(k),
{
    if keys_of(items).contains(k) {
        let i = choose|i: int| 0 <= i < keys_of(items).len() && keys_of(items)[i] == k;
        assert(items[i].0 == k);
    }
    if exists|i: int| 0 <= i < items.len() && items[i].0 == k {
        let i = choose|i: int| 0 <= i < items.len() && items[i].0 == k;
        assert(keys_of(items)[i] == k);
    }
}

/// Whether `after` is `before` with the item (`k`, `v`): its value replaced
/// where `before` holds `k`, else the item inserted.
pub open spec fn map_inserted(
    before: Seq<(KeyModel, ValueModel)>,
    k: KeyModel,
    v: ValueModel,
    after: Seq<(KeyModel, ValueModel)>,
) -> bool {
    &&& keys_of(before).contains(k) ==> exists|i: int|
        0 <= i < before.len() && before[i].0 == k && after == before.update(i, (k, v))
    &&& !keys_of(before).contains(k) ==> exists|p: int|
        0 <= p <= before.len() && after == before.insert(p, (k, v))
}

/// The items of a map whose keys are in order once `v` is set as the value
/// of `k`: the item of `k` takes `v` if there is one, else the item `(k, v)`
/// goes before the first item with a greater key.
pub open spec fn map_put(items: Seq<(KeyModel, ValueModel)>, k: KeyModel, v: ValueModel) -> Seq<
    (KeyModel, ValueModel),
>
    decreases items.len(),
{
    if items.len() == 0 {
        seq![(k, v)]
    } else if items[0].0 == k {
        seq![(k, v)] + items.skip(1)
    } else if key_lt(k, items[0].0) {
        seq![(k, v)] + items
    } else {
        seq![items[0]] + map_put(items.skip(1), k, v)
    }
}

/// The key that a value is, if it is a bytes, date, datetime, int, or str.
pub open spec fn value_key(v: ValueModel) -> Option<KeyModel> {
    match v {
        ValueModel::Bytes(b) => Some(KeyModel::Bytes(b)),
        ValueModel::Date(d) => Some(KeyModel::Date(d)),
        ValueModel::DateTime(d) => Some(KeyModel::DateTime(d)),
        ValueModel::Int(i) => Some(KeyModel::Int(i)),
        ValueModel::Str(s) => Some(KeyModel::Str(s)),
        _ => None,
    }
}

/// Between items with keys in order, setting the value of a key in a way
/// that keeps the keys in order is `map_put`.
pub proof fn lemma_map_put(
    before: Seq<(KeyModel, ValueModel)>,
    k: KeyModel,
    v: ValueModel,
    after: Seq<(KeyModel, ValueModel)>,
)
    requires
        keys_sorted(keys_of(before)),
        keys_sorted(keys_of(after)),
        map_inserted(before, k, v, after),
    ensures
        after == map_put(before, k, v),
    decreases before.len(),
{
    if before.len() == 0 {
        assert(!keys_of(before).contains(k));
        let p = choose|p: int| 0 <= p <= before.len() && after == before.insert(p, (k, v));
        assert(after =~= seq![(k, v)]);
    } else {
        let k0 = before[0].0;
        assert(keys_of(before)[0] == k0);
        if k0 == k {
            assert(keys_of(before).contains(k));
            let i = choose|i: int| 0 <= i < before.len() && before[i].0 == k && after == before.update(i, (k, v));
            if i != 0 {
                assert(key_lt(keys_of(before)[0], keys_of(before)[i]));
                lemma_key_lt_irreflexive(k);
            }
            assert(after =~= seq![(k, v)] + before.skip(1));
        } else if key_lt(k, k0) {
            assert(!keys_of(before).contains(k)) by {
                if keys_of(before).contains(k) {
                    let j = choose|j: int| 0 <= j < keys_of(before).len() && keys_of(before)[j] == k;
                    assert(key_lt(keys_of(before)[0], keys_of(before)[j]));
                    lemma_key_lt_transitive(k, k0, k);
                    lemma_key_lt_irreflexive(k);
                }
            }
            let p = choose|p: int| 0 <= p <= before.len() && after == before.insert(p, (k, v));
            if p != 0 {
                assert(keys_of(after)[0] == k0);
                assert(keys_of(after)[p] == k);
                assert(key_lt(keys_of(after)[0], keys_of(after)[p]));
                lemma_key_lt_transitive(k, k0, k);
                lemma_key_lt_irreflexive(k);
            }
            assert(after =~= seq![(k, v)] + before);
        } else {
            lemma_key_lt_total(k, k0);
            let b1 = before.skip(1);
            let a1 = after.skip(1);
            assert(keys_sorted(keys_of(b1))) by {
                assert forall|i: int, j: int| 0 <= i < j < keys_of(b1).len() implies key_lt(
                    #[trigger] keys_of(b1)[i],
                    #[trigger] keys_of(b1)[j],
                ) by {
                    assert(keys_of(b1)[i] == keys_of(before)[i + 1]);
                    assert(keys_of(b1)[j] == keys_of(before)[j + 1]);
                }
            }
            if keys_of(before).contains(k) {
                let i = choose|i: int| 0 <= i < before.len() && before[i].0 == k && after == before.update(i, (k, v));
                assert(i != 0);
                assert(a1 =~= b1.update(i - 1, (k, v)));
                assert(b1[i - 1].0 == k);
                assert(keys_of(b1)[i - 1] == k);
                assert(keys_of(b1).contains(k));
                assert(after[0] == before[0]);
            } else {
                let p = choose|p: int| 0 <= p <= before.len() && after == before.insert(p, (k, v));
                if p == 0 {
                    assert(keys_of(after)[0] == k);
                    assert(keys_of(after)[1] == k0);
                    assert(key_lt(keys_of(after)[0], keys_of(after)[1]));
                    lemma_key_lt_transitive(k, k0, k);
                    lemma_key_lt_irreflexive(k);
                }
                assert(a1 =~= b1.insert(p - 1, (k, v)));
                assert(!keys_of(b1).contains(k)) by {
                    if keys_of(b1).contains(k) {
                        let j = choose|j: int| 0 <= j < keys_of(b1).len() && keys_of(b1)[j] == k;
                        assert(keys_of(before)[j + 1] == k);
                    }
                }
                assert(after[0] == before[0]);
            }
            assert(keys_sorted(keys_of(a1))) by {
                assert forall|i: int, j: int| 0 <= i < j < keys_of(a1).len() implies key_lt(
                    #[trigger] keys_of(a1)[i],
                    #[trigger] keys_of(a1)[j],
                ) by {
                    assert(keys_of(a1)[i] == keys_of(after)[i + 1]);
                    assert(keys_of(a1)[j] == keys_of(after)[j + 1]);
                }
            }
            lemma_map_put(b1, k, v, a1);
            assert(after =~= seq![before[0]] + a1);
        }
    }
}

/// Whether `after` is `before` without the item of key `k` (if any).
pub open spec fn map_removed(
    before: Seq<(KeyModel, ValueModel)>,
    k: KeyModel,
    after: Seq<(KeyModel, ValueModel)>,
) -> bool {
    &&& keys_of(before).contains(k) ==> exists|i: int|
        0 <= i < before.len() && before[i].0 == k && after == before.remove(i)
    &&& !keys_of(before).contains(k) ==> after == before
}

/// A read gives back what a write wrote: once `insert(k, v)` is done on a
/// map, looking `k` up gives `v`, and every other key gives what it gave
/// before.
pub proof fn law_insert_then_lookup(
    before: Seq<(KeyModel, ValueModel)>,
    k: KeyModel,
    v: ValueModel,
    after: Seq<(KeyModel, ValueModel)>,
    other: KeyModel,
)
    requires
        keys_sorted(keys_of(before)),
        keys_sorted(keys_of(after)),
        map_inserted(before, k, v, after),
    ensures
        lookup(after, k) == Some(v),
        other != k ==> lookup(after, other) == lookup(before, other),
{
    let i = if keys_of(before).contains(k) {
        choose|i: int| 0 <= i < before.len() && before[i].0 == k && after == before.update(i, (k, v))
    } else {
        choose|p: int| 0 <= p <= before.len() && after == before.insert(p, (k, v))
    };
    assert(after[i] == (k, v));
    lemma_lookup_at(after, i);
    if other != k {
        if exists|j: int| 0 <= j < before.len() && before[j].0 == other {
            let j = choose|j: int| 0 <= j < before.len() && before[j].0 == other;
            lemma_lookup_at(before, j);
            let ja = if keys_of(before).contains(k) || j < i {
                j
            } else {
                j + 1
            };
            assert(after[ja] == before[j]);
            lemma_lookup_at(after, ja);
        } else {
            assert forall|j: int| 0 <= j < after.len() implies after[j].0 != other by {
                if j != i {
                    let jb = if keys_of(before).contains(k) || j < i {
                        j
                    } else {
                        j - 1
                    };
                    assert(after[j] == before[jb]);
                }
            }
        }
    }
}

/// Removing a key undoes inserting it: where a map does not hold `k`,
/// `insert(k, v)` and then `remove(k)` leave its items as they were.
pub proof fn law_remove_undoes_insert(
    before: Seq<(KeyModel, ValueModel)>,
    k: KeyModel,
    v: ValueModel,
    mid: Seq<(KeyModel, ValueModel)>,
    after: Seq<(KeyModel, ValueModel)>,
)
    requires
        keys_sorted(keys_of(before)),
        keys_sorted(keys_of(mid)),
        !keys_of(before).contains(k),
        map_inserted(before, k, v, mid),
        map_removed(mid, k, after),
    ensures
        after == before,
{
    let p = choose|p: int| 0 <= p <= before.len() && mid == before.insert(p, (k, v));
    assert(mid[p] == (k, v));
    assert(keys_of(mid)[p] == k);
    assert(keys_of(mid).contains(k));
    let i = choose|i: int| 0 <= i < mid.len() && mid[i].0 == k && after == mid.remove(i);
    if i != p {
        assert(keys_of(mid)[i] == k);
        lemma_key_lt_irreflexive(k);
        if i < p {
            assert(key_lt(keys_of(mid)[i], keys_of(mid)[p]));
        } else {
            assert(key_lt(keys_of(mid)[p], keys_of(mid)[i]));
        }
    }
    assert(after =~= before);
}

/// Once `remove(k)` is done on a map, looking `k` up gives nothing, and
/// every other key gives what it gave before.
pub proof fn law_remove_then_lookup(
    before: Seq<(KeyModel, ValueModel)>,
    k: KeyModel,
    after: Seq<(KeyModel, ValueModel)>,
    other: KeyModel,
)
    requires
        keys_sorted(keys_of(before)),
        map_removed(before, k, after),
    ensures
        lookup(after, k) is None,
        other != k ==> lookup(after, other) == lookup(before, other),
{
    if keys_of(before).contains(k) {
        let i = choose|i: int| 0 <= i < before.len() && before[i].0 == k && after == before.remove(i);
        assert forall|j: int| 0 <= j < after.len() implies after[j].0 != k by {
            let jb = if j < i {
                j
            } else {
                j + 1
            };
            assert(after[j] == before[jb]);
            assert(keys_of(before)[jb] == before[jb].0);
            assert(keys_of(before)[i] == k);
            lemma_key_lt_irreflexive(k);
        }
        if other != k {
            assert(keys_sorted(keys_of(after))) by {
                assert forall|a: int, b: int| 0 <= a < b < keys_of(after).len() implies key_lt(
                    #[trigger] keys_of(after)[a],
                    #[trigger] keys_of(after)[b],
                ) by {
                    let ab = if a < i {
                        a
                    } else {
                        a + 1
                    };
                    let bb = if b < i {
                        b
                    } else {
                        b + 1
                    };
                    assert(keys_of(after)[a] == keys_of(before)[ab]);
                    assert(keys_of(after)[b] == keys_of(before)[bb]);
                }
            }
            if exists|j: int| 0 <= j < before.len() && before[j].0 == other {
                let j = choose|j: int| 0 <= j < before.len() && before[j].0 == other;
                lemma_lookup_at(before, j);
                assert(j != i);
                let ja = if j < i {
                    j
                } else {
                    j - 1
                };
                assert(after[ja] == before[j]);
                lemma_lookup_at(after, ja);
            } else {
                assert forall|j: int| 0 <= j < after.len() implies after[j].0 != other by {
                    let jb = if j < i {
                        j
                    } else {
                        j + 1
                    };
                    assert(after[j] == before[jb]);
                }
            }
        }
    } else {
        assert forall|j: int| 0 <= j < after.len() implies after[j].0 != k by {
            assert(keys_of(before)[j] == before[j].0);
        }
    }
}

/// The key that a value is, if it is a bytes, date, datetime, int, or str.
pub open spec fn key_of(value: Value) -> Option<Key> {
    match value {
        Value::Bytes(b) => Some(Key::Bytes(b)),
        Value::Date(d) => Some(Key::Date(d)),
        Value::DateTime(d) => Some(Key::DateTime(d)),
        Value::Int(i) => Some(Key::Int(i)),
        Value::Str(s) => Some(Key::Str(s)),
        _ => None,
    }
}

/// The text of the error for a value that cannot be a map key.
pub open spec fn key_error_message(typename: Seq<char>) -> Seq<char> {
    "can only convert bytes, date, datetime, int, str from Value to Key, got "@ + typename
}

impl Key {
    /// Returns the key that the value is, or an error (600) if the value
    /// is not a bytes, date, datetime, int, or str.
    pub fn from_value_x(value: Value, filename: &str, lino: usize) -> (r: Result<Key, UxfError>)
        ensures
            match key_of(value) {
                Some(k) => r == Ok::<Key, UxfError>(k),
                None => r matches Err(e) && e.code == 600 && e.filename@ == filename@ && e.lino == lino
                    && e.message@ == key_error_message(crate::value::typename_of(value@)),
            },
    {
        match value {
            Value::Bytes(b) => Ok(Key::Bytes(b)),
            Value::Date(d) => Ok(Key::Date(d)),
            Value::DateTime(d) => Ok(Key::DateTime(d)),
            Value::Int(i) => Ok(Key::Int(i)),
            Value::Str(s) => Ok(Key::Str(s)),
            _ => {
                let name = value.typename();
                let message = String::from_str(
                    "can only convert bytes, date, datetime, int, str from Value to Key, got ",
                ).concat(name);
                Err(UxfError::new(600, message, filename, lino))
            },
        }
    }
}

impl UxfMap {
    /// Returns a new map with the given `ktype`, `vtype`, and `comment` and
    /// no items, or an error if the types are not acceptable (see
    /// `map_types_error`). An empty `ktype` means any ktype; an empty
    /// `vtype` means any value type.
    pub fn new(ktype: &str, vtype: &str, comment: &str) -> (r: Result<UxfMap, UxfError>)
        ensures
            r is Ok <==> map_types_error(ktype@, vtype@) is None,
            r matches Ok(m) ==> m@ == (MapModel {
                ktype: ktype@,
                vtype: vtype@,
                comment: comment@,
                items: seq![],
            }),
            r matches Err(e) ==> map_types_error(ktype@, vtype@) == Some((e.code, e.message@))
                && e.filename@ == "-"@ && e.lino == 0,
    {
        UxfMap::new_x(ktype, vtype, comment, "-", 0)
    }

    /// As `new`, with errors reported at `filename` and `lino`.
    pub fn new_x(ktype: &str, vtype: &str, comment: &str, filename: &str, lino: usize) -> (r:
        Result<UxfMap, UxfError>)
        ensures
            r is Ok <==> map_types_error(ktype@, vtype@) is None,
            r matches Ok(m) ==> m@ == (MapModel {
                ktype: ktype@,
                vtype: vtype@,
                comment: comment@,
                items: seq![],
            }),
            r matches Err(e) ==> map_types_error(ktype@, vtype@) == Some((e.code, e.message@))
                && e.filename@ == filename@ && e.lino == lino,
            r matches Ok(m) ==> m.pending() is None,
    {
        if !ktype.is_empty() {
            match check_ktype_x(ktype, filename, lino) {
                Ok(()) => {},
                Err(e) => return Err(e),
            }
        }
        if !vtype.is_empty() {
            if ktype.is_empty() {
                return Err(
                    UxfError::new(
                        299,
                        String::from_str("a map may only have a vtype if it has a ktype"),
                        filename,
                        lino,
                    ),
                );
            }
            match check_vtype_x(vtype, filename, lino) {
                Ok(()) => {},
                Err(e) => return Err(e),
            }
        }
        let m = UxfMap {
            ktype: String::from_str(ktype),
            vtype: String::from_str(vtype),
            comment: String::from_str(comment),
            pending_key: None,
            keys: Vec::new(),
            values: Vec::new(),
        };
        assert(m@.items =~= Seq::<(KeyModel, ValueModel)>::empty());
        Ok(m)
    }

    /// Returns the `ktype`, which may be empty.
    pub fn ktype(&self) -> (r: &str)
        ensures
            r@ == self@.ktype,
    {
        self.ktype.as_str()
    }

    /// Returns the `vtype`, which may be empty.
    pub fn vtype(&self) -> (r: &str)
        ensures
            r@ == self@.vtype,
    {
        self.vtype.as_str()
    }

    /// Returns the `comment`, which may be empty.
    pub fn comment(&self) -> (r: &str)
        ensures
            r@ == self@.comment,
    {
        self.comment.as_str()
    }

    /// Returns the number of items.
    pub fn len(&self) -> (n: usize)
        ensures
            n == self@.items.len(),
    {
        proof {
            use_type_invariant(self);
        }
        self.values.len()
    }

    /// Returns `true` if the map has no items; otherwise returns `false`.
    pub fn is_empty(&self) -> (b: bool)
        ensures
            b == (self@.items.len() == 0),
    {
        proof {
            use_type_invariant(self);
        }
        self.values.len() == 0
    }

    /// The position of `key`: `Ok(i)` if the `i`th key is this key;
    /// otherwise `Err(p)`, where all keys before `p` come before `key` and
    /// all from `p` on come after it.
    fn find(&self, key: &Key) -> (r: Result<usize, usize>)
        ensures
            self.keys@.len() == self.values@.len(),
            keys_sorted(key_models(self.keys@)),
            match r {
                Ok(i) => i < self.keys@.len() && self.keys@[i as int]@ == key@,
                Err(p) => p <= self.keys@.len() && (forall|j: int|
                    0 <= j < p ==> key_lt(#[trigger] self.keys@[j]@, key@)) && (forall|j: int|
                    p <= j < self.keys@.len() ==> key_lt(key@, #[trigger] self.keys@[j]@)),
            },
    {
        proof {
            use_type_invariant(self);
        }
        let ghost keys = key_models(self.keys@);
        let mut i: usize = 0;
        while i < self.keys.len()
            invariant
                i <= self.keys@.len(),
                keys == key_models(self.keys@),
                keys_sorted(keys),
                self.keys@.len() == self.values@.len(),
                forall|j: int| 0 <= j < i ==> key_lt(#[trigger] self.keys@[j]@, key@),
            decreases self.keys@.len() - i,
        {
            if !self.keys[i].less_than(key) {
                if self.keys[i].same_as(key) {
                    return Ok(i);
                }
                proof {
                    lemma_key_lt_total(self.keys@[i as int]@, key@);
                    assert forall|j: int| i <= j < self.keys@.len() implies key_lt(
                        key@,
                        #[trigger] self.keys@[j]@,
                    ) by {
                        if j > i {
                            assert(keys[i as int] == self.keys@[i as int]@);
                            assert(keys[j] == self.keys@[j]@);
                            lemma_key_lt_transitive(key@, self.keys@[i as int]@, self.keys@[j]@);
                        }
                    }
                }
                return Err(i);
            }
            i += 1;
        }
        Err(i)
    }

    /// Where `find` gives `Err`, the key is not among the map's keys.
    proof fn lemma_absent(&self, key: KeyModel, p: int)
        requires
            self.keys@.len() == self.values@.len(),
            p <= self.keys@.len(),
            forall|j: int| 0 <= j < p ==> key_lt(#[trigger] self.keys@[j]@, key),
            forall|j: int| p <= j < self.keys@.len() ==> key_lt(key, #[trigger] self.keys@[j]@),
        ensures
            !keys_of(self@.items).contains(key),
    {
        if keys_of(self@.items).contains(key) {
            let j = choose|j: int| 0 <= j < keys_of(self@.items).len() && keys_of(self@.items)[j] == key;
            assert(self@.items[j] == (self.keys@[j]@, self.values@[j]@));
            lemma_key_lt_irreflexive(key);
        }
    }

    /// Returns the value of the item with the given key if there is one;
    /// otherwise `None`.
    pub fn get(&self, key: &Key) -> (r: Option<&Value>)
        ensures
            r is Some == keys_of(self@.items).contains(key@),
            r matches Some(v) ==> has_item(self@.items, key@, v@),
            match r {
                Some(v) => lookup(self@.items, key@) == Some(v@),
                None => lookup(self@.items, key@) is None,
            },
    {
        match self.find(key) {
            Ok(i) => {
                assert(self@.items[i as int] == (key@, self.values@[i as int]@));
                assert(keys_of(self@.items)[i as int] == key@);
                proof {
                    assert(keys_of(self@.items) =~= key_models(self.keys@));
                    lemma_lookup_at(self@.items, i as int);
                }
                Some(&self.values[i])
            },
            Err(p) => {
                proof {
                    self.lemma_absent(key@, p as int);
                    lemma_lookup_contains(self@.items, key@);
                }
                None
            },
        }
    }

    /// Returns the value of the item with the given key to change, if
    /// there is one; otherwise `None`.
    pub fn get_mut(&mut self, key: &Key) -> (r: Option<&mut Value>)
        ensures
            r is Some == keys_of(old(self)@.items).contains(key@),
            r matches Some(v) ==> exists|i: int|
                0 <= i < old(self)@.items.len() && old(self)@.items[i] == (key@, v@) && final(self)@
                    == (MapModel { items: old(self)@.items.update(i, (key@, final(v)@)), ..old(self)@ }),
            r is None ==> final(self)@ == old(self)@,
    {
        match self.find(key) {
            Ok(i) => {
                proof {
                    assert(self@.items[i as int] == (key@, self.values@[i as int]@));
                    assert(keys_of(self@.items)[i as int] == key@);
                    crate::value::lemma_items_model_update(self.keys@, self.values@, i as int);
                }
                Some(&mut self.values[i])
            },
            Err(p) => {
                proof {
                    self.lemma_absent(key@, p as int);
                    lemma_lookup_contains(self@.items, key@);
                }
                None
            },
        }
    }

    /// An empty map with no types or comment.
    fn blank() -> (m: UxfMap)
        ensures
            m@.items.len() == 0,
            m@.ktype.len() == 0 && m@.vtype.len() == 0 && m@.comment.len() == 0,
            m.pending() is None,
    {
        UxfMap {
            ktype: String::new(),
            vtype: String::new(),
            comment: String::new(),
            pending_key: None,
            keys: Vec::new(),
            values: Vec::new(),
        }
    }

    /// Inserts the given key and value. If the key was already present,
    /// its value is replaced and the old value is returned; otherwise the
    /// item goes where its key belongs in key order and `None` is returned.
    /// This leaves any pending key alone.
    pub fn insert(&mut self, key: Key, value: Value) -> (r: Option<Value>)
        ensures
            keys_sorted(keys_of(final(self)@.items)),
            final(self).pending() == old(self).pending(),
            final(self)@.ktype == old(self)@.ktype,
            final(self)@.vtype == old(self)@.vtype,
            final(self)@.comment == old(self)@.comment,
            keys_of(old(self)@.items).contains(key@) ==> exists|i: int|
                0 <= i < old(self)@.items.len() && old(self)@.items[i].0 == key@ && (r matches Some(
                    v,
                ) && v@ == old(self)@.items[i].1) && final(self)@.items == old(self)@.items.update(
                    i,
                    (key@, value@),
                ),
            !keys_of(old(self)@.items).contains(key@) ==> r is None && exists|p: int|
                0 <= p <= old(self)@.items.len() && final(self)@.items == old(self)@.items.insert(
                    p,
                    (key@, value@),
                ),
            map_inserted(old(self)@.items, key@, value@, final(self)@.items),
            r is Some == keys_of(old(self)@.items).contains(key@),
            r matches Some(v) ==> lookup(old(self)@.items, key@) == Some(v@),
    {
        let ghost old_items = self@.items;
        let found = self.find(&key);
        let mut tmp = UxfMap::blank();
        std::mem::swap(self, &mut tmp);
        proof {
            use_type_invariant(&tmp);
            crate::value::lemma_map_view(tmp);
        }
        let UxfMap { ktype, vtype, comment, pending_key, mut keys, mut values } = tmp;
        let r = match found {
            Ok(i) => {
                let mut v = value;
                std::mem::swap(&mut v, &mut values[i]);
                Some(v)
            },
            Err(p) => {
                keys.insert(p, key);
                values.insert(p, value);
                None
            },
        };
        proof {
            let ks = key_models(keys@);
            match found {
                Ok(i) => {
                    assert(ks =~= key_models(old(self).keys@));
                },
                Err(p) => {
                    let oks = key_models(old(self).keys@);
                    assert(ks =~= oks.insert(p as int, key@));
                    assert forall|a: int, b: int| 0 <= a < b < ks.len() implies key_lt(
                        #[trigger] ks[a],
                        #[trigger] ks[b],
                    ) by {
                        if b < p {
                            assert(oks[a] == ks[a] && oks[b] == ks[b]);
                        } else if a > p {
                            assert(oks[a - 1] == ks[a] && oks[b - 1] == ks[b]);
                        } else if a == p {
                            assert(old(self).keys@[b - 1]@ == ks[b]);
                        } else if b == p {
                            assert(old(self).keys@[a]@ == ks[a]);
                        } else {
                            assert(oks[a] == ks[a] && oks[b - 1] == ks[b]);
                        }
                    }
                },
            }
        }
        *self = UxfMap { ktype, vtype, comment, pending_key, keys, values };
        proof {
            crate::value::lemma_map_view(*self);
            assert(keys_of(self@.items) =~= key_models(self.keys@));
            match found {
                Ok(i) => {
                    assert(old_items[i as int] == (old(self).keys@[i as int]@, old(self).values@[i as int]@));
                    assert(keys_of(old_items)[i as int] == key@);
                    assert(self@.items =~= old_items.update(i as int, (key@, value@)));
                    assert(keys_of(old_items) =~= key_models(old(self).keys@));
                    lemma_lookup_at(old_items, i as int);
                },
                Err(p) => {
                    old(self).lemma_absent(key@, p as int);
                    assert(self@.items =~= old_items.insert(p as int, (key@, value@)));
                },
            }
        }
        r
    }

    /// Removes the item with the given key and returns its value, if there
    /// is one; otherwise leaves the map unchanged and returns `None`.
    pub fn remove(&mut self, key: &Key) -> (r: Option<Value>)
        ensures
            keys_sorted(keys_of(final(self)@.items)),
            keys_of(old(self)@.items).contains(key@) ==> exists|i: int|
                0 <= i < old(self)@.items.len() && old(self)@.items[i].0 == key@ && (r matches Some(
                    v,
                ) && v@ == old(self)@.items[i].1) && final(self)@ == (MapModel {
                    items: old(self)@.items.remove(i),
                    ..old(self)@
                }),
            !keys_of(old(self)@.items).contains(key@) ==> r is None && final(self)@ == old(self)@,
            map_removed(old(self)@.items, key@, final(self)@.items),
            r is Some == keys_of(old(self)@.items).contains(key@),
            r matches Some(v) ==> lookup(old(self)@.items, key@) == Some(v@),
    {
        let ghost old_items = self@.items;
        let found = self.find(key);
        match found {
            Err(p) => {
                proof {
                    self.lemma_absent(key@, p as int);
                    use_type_invariant(&*self);
                    crate::value::lemma_map_view(*self);
                    assert(keys_of(self@.items) =~= key_models(self.keys@));
                }
                None
            },
            Ok(i) => {
                let mut tmp = UxfMap::blank();
                std::mem::swap(self, &mut tmp);
                proof {
                    use_type_invariant(&tmp);
                    crate::value::lemma_map_view(tmp);
                }
                let UxfMap { ktype, vtype, comment, pending_key, mut keys, mut values } = tmp;
                keys.remove(i);
                let v = values.remove(i);
                proof {
                    let ks = key_models(keys@);
                    let oks = key_models(old(self).keys@);
                    assert(ks =~= oks.remove(i as int));
                    assert forall|a: int, b: int| 0 <= a < b < ks.len() implies key_lt(
                        #[trigger] ks[a],
                        #[trigger] ks[b],
                    ) by {
                        if b < i {
                            assert(oks[a] == ks[a] && oks[b] == ks[b]);
                        } else if a >= i {
                            assert(oks[a + 1] == ks[a] && oks[b + 1] == ks[b]);
                        } else {
                            assert(oks[a] == ks[a] && oks[b + 1] == ks[b]);
                        }
                    }
                }
                *self = UxfMap { ktype, vtype, comment, pending_key, keys, values };
                proof {
                    crate::value::lemma_map_view(*self);
                    assert(keys_of(self@.items) =~= key_models(self.keys@));
                    assert(old_items[i as int] == (old(self).keys@[i as int]@, old(self).values@[i as int]@));
                    assert(keys_of(old_items)[i as int] == key@);
                    assert(self@.items =~= old_items.remove(i as int));
                    assert(keys_of(old_items) =~= key_models(old(self).keys@));
                    lemma_lookup_at(old_items, i as int);
                }
                Some(v)
            },
        }
    }

    /// Deletes every item so that the map is empty.
    pub fn clear(&mut self)
        ensures
            final(self)@ == (MapModel { items: seq![], ..old(self)@ }),
    {
        let mut tmp = UxfMap::blank();
        std::mem::swap(self, &mut tmp);
        let UxfMap { ktype, vtype, comment, pending_key, keys: _, values: _ } = tmp;
        *self = UxfMap { ktype, vtype, comment, pending_key, keys: Vec::new(), values: Vec::new() };
        assert(self@.items =~= Seq::<(KeyModel, ValueModel)>::empty());
    }

    /// The key that waits for its value, if any (see `push_x`).
    pub closed spec fn pending(&self) -> Option<KeyModel> {
        match self.pending_key {
            Some(k) => Some(k@),
            None => None,
        }
    }

    /// Adds an item one part at a time: the first call gives the key, the
    /// next its value, and so on. A key must be a bytes, date, datetime,
    /// int, or str (else error 600, with the map unchanged).
    pub fn push_x(&mut self, value: Value, filename: &str, lino: usize) -> (r: Result<(), UxfError>)
        ensures
            final(self)@.ktype == old(self)@.ktype,
            final(self)@.vtype == old(self)@.vtype,
            final(self)@.comment == old(self)@.comment,
            keys_sorted(keys_of(final(self)@.items)),
            old(self).pending() matches Some(k) ==> r is Ok && final(self).pending() is None && (
            (exists|i: int|
                0 <= i < old(self)@.items.len() && old(self)@.items[i].0 == k
                    && final(self)@.items == old(self)@.items.update(i, (k, value@))) || (exists|
                p: int,
            |
                0 <= p <= old(self)@.items.len() && final(self)@.items == old(self)@.items.insert(
                    p,
                    (k, value@),
                ))),
            old(self).pending() is None ==> final(self)@ == old(self)@ && (match key_of(value) {
                Some(k) => r is Ok && final(self).pending() == Some(k@),
                None => r matches Err(e) && e.code == 600 && e.filename@ == filename@ && e.lino
                    == lino && final(self).pending() is None,
            }),
            old(self).pending() matches Some(k) ==> final(self)@.items == map_put(old(self)@.items, k, value@),
            old(self).pending() is None ==> final(self).pending() == value_key(value@),
    {
        proof {
            use_type_invariant(&*self);
            crate::value::lemma_map_view(*self);
            crate::value::lemma_value_view(value);
            assert(keys_of(self@.items) =~= key_models(self.keys@));
        }
        let mut pending: Option<Key> = None;
        std::mem::swap(&mut pending, &mut self.pending_key);
        match pending {
            Some(k) => {
                let ghost kk = k@;
                let ghost before = self@.items;
                let ghost vm = value@;
                self.insert(k, value);
                proof {
                    lemma_map_put(before, kk, vm, self@.items);
                }
                Ok(())
            },
            None => {
                match Key::from_value_x(value, filename, lino) {
                    Ok(k) => {
                        let mut p = Some(k);
                        std::mem::swap(&mut p, &mut self.pending_key);
                        Ok(())
                    },
                    Err(e) => Err(e),
                }
            },
        }
    }

    /// As `push_x`, with errors reported at `-` and line 0.
    pub fn push(&mut self, value: Value) -> (r: Result<(), UxfError>)
        ensures
            final(self)@.ktype == old(self)@.ktype,
            final(self)@.vtype == old(self)@.vtype,
            final(self)@.comment == old(self)@.comment,
            keys_sorted(keys_of(final(self)@.items)),
            old(self).pending() matches Some(k) ==> r is Ok && final(self).pending() is None && (
            (exists|i: int|
                0 <= i < old(self)@.items.len() && old(self)@.items[i].0 == k
                    && final(self)@.items == old(self)@.items.update(i, (k, value@))) || (exists|
                p: int,
            |
                0 <= p <= old(self)@.items.len() && final(self)@.items == old(self)@.items.insert(
                    p,
                    (k, value@),
                ))),
            old(self).pending() is None ==> final(self)@ == old(self)@ && (match key_of(value) {
                Some(k) => r is Ok && final(self).pending() == Some(k@),
                None => r matches Err(e) && e.code == 600 && final(self).pending() is None,
            }),
    {
        self.push_x(value, "-", 0)
    }

    /// The type that the next pushed value should have (for checking while
    /// parsing): the ktype if a key is expected, else the vtype.
    pub fn expected_type(&self) -> (r: String)
        ensures
            r@ == if self.pending() is None {
                self@.ktype
            } else {
                self@.vtype
            },
    {
        if self.pending_key.is_none() {
            self.ktype.clone()
        } else {
            self.vtype.clone()
        }
    }

    /// Returns the keys in key order: bytes < date < datetime < int < str,
    /// keys of the same type in ascending order, strs case-insensitively
    /// first.
    pub fn sorted_keys(&self) -> (r: Vec<&Key>)
        ensures
            r@.len() == self@.items.len(),
            forall|i: int| 0 <= i < r@.len() ==> #[trigger] r@[i]@ == self@.items[i].0,
            keys_sorted(keys_of(self@.items)),
    {
        proof {
            use_type_invariant(self);
            crate::value::lemma_map_view(*self);
        }
        let mut out: Vec<&Key> = Vec::new();
        let mut i: usize = 0;
        while i < self.keys.len()
            invariant
                i <= self.keys@.len(),
                self.keys@.len() == self.values@.len(),
                out@.len() == i,
                forall|k: int| 0 <= k < i ==> #[trigger] out@[k]@ == self.keys@[k]@,
            decreases self.keys@.len() - i,
        {
            out.push(&self.keys[i]);
            i += 1;
        }
        proof {
            assert forall|k: int| 0 <= k < out@.len() implies #[trigger] out@[k]@ == self@.items[k].0 by {
                assert(self@.items[k] == (self.keys@[k]@, self.values@[k]@));
            }
        }
        out
    }

    /// Returns the keys, in key order.
    pub fn keys(&self) -> (r: &Vec<Key>)
        ensures
            key_models(r@) == keys_of(self@.items),
    {
        proof {
            use_type_invariant(self);
            crate::value::lemma_map_view(*self);
        }
        &self.keys
    }

    /// Returns the values, in key order.
    pub fn values(&self) -> (r: &Vec<Value>)
        ensures
            r@.len() == self@.items.len(),
            forall|i: int| 0 <= i < r@.len() ==> #[trigger] r@[i]@ == self@.items[i].1,
    {
        proof {
            use_type_invariant(self);
            crate::value::lemma_map_view(*self);
        }
        &self.values
    }

    /// Returns `true` if this map and `other` are the same; comment
    /// differences do not matter where `compare` disregards comments.
    pub fn is_equivalent(&self, other: &UxfMap, compare: Compare) -> (b: bool)
        ensures
            b == value_alike(ValueModel::UxfMap(self@), ValueModel::UxfMap(other@), compare.ignores_comments_spec()),
    {
        let a = Value::UxfMap(self.clone_map());
        let b = Value::UxfMap(other.clone_map());
        proof {
            broadcast use crate::value::lemma_value_view;
        }
        crate::value::same_value_with(&a, &b, compare.bits & 1 == 1)
    }
}

impl Default for UxfMap {
    /// Returns a new map with no ktype (any key type), no vtype (any value
    /// type), no comment, and no items.
    fn default() -> (m: UxfMap)
        ensures
            m@ == (MapModel { ktype: seq![], vtype: seq![], comment: seq![], items: seq![] }),
    {
        let m = UxfMap::blank();
        assert(m@.items =~= Seq::<(KeyModel, ValueModel)>::empty());
        assert(m@.ktype =~= Seq::<char>::empty());
        assert(m@.vtype =~= Seq::<char>::empty());
        assert(m@.comment =~= Seq::<char>::empty());
        m
    }
}

impl PartialEq for UxfMap {
    fn eq(&self, other: &Self) -> (r: bool) {
        let r = self.is_equivalent(other, Compare::exact());
        proof {
            assert((0u8 & 1u8) == 0u8) by (bit_vector);
        }
        r
    }
}

impl vstd::std_specs::cmp::PartialEqSpecImpl for UxfMap {
    open spec fn obeys_eq_spec() -> bool {
        true
    }

    open spec fn eq_spec(&self, other: &UxfMap) -> bool {
        value_same(ValueModel::UxfMap(self@), ValueModel::UxfMap(other@))
    }
}

impl Eq for UxfMap {
}

} // verus!
