//! A set of tclasses keyed by ttype: at most one tclass per ttype, held in
//! ttype order (case-insensitively first, then by the ttype itself), which
//! is the order in which UXF text lists tclass definitions.
use crate::error::UxfError;
use crate::key::{
    key_lt, lemma_key_lt_irreflexive, lemma_key_lt_total, lemma_key_lt_transitive, str_key_lt,
    KeyModel,
};
use crate::tclass::{TClass, TClassModel};
use vstd::prelude::*;

verus! {

/// Whether the tclasses' ttypes are in strictly ascending ttype order (so
/// no ttype occurs twice).
pub open spec fn ttypes_sorted(ts: Seq<TClassModel>) -> bool {
    forall|i: int, j: int| 0 <= i < j < ts.len() ==> str_key_lt(#[trigger] ts[i].0, #[trigger] ts[j].0)
}

/// The ttypes of the tclasses.
pub open spec fn ttypes_of(ts: Seq<TClassModel>) -> Seq<Seq<char>> {
    ts.map_values(|t: TClassModel| t.0)
}

/// The models of stored tclasses.
pub open spec fn tclass_models(ts: Seq<TClass>) -> Seq<TClassModel> {
    ts.map_values(|t: TClass| t@)
}

/// The text of the error for two different definitions of one ttype.
pub open spec fn conflict_message(ttype: Seq<char>) -> Seq<char> {
    "conflicting ttype definitions for "@ + ttype
}

/// Tclasses keyed by ttype, in ttype order.
#[derive(Debug)]
pub struct TClasses {
    items: Vec<TClass>,
}

impl TClasses {
    /// The tclasses are in ttype order, so no ttype occurs twice.
    #[verifier::type_invariant]
    spec fn in_order(&self) -> bool {
        ttypes_sorted(tclass_models(self.items@))
    }
}

impl View for TClasses {
    type V = Seq<TClassModel>;

    closed spec fn view(&self) -> Seq<TClassModel> {
        tclass_models(self.items@)
    }
}

impl TClasses {
    /// No tclasses.
    pub fn new() -> (r: TClasses)
        ensures
            r@ == Seq::<TClassModel>::empty(),
    {
        let r = TClasses { items: Vec::new() };
        assert(r@ =~= Seq::<TClassModel>::empty());
        r
    }

    /// The tclasses, in ttype order.
    pub fn items(&self) -> (r: &Vec<TClass>)
        ensures
            tclass_models(r@) == self@,
            ttypes_sorted(self@),
    {
        proof {
            use_type_invariant(self);
        }
        &self.items
    }

    /// The number of tclasses.
    pub fn len(&self) -> (n: usize)
        ensures
            n == self@.len(),
    {
        self.items.len()
    }

    /// The position of `ttype`: `Ok(i)` if the `i`th tclass has this
    /// ttype; otherwise `Err(p)`, where all ttypes before `p` come before
    /// it and all from `p` on come after it.
    fn find(&self, ttype: &str) -> (r: Result<usize, usize>)
        ensures
            ttypes_sorted(self@),
            match r {
                Ok(i) => i < self@.len() && self@[i as int].0 == ttype@,
                Err(p) => p <= self@.len() && (forall|j: int|
                    0 <= j < p ==> str_key_lt(#[trigger] self@[j].0, ttype@)) && (forall|j: int|
                    p <= j < self@.len() ==> str_key_lt(ttype@, #[trigger] self@[j].0)),
            },
    {
        proof {
            use_type_invariant(self);
        }
        let ghost ts = self@;
        let mut i: usize = 0;
        while i < self.items.len()
            invariant
                i <= self.items@.len(),
                ts == self@,
                ts == tclass_models(self.items@),
                ttypes_sorted(ts),
                forall|j: int| 0 <= j < i ==> str_key_lt(#[trigger] ts[j].0, ttype@),
            decreases self.items@.len() - i,
        {
            let t = self.items[i].ttype();
            assert(ts[i as int] == self.items@[i as int]@);
            let k = crate::key::Key::Str(String::from_str(t));
            let q = crate::key::Key::Str(String::from_str(ttype));
            if !k.less_than(&q) {
                if k.same_as(&q) {
                    return Ok(i);
                }
                proof {
                    lemma_key_lt_total(KeyModel::Str(ts[i as int].0), KeyModel::Str(ttype@));
                    assert forall|j: int| i <= j < ts.len() implies str_key_lt(ttype@, #[trigger] ts[j].0) by {
                        if j > i {
                            lemma_key_lt_transitive(
                                KeyModel::Str(ttype@),
                                KeyModel::Str(ts[i as int].0),
                                KeyModel::Str(ts[j].0),
                            );
                        }
                    }
                }
                return Err(i);
            }
            i += 1;
        }
        Err(i)
    }

    /// Returns the tclass with the given ttype if there is one.
    pub fn get(&self, ttype: &str) -> (r: Option<&TClass>)
        ensures
            r is Some == ttypes_of(self@).contains(ttype@),
            r matches Some(t) ==> t@.0 == ttype@ && self@.contains(t@),
    {
        match self.find(ttype) {
            Ok(i) => {
                assert(ttypes_of(self@)[i as int] == ttype@);
                assert(self@[i as int] == self.items@[i as int]@);
                Some(&self.items[i])
            },
            Err(p) => {
                proof {
                    if ttypes_of(self@).contains(ttype@) {
                        let j = choose|j: int| 0 <= j < ttypes_of(self@).len() && ttypes_of(self@)[j] == ttype@;
                        lemma_key_lt_irreflexive(KeyModel::Str(ttype@));
                    }
                }
                None
            },
        }
    }

    /// Returns whether there is a tclass with the given ttype.
    pub fn contains(&self, ttype: &str) -> (b: bool)
        ensures
            b == ttypes_of(self@).contains(ttype@),
    {
        self.get(ttype).is_some()
    }

    /// Puts the tclass in: it replaces the tclass of the same ttype if
    /// there is one; otherwise it goes where its ttype belongs.
    pub fn insert(&mut self, tclass: TClass)
        ensures
            ttypes_sorted(final(self)@),
            ttypes_of(old(self)@).contains(tclass@.0) ==> exists|i: int|
                0 <= i < old(self)@.len() && old(self)@[i].0 == tclass@.0 && final(self)@ == old(
                    self,
                )@.update(i, tclass@),
            !ttypes_of(old(self)@).contains(tclass@.0) ==> exists|p: int|
                0 <= p <= old(self)@.len() && final(self)@ == old(self)@.insert(p, tclass@),
    {
        let found = self.find(tclass.ttype());
        let ghost old_ts = self@;
        let ghost t = tclass@;
        let mut items: Vec<TClass> = Vec::new();
        std::mem::swap(&mut items, &mut self.items);
        match found {
            Ok(i) => {
                items.set(i, tclass);
                proof {
                    assert(tclass_models(items@) =~= old_ts.update(i as int, t));
                    assert(ttypes_of(old_ts)[i as int] == t.0);
                }
            },
            Err(p) => {
                items.insert(p, tclass);
                proof {
                    let ks = tclass_models(items@);
                    assert(ks =~= old_ts.insert(p as int, t));
                    assert forall|a: int, b: int| 0 <= a < b < ks.len() implies str_key_lt(
                        #[trigger] ks[a].0,
                        #[trigger] ks[b].0,
                    ) by {
                        if b < p {
                            assert(old_ts[a] == ks[a] && old_ts[b] == ks[b]);
                        } else if a > p {
                            assert(old_ts[a - 1] == ks[a] && old_ts[b - 1] == ks[b]);
                        } else if a == p {
                            assert(old_ts[b - 1] == ks[b]);
                        } else if b == p {
                            assert(old_ts[a] == ks[a]);
                        } else {
                            assert(old_ts[a] == ks[a] && old_ts[b - 1] == ks[b]);
                        }
                    }
                    if ttypes_of(old_ts).contains(t.0) {
                        let j = choose|j: int| 0 <= j < ttypes_of(old_ts).len() && ttypes_of(old_ts)[j] == t.0;
                        lemma_key_lt_irreflexive(KeyModel::Str(t.0));
                    }
                }
            },
        }
        self.items = items;
    }

    /// Removes the tclass with the given ttype, if there is one.
    pub fn remove(&mut self, ttype: &str)
        ensures
            ttypes_sorted(final(self)@),
            ttypes_of(old(self)@).contains(ttype@) ==> exists|i: int|
                0 <= i < old(self)@.len() && old(self)@[i].0 == ttype@ && final(self)@ == old(
                    self,
                )@.remove(i),
            !ttypes_of(old(self)@).contains(ttype@) ==> final(self)@ == old(self)@,
    {
        let found = self.find(ttype);
        let ghost old_ts = self@;
        match found {
            Ok(i) => {
                let mut items: Vec<TClass> = Vec::new();
                std::mem::swap(&mut items, &mut self.items);
                items.remove(i);
                proof {
                    let ks = tclass_models(items@);
                    assert(ks =~= old_ts.remove(i as int));
                    assert forall|a: int, b: int| 0 <= a < b < ks.len() implies str_key_lt(
                        #[trigger] ks[a].0,
                        #[trigger] ks[b].0,
                    ) by {
                        if b < i {
                            assert(old_ts[a] == ks[a] && old_ts[b] == ks[b]);
                        } else if a >= i {
                            assert(old_ts[a + 1] == ks[a] && old_ts[b + 1] == ks[b]);
                        } else {
                            assert(old_ts[a] == ks[a] && old_ts[b + 1] == ks[b]);
                        }
                    }
                    assert(ttypes_of(old_ts)[i as int] == ttype@);
                }
                self.items = items;
            },
            Err(p) => {
                proof {
                    if ttypes_of(old_ts).contains(ttype@) {
                        let j = choose|j: int| 0 <= j < ttypes_of(old_ts).len() && ttypes_of(old_ts)[j] == ttype@;
                        lemma_key_lt_irreflexive(KeyModel::Str(ttype@));
                    }
                }
            },
        }
    }

    /// Deletes every tclass.
    pub fn clear(&mut self)
        ensures
            final(self)@ == Seq::<TClassModel>::empty(),
    {
        self.items = Vec::new();
        assert(self@ =~= Seq::<TClassModel>::empty());
    }

    /// Adds a tclass, as where a UXF text defines or imports one: a first
    /// definition of its ttype is added; a repeat of the same ttype with
    /// the same fields is harmless (a nonempty comment of the repeat
    /// replaces the earlier comment); a different definition of the same
    /// ttype is an error with the given code, and nothing changes.
    pub fn add(&mut self, tclass: TClass, filename: &str, lino: usize, code: u16) -> (r: Result<
        (),
        UxfError,
    >)
        ensures
            ttypes_sorted(final(self)@),
            !ttypes_of(old(self)@).contains(tclass@.0) ==> r is Ok && exists|p: int|
                0 <= p <= old(self)@.len() && final(self)@ == old(self)@.insert(p, tclass@),
            ttypes_of(old(self)@).contains(tclass@.0) ==> exists|i: int|
                0 <= i < old(self)@.len() && old(self)@[i].0 == tclass@.0 && if old(self)@[i].1
                    == tclass@.1 {
                    r is Ok && final(self)@ == old(self)@.update(
                        i,
                        (
                            tclass@.0,
                            tclass@.1,
                            if tclass@.2.len() > 0 {
                                tclass@.2
                            } else {
                                old(self)@[i].2
                            },
                        ),
                    )
                } else {
                    final(self)@ == old(self)@ && (r matches Err(e) && e.code == code && e.filename@
                        == filename@ && e.lino == lino && e.message@ == conflict_message(tclass@.0))
                },
    {
        let found = self.find(tclass.ttype());
        match found {
            Err(p) => {
                proof {
                    if ttypes_of(self@).contains(tclass@.0) {
                        let j = choose|j: int| 0 <= j < ttypes_of(self@).len() && ttypes_of(self@)[j] == tclass@.0;
                        assert(self@[j].0 == tclass@.0);
                        lemma_key_lt_irreflexive(KeyModel::Str(tclass@.0));
                        assert(false);
                    }
                }
                assert(!ttypes_of(self@).contains(tclass@.0));
                self.insert(tclass);
                Ok(())
            },
            Ok(i) => {
                assert(self@[i as int] == self.items@[i as int]@);
                assert(ttypes_of(self@)[i as int] == tclass@.0);
                assert(old(self)@[i as int].0 == tclass@.0);
                if self.items[i].same_as(&tclass) {
                    let ghost old_ts = self@;
                    if !tclass.comment().is_empty() {
                        let mut items: Vec<TClass> = Vec::new();
                        std::mem::swap(&mut items, &mut self.items);
                        items.set(i, tclass);
                        proof {
                            assert(tclass_models(items@) =~= old_ts.update(i as int, tclass@));
                        }
                        self.items = items;
                    } else {
                        assert(old_ts.update(i as int, (tclass@.0, tclass@.1, old_ts[i as int].2)) =~= old_ts);
                    }
                    Ok(())
                } else {
                    let message = String::from_str("conflicting ttype definitions for ").concat(
                        tclass.ttype(),
                    );
                    Err(UxfError::new(code, message, filename, lino))
                }
            },
        }
    }

    /// Returns a copy of these tclasses.
    pub fn clone_tclasses(&self) -> (r: TClasses)
        ensures
            r@ == self@,
    {
        proof {
            use_type_invariant(self);
        }
        let mut items: Vec<TClass> = Vec::new();
        let mut i: usize = 0;
        while i < self.items.len()
            invariant
                i <= self.items@.len(),
                items@.len() == i,
                forall|k: int| 0 <= k < i ==> #[trigger] items@[k]@ == self.items@[k]@,
            decreases self.items@.len() - i,
        {
            items.push(self.items[i].clone_tclass());
            i += 1;
        }
        assert(tclass_models(items@) =~= tclass_models(self.items@));
        TClasses { items }
    }
}

} // verus!
