//! A field of a table type: a name and an optional value type.
use crate::check::{check_name, check_outcome, check_vtype, name_error, vtype_error};
use crate::error::UxfError;
use crate::text::debug_text;
use vstd::prelude::*;

verus! {

/// Provides a definition of a field (`name` and `vtype`) for use in
/// ``TClass``es.
///
/// ``Field``s are immutable.
#[derive(Clone, Debug)]
pub struct Field {
    name: String,
    vtype: Option<String>,
}

/// What a field is: its name and its vtype (`None` for any vtype).
pub type FieldModel = (Seq<char>, Option<Seq<char>>);

impl View for Field {
    type V = FieldModel;

    closed spec fn view(&self) -> FieldModel {
        (
            self.name@,
            match self.vtype {
                Some(v) => Some(v@),
                None => None,
            },
        )
    }
}

/// The error (code and message) that creating a field with this name and
/// vtype (empty for any vtype) gives, or `None` if both are valid.
pub open spec fn field_error(name: Seq<char>, vtype: Seq<char>) -> Option<(u16, Seq<char>)> {
    match name_error(name) {
        Some(e) => Some(e),
        None => if vtype.len() == 0 {
            None
        } else {
            vtype_error(vtype)
        },
    }
}

/// The field that valid `name` and `vtype` (empty for any vtype) make.
pub open spec fn field_model(name: Seq<char>, vtype: Seq<char>) -> FieldModel {
    (name, if vtype.len() == 0 { None } else { Some(vtype) })
}

impl Field {
    /// Creates a new `Field` with the given `name` and `vtype` _or_
    /// returns an Err if either or both is or are invalid.
    /// A `vtype` of "" signifies `None`, i.e., that this field will accept
    /// any vtype.
    pub fn new(name: &str, vtype: &str) -> (r: Result<Field, UxfError>)
        ensures
            match field_error(name@, vtype@) {
                None => r matches Ok(f) && f@ == field_model(name@, vtype@),
                Some((code, message)) => r matches Err(e) && e.code == code && e.message@ == message
                    && e.filename@ == "-"@ && e.lino == 0,
            },
    {
        let c = check_name(name);
        if let Err(e) = c {
            return Err(e);
        }
        let vtype = if vtype.is_empty() {
            None
        } else {
            let v = check_vtype(vtype);
            if let Err(e) = v {
                return Err(e);
            }
            Some(String::from_str(vtype))
        };
        Ok(Field { name: String::from_str(name), vtype })
    }

    /// Return's the ``Field``'s `name`.
    pub fn name(&self) -> (r: &str)
        ensures
            r@ == self@.0,
    {
        self.name.as_str()
    }

    /// Return's the ``Field``'s `vtype` (which may be `None`).
    pub fn vtype(&self) -> (r: Option<&str>)
        ensures
            match r {
                Some(v) => self@.1 == Some(v@),
                None => self@.1 is None,
            },
    {
        match &self.vtype {
            None => None,
            Some(vtype) => Some(vtype.as_str()),
        }
    }

    /// Whether this field and `other` have the same name and vtype.
    pub fn same_as(&self, other: &Field) -> (b: bool)
        ensures
            b == (self@ == other@),
    {
        let same_vtype = match (&self.vtype, &other.vtype) {
            (None, None) => true,
            (Some(a), Some(b)) => a.eq(b),
            _ => false,
        };
        self.name.eq(&other.name) && same_vtype
    }

    /// Whether this field and `other` have the same name.
    pub fn same_name(&self, other: &Field) -> (b: bool)
        ensures
            b == (self@.0 == other@.0),
    {
        self.name.eq(&other.name)
    }

    /// The UXF text of this field: `name` or `name:vtype`.
    pub open spec fn text_of(m: FieldModel) -> Seq<char> {
        match m.1 {
            Some(v) => m.0 + seq![':'] + v,
            None => m.0,
        }
    }

    /// Returns the UXF text of this field: `name` or `name:vtype`.
    pub fn to_string(&self) -> (s: String)
        ensures
            s@ == Field::text_of(self@),
    {
        match &self.vtype {
            Some(v) => {
                let s = self.name.clone().concat(":").concat(v.as_str());
                proof {
                    reveal_strlit(":");
                }
                assert(s@ =~= Field::text_of(self@));
                s
            },
            None => self.name.clone(),
        }
    }
}

impl Field {
    /// Whether this field's name is `name`.
    pub fn name_is(&self, name: &String) -> (b: bool)
        ensures
            b == (self@.0 == name@),
    {
        let n = String::from_str(self.name());
        n.eq(name)
    }
}

impl Field {
    /// A copy of this field.
    pub fn clone_field(&self) -> (r: Field)
        ensures
            r@ == self@,
    {
        let vtype = match &self.vtype {
            Some(v) => Some(v.clone()),
            None => None,
        };
        Field { name: self.name.clone(), vtype }
    }
}

impl PartialEq for Field {
    fn eq(&self, other: &Self) -> (r: bool) {
        self.same_as(other)
    }
}

impl vstd::std_specs::cmp::PartialEqSpecImpl for Field {
    open spec fn obeys_eq_spec() -> bool {
        true
    }

    open spec fn eq_spec(&self, other: &Field) -> bool {
        self@ == other@
    }
}

impl Eq for Field {
}

/// The names of the given fields, in order.
pub open spec fn names_of(fields: Seq<FieldModel>) -> Seq<Seq<char>> {
    fields.map_values(|f: FieldModel| f.0)
}

/// The index of the first name that repeats an earlier one, if any.
pub open spec fn first_repeat(names: Seq<Seq<char>>) -> Option<int>
    decreases names.len(),
{
    if names.len() == 0 {
        None
    } else {
        match first_repeat(names.drop_last()) {
            Some(j) => Some(j),
            None => if names.drop_last().contains(names.last()) {
                Some(names.len() - 1)
            } else {
                None
            },
        }
    }
}

/// The error (code and message) for a list of fields with a repeated name,
/// or `None` if no two fields have the same name.
pub open spec fn fields_error(fields: Seq<FieldModel>) -> Option<(u16, Seq<char>)> {
    match first_repeat(names_of(fields)) {
        Some(j) => Some(
            (
                336u16,
                "can't have duplicate table tclass field names, got "@ + debug_text(fields[j].0)
                    + " twice"@,
            ),
        ),
        None => None,
    }
}

/// The views of the given fields.
pub open spec fn field_models(fields: Seq<Field>) -> Seq<FieldModel> {
    fields.map_values(|f: Field| f@)
}

proof fn lemma_first_repeat_none_distinct(names: Seq<Seq<char>>)
    requires
        first_repeat(names) is None,
    ensures
        forall|i: int, j: int| 0 <= i < j < names.len() ==> names[i] != names[j],
    decreases names.len(),
{
    if names.len() > 0 {
        lemma_first_repeat_none_distinct(names.drop_last());
        assert forall|i: int, j: int| 0 <= i < j < names.len() implies names[i] != names[j] by {
            if j == names.len() - 1 {
                if names[i] == names[j] {
                    assert(names.drop_last()[i] == names.last());
                    assert(names.drop_last().contains(names.last()));
                }
            } else {
                assert(names.drop_last()[i] == names[i]);
                assert(names.drop_last()[j] == names[j]);
            }
        }
    }
}

proof fn lemma_first_repeat_prefix(names: Seq<Seq<char>>, k: int)
    requires
        0 <= k <= names.len(),
        first_repeat(names.take(k)) is Some,
    ensures
        first_repeat(names) == first_repeat(names.take(k)),
    decreases names.len() - k,
{
    if k < names.len() {
        assert(names.take(k + 1).drop_last() =~= names.take(k));
        lemma_first_repeat_prefix(names, k + 1);
    } else {
        assert(names.take(k) =~= names);
    }
}

/// Returns `Ok(())` if there are no duplicate fields; otherwise `Err`.
pub fn check_fields_x(fields: &Vec<Field>, filename: &str, lino: usize) -> (r: Result<(), UxfError>)
    ensures
        check_outcome(r, fields_error(field_models(fields@)), filename@, lino),
        r is Ok ==> forall|i: int, j: int|
            0 <= i < j < fields@.len() ==> fields@[i]@.0 != fields@[j]@.0,
{
    let ghost names = names_of(field_models(fields@));
    assert(names.len() == fields@.len());
    let mut j: usize = 0;
    assert(names.take(0) =~= Seq::<Seq<char>>::empty());
    while j < fields.len()
        invariant
            j <= fields@.len(),
            names == names_of(field_models(fields@)),
            names.len() == fields@.len(),
            first_repeat(names.take(j as int)) is None,
        decreases fields@.len() - j,
    {
        let mut i: usize = 0;
        while i < j
            invariant
                i <= j < fields@.len(),
                names == names_of(field_models(fields@)),
                names.len() == fields@.len(),
                forall|k: int| 0 <= k < i ==> names[k] != names[j as int],
                first_repeat(names.take(j as int)) is None,
            decreases j - i,
        {
            assert(names[i as int] == fields@[i as int]@.0);
            assert(names[j as int] == fields@[j as int]@.0);
            if fields[i].same_name(&fields[j]) {
                proof {
                    assert(names.take(j + 1).drop_last() =~= names.take(j as int));
                    assert(names.take(j as int)[i as int] == names[j as int]);
                    assert(names.take(j as int).contains(names[j as int]));
                    assert(names.take(j + 1).last() == names[j as int]);
                    assert(first_repeat(names.take(j + 1)) == Some(j as int));
                    lemma_first_repeat_prefix(names, j + 1);
                }
                let mut message = String::from_str("can't have duplicate table tclass field names, got ");
                let d = crate::text::debug_str(fields[j].name());
                message = message.concat(d.as_str()).concat(" twice");
                return Err(UxfError::new(336, message, filename, lino));
            }
            i += 1;
        }
        proof {
            assert(names.take(j + 1).drop_last() =~= names.take(j as int));
            if names.take(j as int).contains(names[j as int]) {
                let k = choose|k: int| 0 <= k < j && names.take(j as int)[k] == names[j as int];
                assert(names[k] == names[j as int]);
            }
        }
        j += 1;
    }
    assert(names.take(fields@.len() as int) =~= names);
    proof {
        lemma_first_repeat_none_distinct(names);
        assert forall|i: int, j: int| 0 <= i < j < fields@.len() implies fields@[i]@.0
            != fields@[j]@.0 by {
            assert(names[i] == fields@[i]@.0);
            assert(names[j] == fields@[j]@.0);
        }
    }
    Ok(())
}

/// Returns `Ok(())` if there are no duplicate fields; otherwise `Err`.
pub fn check_fields(fields: &Vec<Field>) -> (r: Result<(), UxfError>)
    ensures
        check_outcome(r, fields_error(field_models(fields@)), "-"@, 0),
        r is Ok ==> forall|i: int, j: int|
            0 <= i < j < fields@.len() ==> fields@[i]@.0 != fields@[j]@.0,
{
    check_fields_x(fields, "-", 0)
}

/// The index of the first pair that does not make a valid field, if any.
pub open spec fn first_bad_pair(pairs: Seq<(Seq<char>, Seq<char>)>) -> Option<int>
    decreases pairs.len(),
{
    if pairs.len() == 0 {
        None
    } else {
        match first_bad_pair(pairs.drop_last()) {
            Some(i) => Some(i),
            None => if field_error(pairs.last().0, pairs.last().1) is Some {
                Some(pairs.len() - 1)
            } else {
                None
            },
        }
    }
}

proof fn lemma_first_bad_pair_prefix(pairs: Seq<(Seq<char>, Seq<char>)>, k: int)
    requires
        0 <= k <= pairs.len(),
        first_bad_pair(pairs.take(k)) is Some,
    ensures
        first_bad_pair(pairs) == first_bad_pair(pairs.take(k)),
    decreases pairs.len() - k,
{
    if k < pairs.len() {
        assert(pairs.take(k + 1).drop_last() =~= pairs.take(k));
        lemma_first_bad_pair_prefix(pairs, k + 1);
    } else {
        assert(pairs.take(k) =~= pairs);
    }
}

/// The views of name/vtype pairs.
pub open spec fn pair_views(pairs: Seq<(&str, &str)>) -> Seq<(Seq<char>, Seq<char>)> {
    pairs.map_values(|p: (&str, &str)| (p.0@, p.1@))
}

/// The fields that valid name/vtype pairs make.
pub open spec fn pair_fields(pairs: Seq<(Seq<char>, Seq<char>)>) -> Seq<FieldModel> {
    pairs.map_values(|p: (Seq<char>, Seq<char>)| field_model(p.0, p.1))
}

/// The outcome of making fields from name/vtype pairs: the error of the
/// first invalid pair (at `-`, line 0); else the error for a repeated
/// name (at `filename`, `lino`); else the fields, in order.
pub open spec fn make_fields_outcome(
    r: Result<Vec<Field>, UxfError>,
    pairs: Seq<(Seq<char>, Seq<char>)>,
    filename: Seq<char>,
    lino: usize,
) -> bool {
    match first_bad_pair(pairs) {
        Some(i) => {
            let (code, message) = field_error(pairs[i].0, pairs[i].1).unwrap();
            r matches Err(e) && e.code == code && e.message@ == message && e.filename@ == "-"@
                && e.lino == 0
        },
        None => match fields_error(pair_fields(pairs)) {
            Some((code, message)) => r matches Err(e) && e.code == code && e.message@ == message
                && e.filename@ == filename && e.lino == lino,
            None => r matches Ok(fields) && field_models(fields@) == pair_fields(pairs),
        },
    }
}

/// Returns a vector of fields which when unwrapped is suitable for
/// TClass::new(). Use an empty string for vtypes that should be None.
pub fn make_fields_x(name_vtype_pairs: &[(&str, &str)], filename: &str, lino: usize) -> (r: Result<
    Vec<Field>,
    UxfError,
>)
    ensures
        make_fields_outcome(r, pair_views(name_vtype_pairs@), filename@, lino),
{
    let ghost pairs = pair_views(name_vtype_pairs@);
    let mut fields: Vec<Field> = Vec::new();
    let mut i: usize = 0;
    assert(pairs.take(0) =~= Seq::<(Seq<char>, Seq<char>)>::empty());
    while i < name_vtype_pairs.len()
        invariant
            i <= name_vtype_pairs@.len(),
            pairs == pair_views(name_vtype_pairs@),
            pairs.len() == name_vtype_pairs@.len(),
            first_bad_pair(pairs.take(i as int)) is None,
            field_models(fields@) == pair_fields(pairs.take(i as int)),
        decreases name_vtype_pairs@.len() - i,
    {
        let (name, vtype) = name_vtype_pairs[i];
        assert(pairs[i as int] == (name@, vtype@));
        assert(pairs.take(i + 1).drop_last() =~= pairs.take(i as int));
        match Field::new(name, vtype) {
            Ok(f) => {
                let ghost before = fields@;
                assert(f@ == field_model(name@, vtype@));
                fields.push(f);
                assert(fields@ == before.push(f));
                assert(pair_fields(pairs.take(i + 1)) =~= pair_fields(pairs.take(i as int)).push(
                    field_model(name@, vtype@),
                ));
                assert(field_models(fields@) =~= field_models(before).push(f@));
                assert(field_models(fields@) =~= pair_fields(pairs.take(i + 1)));
            },
            Err(e) => {
                proof {
                    assert(first_bad_pair(pairs.take(i + 1)) == Some(i as int));
                    lemma_first_bad_pair_prefix(pairs, i + 1);
                }
                return Err(e);
            },
        }
        i += 1;
    }
    assert(pairs.take(pairs.len() as int) =~= pairs);
    match check_fields_x(&fields, filename, lino) {
        Ok(()) => Ok(fields),
        Err(e) => Err(e),
    }
}

/// Returns a vector of fields which when unwrapped is suitable for
/// TClass::new(). Use an empty string for vtypes that should be None.
pub fn make_fields(name_vtype_pairs: &[(&str, &str)]) -> (r: Result<Vec<Field>, UxfError>)
    ensures
        make_fields_outcome(r, pair_views(name_vtype_pairs@), ""@, 0),
{
    make_fields_x(name_vtype_pairs, "", 0)
}

} // verus!
