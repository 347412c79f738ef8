//! A TClass represents a Table's type: its ttype (i.e., table type name),
//! and its fields.
//!
//! A TClass may have no fields (for a fieldless table), and may have a
//! comment.
use crate::check::{check_outcome, check_ttype, ttype_error};
use crate::error::UxfError;
use crate::field::{
    check_fields, field_error, field_model, field_models, fields_error, Field, FieldModel,
};
use crate::text::{chars_of, debug_text, is_whitespace, unicode_whitespace};
use crate::util::{escaped, push_escaped, str_for_chars};
use vstd::prelude::*;

verus! {

/// Provides a definition of a tclass (`ttype`, `fields`, and `comment`)
/// for use in ``Table``s.
#[derive(Debug)]
pub struct TClass {
    ttype: String,
    fields: Vec<Field>,
    comment: String,
}

/// What a tclass is: its ttype, its fields, and its comment.
pub type TClassModel = (Seq<char>, Seq<FieldModel>, Seq<char>);

impl View for TClass {
    type V = TClassModel;

    closed spec fn view(&self) -> TClassModel {
        (self.ttype@, field_models(self.fields@), self.comment@)
    }
}

/// Whether no two of the fields have the same name.
pub open spec fn distinct_field_names(fields: Seq<FieldModel>) -> bool {
    forall|i: int, j: int| #![trigger fields[i], fields[j]] 0 <= i < j < fields.len() ==> fields[i].0 != fields[j].0
}

impl TClass {
    /// No two fields of a tclass have the same name.
    #[verifier::type_invariant]
    spec fn names_distinct(self) -> bool {
        distinct_field_names(field_models(self.fields@))
    }

}

/// The outcome of creating a tclass from a ttype, fields and a comment:
/// the ttype's error, else the error for a repeated field name, else the
/// tclass.
pub open spec fn new_tclass_outcome(
    r: Result<TClass, UxfError>,
    ttype: Seq<char>,
    fields: Seq<FieldModel>,
    comment: Seq<char>,
) -> bool {
    match ttype_error(ttype) {
        Some((code, message)) => r matches Err(e) && e.code == code && e.message@ == message
            && e.filename@ == "-"@ && e.lino == 0,
        None => match fields_error(fields) {
            Some((code, message)) => r matches Err(e) && e.code == code && e.message@ == message
                && e.filename@ == "-"@ && e.lino == 0,
            None => r matches Ok(t) && t@ == (ttype, fields, comment),
        },
    }
}

/// The UXF text of a tclass definition: `=`, then `#<comment> ` if there
/// is a comment, then the ttype, then ` field` for each field.
pub open spec fn tclass_text(m: TClassModel) -> Seq<char> {
    seq!['='] + (if m.2.len() == 0 {
        Seq::<char>::empty()
    } else {
        seq!['#', '<'] + escaped(m.2) + seq!['>', ' ']
    }) + m.0 + fields_text(m.1)
}

/// ` field` for each of the fields.
pub open spec fn fields_text(fields: Seq<FieldModel>) -> Seq<char>
    decreases fields.len(),
{
    if fields.len() == 0 {
        seq![]
    } else {
        fields_text(fields.drop_last()) + seq![' '] + Field::text_of(fields.last())
    }
}

/// The index of the first field with the given name, if any.
pub open spec fn column_of(fields: Seq<FieldModel>, name: Seq<char>) -> Option<int> {
    if exists|i: int| 0 <= i < fields.len() && fields[i].0 == name {
        Some(choose|i: int| 0 <= i < fields.len() && fields[i].0 == name && forall|k: int|
            0 <= k < i ==> fields[k].0 != name)
    } else {
        None
    }
}

impl TClass {
    /// Creates a new `TClass` with the given `ttype`, `fields`, and
    /// `commment` _or_ returns an Err if the `ttype` is invalid or if
    /// there are duplicate field names.
    pub fn new(ttype: &str, fields: Vec<Field>, comment: &str) -> (r: Result<TClass, UxfError>)
        ensures
            new_tclass_outcome(r, ttype@, field_models(fields@), comment@),
    {
        let c = check_ttype(ttype);
        if let Err(e) = c {
            return Err(e);
        }
        let f = check_fields(&fields);
        if let Err(e) = f {
            return Err(e);
        }
        Ok(TClass { ttype: String::from_str(ttype), fields, comment: String::from_str(comment) })
    }

    /// Creates a new `TClass` with the given `ttype`, no `fields`, and
    /// `commment` _or_ returns an Err if the `ttype` is invalid.
    pub fn new_fieldless(ttype: &str, comment: &str) -> (r: Result<TClass, UxfError>)
        ensures
            new_tclass_outcome(r, ttype@, seq![], comment@),
    {
        let c = check_ttype(ttype);
        if let Err(e) = c {
            return Err(e);
        }
        let ghost empty: Seq<Field> = seq![];
        assert(field_models(empty) =~= seq![]);
        assert(fields_error(seq![]) is None) by {
            assert(crate::field::names_of(seq![]) =~= seq![]);
        }
        Ok(TClass { ttype: String::from_str(ttype), fields: Vec::new(), comment: String::from_str(comment) })
    }

    /// Returns `true` if fieldless; otherwise returns `false`.
    pub fn is_fieldless(&self) -> (b: bool)
        ensures
            b == (self@.1.len() == 0),
    {
        self.fields.len() == 0
    }

    /// Returns the `ttype`.
    pub fn ttype(&self) -> (r: &str)
        ensures
            r@ == self@.0,
    {
        self.ttype.as_str()
    }

    /// Returns the (possibly empty) `comment`.
    pub fn comment(&self) -> (r: &str)
        ensures
            r@ == self@.2,
    {
        self.comment.as_str()
    }

    /// Sets the comment.
    pub fn set_comment(&mut self, comment: &str)
        ensures
            final(self)@ == (old(self)@.0, old(self)@.1, comment@),
    {
        proof {
            use_type_invariant(&*self);
        }
        self.comment = String::from_str(comment);
    }

    /// Returns the `fields` (which will be empty if `is_fieldless()`).
    pub fn fields(&self) -> (r: &Vec<Field>)
        ensures
            field_models(r@) == self@.1,
    {
        &self.fields
    }

    /// Returns the field names (which will be empty if `is_fieldless()`).
    pub fn fieldnames(&self) -> (r: Vec<&str>)
        ensures
            r@.len() == self@.1.len(),
            forall|i: int| 0 <= i < r@.len() ==> (#[trigger] r@[i])@ == self@.1[i].0,
            forall|i: int, j: int| #![trigger r@[i], r@[j]] 0 <= i < j < r@.len() ==> r@[i]@ != r@[j]@,
    {
        proof {
            use_type_invariant(self);
        }
        let mut names: Vec<&str> = Vec::new();
        let mut i: usize = 0;
        while i < self.fields.len()
            invariant
                i <= self.fields@.len(),
                names@.len() == i,
                forall|k: int| 0 <= k < i ==> (#[trigger] names@[k])@ == self.fields@[k]@.0,
            decreases self.fields@.len() - i,
        {
            names.push(self.fields[i].name());
            i += 1;
        }
        proof {
            let fs = field_models(self.fields@);
            assert forall|i: int, j: int| 0 <= i < j < names@.len() implies names@[i]@ != names@[j]@ by {
                assert(fs[i].0 != fs[j].0);
            }
        }
        names
    }

    /// Returns how many fields; this will be `0` if `is_fieldless()`.
    pub fn len(&self) -> (n: usize)
        ensures
            n == self@.1.len(),
    {
        self.fields.len()
    }

    /// Returns `true` if `is_fieldless()`; otherwise `false`.
    pub fn is_empty(&self) -> (b: bool)
        ensures
            b == (self@.1.len() == 0),
    {
        self.fields.len() == 0
    }

    /// Returns the column for the given fieldname.
    /// More robust in the face of change than using column indexes
    /// directly.
    pub fn column_for_fieldname(&self, fieldname: &str) -> (r: Option<usize>)
        ensures
            match r {
                Some(i) => column_of(self@.1, fieldname@) == Some(i as int) && forall|k: int|
                    0 <= k < self@.1.len() && k != i ==> #[trigger] self@.1[k].0 != fieldname@,
                None => column_of(self@.1, fieldname@) is None,
            },
    {
        proof {
            use_type_invariant(self);
        }
        let name = String::from_str(fieldname);
        let mut i: usize = 0;
        while i < self.fields.len()
            invariant
                i <= self.fields@.len(),
                name@ == fieldname@,
                forall|k: int| 0 <= k < i ==> self.fields@[k]@.0 != fieldname@,
            decreases self.fields@.len() - i,
        {
            if self.fields[i].name_is(&name) {
                proof {
                    let fs = self@.1;
                    assert(fs[i as int].0 == fieldname@);
                    let j = choose|j: int| 0 <= j < fs.len() && fs[j].0 == fieldname@ && forall|k: int|
                        0 <= k < j ==> fs[k].0 != fieldname@;
                    if j < i {
                        assert(fs[j] == self.fields@[j]@);
                    } else if j > i {
                        assert(fs[i as int].0 != fieldname@);
                    }
                    use_type_invariant(self);
                    assert forall|k: int| 0 <= k < fs.len() && k != i implies #[trigger] fs[k].0 != fieldname@ by {
                        if k < i {
                            assert(fs[k].0 != fs[i as int].0);
                        } else {
                            assert(fs[i as int].0 != fs[k].0);
                        }
                    }
                }
                return Some(i);
            }
            i += 1;
        }
        proof {
            let fs = self@.1;
            assert forall|j: int| 0 <= j < fs.len() implies fs[j].0 != fieldname@ by {
                assert(fs[j] == self.fields@[j]@);
            }
        }
        None
    }

    /// Whether this tclass and `other` have the same ttype and fields
    /// (comments do not count).
    pub fn same_as(&self, other: &TClass) -> (b: bool)
        ensures
            b == (self@.0 == other@.0 && self@.1 == other@.1),
    {
        if !self.ttype.eq(&other.ttype) {
            return false;
        }
        if self.fields.len() != other.fields.len() {
            assert(self@.1.len() != other@.1.len());
            return false;
        }
        let mut i: usize = 0;
        while i < self.fields.len()
            invariant
                i <= self.fields@.len(),
                self.fields@.len() == other.fields@.len(),
                forall|k: int| 0 <= k < i ==> self.fields@[k]@ == other.fields@[k]@,
            decreases self.fields@.len() - i,
        {
            if !self.fields[i].same_as(&other.fields[i]) {
                assert(self@.1[i as int] != other@.1[i as int]);
                return false;
            }
            i += 1;
        }
        assert(self@.1 =~= other@.1);
        true
    }

    /// Returns the UXF text of this tclass's definition, e.g.,
    /// `=#<a comment> Point x:int y:int`.
    pub fn to_string(&self) -> (s: String)
        ensures
            s@ == tclass_text(self@),
    {
        let mut out: Vec<char> = Vec::new();
        self.push_text(&mut out);
        assert(out@ =~= tclass_text(self@));
        str_for_chars(out.as_slice())
    }

    /// Appends the UXF text of this tclass's definition to `out`.
    pub fn push_text(&self, out: &mut Vec<char>)
        ensures
            final(out)@ == old(out)@ + tclass_text(self@),
    {
        let ghost start = out@;
        out.push('=');
        if !self.comment.as_str().is_empty() {
            let c = chars_of(self.comment.as_str());
            out.push('#');
            out.push('<');
            push_escaped(out, c.as_slice());
            out.push('>');
            out.push(' ');
        }
        let ghost mid = out@;
        crate::text::push_str(out, self.ttype.as_str());
        let mut i: usize = 0;
        while i < self.fields.len()
            invariant
                i <= self.fields@.len(),
                out@ == mid + self.ttype@ + fields_text(field_models(self.fields@).take(i as int)),
            decreases self.fields@.len() - i,
        {
            out.push(' ');
            let t = self.fields[i].to_string();
            crate::text::push_str(out, t.as_str());
            proof {
                let fs = field_models(self.fields@);
                assert(fs.take(i + 1).drop_last() =~= fs.take(i as int));
                assert(fs.take(i + 1).last() == self.fields@[i as int]@);
            }
            i += 1;
            assert(out@ =~= mid + self.ttype@ + fields_text(field_models(self.fields@).take(i as int)));
        }
        assert(field_models(self.fields@).take(self.fields@.len() as int) =~= field_models(self.fields@));
        assert(out@ =~= start + tclass_text(self@));
    }
}

impl PartialEq for TClass {
    fn eq(&self, other: &Self) -> (r: bool) {
        self.same_as(other)
    }
}

impl vstd::std_specs::cmp::PartialEqSpecImpl for TClass {
    open spec fn obeys_eq_spec() -> bool {
        true
    }

    open spec fn eq_spec(&self, other: &TClass) -> bool {
        self@.0 == other@.0 && self@.1 == other@.1
    }
}

impl Eq for TClass {
}

/// This allows us to build up a TClass incrementally since a real
/// TClass is immutable.
pub struct TClassBuilder {
    pub ttype: String,
    fields: Vec<Field>,
    comment: String,
}

impl View for TClassBuilder {
    type V = TClassModel;

    closed spec fn view(&self) -> TClassModel {
        (self.ttype@, field_models(self.fields@), self.comment@)
    }
}

impl TClassBuilder {
    /// A builder with the given ttype and comment and no fields.
    pub fn new(ttype: &str, comment: &str) -> (b: TClassBuilder)
        ensures
            b@ == (ttype@, Seq::<FieldModel>::empty(), comment@),
    {
        let b = TClassBuilder {
            ttype: String::from_str(ttype),
            fields: Vec::new(),
            comment: String::from_str(comment),
        };
        assert(field_models(b.fields@) =~= Seq::<FieldModel>::empty());
        b
    }

    /// Sets the ttype and comment, keeping the fields.
    pub fn initialize(&mut self, ttype: &str, comment: &str)
        ensures
            final(self)@ == (ttype@, old(self)@.1, comment@),
    {
        self.ttype = String::from_str(ttype);
        self.comment = String::from_str(comment);
    }

    /// Empties the ttype, the comment, and the fields.
    pub fn clear(&mut self)
        ensures
            final(self)@ == (Seq::<char>::empty(), Seq::<FieldModel>::empty(), Seq::<char>::empty()),
    {
        self.ttype = String::new();
        self.comment = String::new();
        self.fields.clear();
        assert(field_models(self.fields@) =~= Seq::<FieldModel>::empty());
    }

    /// Whether a ttype has been given.
    pub fn is_valid(&self) -> (b: bool)
        ensures
            b == (self@.0.len() != 0),
    {
        !self.ttype.as_str().is_empty()
    }

    /// Appends a field.
    pub fn append(&mut self, field: &Field)
        ensures
            final(self)@ == (old(self)@.0, old(self)@.1.push(field@), old(self)@.2),
    {
        let ghost before = self.fields@;
        self.fields.push(field.clone_field());
        assert(field_models(self.fields@) =~= field_models(before).push(field@));
    }

    /// Appends a field with the given name and vtype (empty for any vtype),
    /// or returns the error that `Field::new` gives for them.
    pub fn append_field(&mut self, name: &str, vtype: &str) -> (r: Result<(), UxfError>)
        ensures
            match field_error(name@, vtype@) {
                None => r is Ok && final(self)@ == (
                    old(self)@.0,
                    old(self)@.1.push(field_model(name@, vtype@)),
                    old(self)@.2,
                ),
                Some((code, message)) => r matches Err(e) && e.code == code && e.message@ == message
                    && e.filename@ == "-"@ && e.lino == 0 && final(self)@ == old(self)@,
            },
    {
        match Field::new(name, vtype) {
            Ok(f) => {
                let ghost before = self.fields@;
                self.fields.push(f);
                assert(field_models(self.fields@) =~= field_models(before).push(field_model(name@, vtype@)));
                Ok(())
            },
            Err(e) => Err(e),
        }
    }

    /// Builds the tclass: the error for a repeated field name, else the
    /// outcome of `TClass::new` with this ttype, these fields and this
    /// comment.
    pub fn build(&self) -> (r: Result<TClass, UxfError>)
        ensures
            match fields_error(self@.1) {
                Some((code, message)) => r matches Err(e) && e.code == code && e.message@ == message
                    && e.filename@ == "-"@ && e.lino == 0,
                None => new_tclass_outcome(r, self@.0, self@.1, self@.2),
            },
    {
        let f = check_fields(&self.fields);
        if let Err(e) = f {
            return Err(e);
        }
        let fields = clone_fields(&self.fields);
        TClass::new(self.ttype.as_str(), fields, self.comment.as_str())
    }
}

/// A copy of the given fields.
pub fn clone_fields(fields: &Vec<Field>) -> (r: Vec<Field>)
    ensures
        field_models(r@) == field_models(fields@),
{
    let mut out: Vec<Field> = Vec::new();
    let mut i: usize = 0;
    while i < fields.len()
        invariant
            i <= fields@.len(),
            field_models(out@) == field_models(fields@.take(i as int)),
        decreases fields@.len() - i,
    {
        let ghost before = out@;
        out.push(fields[i].clone_field());
        assert(field_models(out@) =~= field_models(before).push(fields@[i as int]@));
        assert(fields@.take(i + 1) =~= fields@.take(i as int).push(fields@[i as int]));
        assert(field_models(fields@.take(i + 1)) =~= field_models(fields@.take(i as int)).push(
            fields@[i as int]@,
        ));
        i += 1;
    }
    assert(fields@.take(fields@.len() as int) =~= fields@);
    out
}

impl TClass {
    /// A copy of this tclass.
    pub fn clone_tclass(&self) -> (r: TClass)
        ensures
            r@ == self@,
    {
        proof {
            use_type_invariant(self);
        }
        TClass {
            ttype: self.ttype.clone(),
            fields: clone_fields(&self.fields),
            comment: self.comment.clone(),
        }
    }
}

impl Default for TClassBuilder {
    fn default() -> (b: TClassBuilder)
        ensures
            b@ == (Seq::<char>::empty(), Seq::<FieldModel>::empty(), Seq::<char>::empty()),
    {
        let b = TClassBuilder { ttype: String::new(), fields: Vec::new(), comment: String::new() };
        assert(field_models(b.fields@) =~= Seq::<FieldModel>::empty());
        b
    }
}


// ---------------------------------------------------------------------
// Making a tclass from its definition text

/// The end of the run of whitespace (`char::is_whitespace`, which is also
/// what the regex class `\s` matches) in `s` from `i` on.
pub open spec fn white_run_end(s: Seq<char>, i: int) -> int
    decreases s.len() - i,
{
    if 0 <= i < s.len() && crate::text::unicode_whitespace(s[i]) {
        white_run_end(s, i + 1)
    } else {
        i
    }
}

proof fn lemma_white_run_end(s: Seq<char>, i: int)
    requires
        0 <= i <= s.len(),
    ensures
        i <= white_run_end(s, i) <= s.len(),
    decreases s.len() - i,
{
    if i < s.len() && crate::text::unicode_whitespace(s[i]) {
        lemma_white_run_end(s, i + 1);
    }
}

/// What replacing each match of the regex `\s*:\s*` in `s` by a bare `:`
/// gives, matches found leftmost first and each run of whitespace taken
/// whole: where the whitespace from the start of `s` (perhaps none) is
/// followed by a `:`, that whitespace, the `:` and the whitespace after it
/// become a `:`; otherwise the first char stays as it is.
pub open spec fn regex_colon_normalized(s: Seq<char>) -> Seq<char>
    decreases s.len(),
    via colon_normalized_decreases
{
    if s.len() == 0 {
        seq![]
    } else {
        let j = white_run_end(s, 0);
        if j < s.len() && s[j] == ':' {
            seq![':'] + regex_colon_normalized(s.skip(white_run_end(s, j + 1)))
        } else {
            seq![s[0]] + regex_colon_normalized(s.skip(1))
        }
    }
}

#[via_fn]
proof fn colon_normalized_decreases(s: Seq<char>) {
    if s.len() > 0 {
        lemma_white_run_end(s, 0);
        let j = white_run_end(s, 0);
        if j < s.len() && s[j] == ':' {
            lemma_white_run_end(s, j + 1);
        }
    }
}

/// Replaces each match of the regex `\s*:\s*` in `s` by `:`, with
/// `regex::Regex::replace_all` (see `regex_colon_normalized`).
#[verifier::external_body]
fn normalize_colons(s: &str) -> (r: String)
    ensures
        r@ == regex_colon_normalized(s@),
{
    let re = regex::Regex::new("\\s*:\\s*").unwrap();
    re.replace_all(s, ":").into_owned()
}

/// The words split off so far from `s`, and the word being read, when `s`
/// is read char by char and split at whitespace.
pub open spec fn split_state(s: Seq<char>) -> (Seq<Seq<char>>, Seq<char>)
    decreases s.len(),
{
    if s.len() == 0 {
        (seq![], seq![])
    } else {
        let (done, cur) = split_state(s.drop_last());
        if unicode_whitespace(s.last()) {
            if cur.len() > 0 {
                (done.push(cur), seq![])
            } else {
                (done, cur)
            }
        } else {
            (done, cur.push(s.last()))
        }
    }
}

/// The nonempty runs of non-whitespace chars of `s`, in order (what
/// `str::split_whitespace` gives).
pub open spec fn words_of(s: Seq<char>) -> Seq<Seq<char>> {
    let (done, cur) = split_state(s);
    if cur.len() > 0 {
        done.push(cur)
    } else {
        done
    }
}

/// The index of the first `:` in `p` at or after `i` (the length of `p` if
/// there is none).
pub open spec fn colon_index(p: Seq<char>, i: int) -> int
    decreases p.len() - i,
{
    if i < 0 || i >= p.len() {
        p.len() as int
    } else if p[i] == ':' {
        i
    } else {
        colon_index(p, i + 1)
    }
}

/// The field name of a `name:vtype` (or bare `name`) part.
pub open spec fn part_name(p: Seq<char>) -> Seq<char> {
    p.take(colon_index(p, 0))
}

/// The vtype of a `name:vtype` part (empty for a bare `name`).
pub open spec fn part_vtype(p: Seq<char>) -> Seq<char> {
    if colon_index(p, 0) < p.len() {
        p.skip(colon_index(p, 0) + 1)
    } else {
        seq![]
    }
}

/// The error of the first part that does not make a valid field, if any.
pub open spec fn parts_error(parts: Seq<Seq<char>>) -> Option<(u16, Seq<char>)>
    decreases parts.len(),
{
    if parts.len() == 0 {
        None
    } else {
        match field_error(part_name(parts[0]), part_vtype(parts[0])) {
            Some(e) => Some(e),
            None => parts_error(parts.skip(1)),
        }
    }
}

/// The fields that the parts make.
pub open spec fn parts_fields(parts: Seq<Seq<char>>) -> Seq<FieldModel> {
    Seq::new(parts.len(), |i: int| field_model(part_name(parts[i]), part_vtype(parts[i])))
}

/// A tclass definition without its optional leading `=`.
pub open spec fn definition_body(d: Seq<char>) -> Seq<char> {
    if d.len() > 0 && d[0] == '=' {
        d.skip(1)
    } else {
        d
    }
}

/// The words of a tclass definition once colons have been normalized:
/// the ttype, then one `name` or `name:vtype` part per field.
pub open spec fn definition_words(d: Seq<char>) -> Seq<Seq<char>> {
    words_of(regex_colon_normalized(definition_body(d)))
}

/// What `make_tclass` gives for the definition `d`: an error (code 0)
/// when there are no words; else the error of the first invalid field
/// part; else what creating a tclass with the first word as its ttype, the
/// parts' fields, and no comment gives.
pub open spec fn make_tclass_outcome(r: Result<TClass, UxfError>, d: Seq<char>) -> bool {
    let ws = definition_words(d);
    if ws.len() == 0 {
        r matches Err(e) && e.code == 0 && e.message@ == "failed to create a TClass from "@ + debug_text(
            definition_body(d),
        )
    } else {
        match parts_error(ws.skip(1)) {
            Some((code, message)) => r matches Err(e) && e.code == code && e.message@ == message,
            None => new_tclass_outcome(r, ws[0], parts_fields(ws.skip(1)), seq![]),
        }
    }
}

/// Splits `s` at whitespace into its words (see `words_of`).
fn split_words(s: &[char]) -> (r: Vec<Vec<char>>)
    ensures
        r@.len() == words_of(s@).len(),
        forall|k: int| 0 <= k < r@.len() ==> #[trigger] r@[k]@ == words_of(s@)[k],
{
    let mut done: Vec<Vec<char>> = Vec::new();
    let mut cur: Vec<char> = Vec::new();
    let mut i: usize = 0;
    assert(s@.take(0) =~= Seq::<char>::empty());
    while i < s.len()
        invariant
            i <= s@.len(),
            split_state(s@.take(i as int)).0.len() == done@.len(),
            forall|k: int| 0 <= k < done@.len() ==> #[trigger] done@[k]@ == split_state(s@.take(i as int)).0[k],
            cur@ == split_state(s@.take(i as int)).1,
        decreases s@.len() - i,
    {
        let c = s[i];
        proof {
            assert(s@.take(i + 1).drop_last() =~= s@.take(i as int));
            assert(s@.take(i + 1).last() == c);
        }
        if is_whitespace(c) {
            if cur.len() > 0 {
                let w = cur;
                done.push(w);
                cur = Vec::new();
            }
        } else {
            cur.push(c);
        }
        i += 1;
    }
    assert(s@.take(i as int) =~= s@);
    if cur.len() > 0 {
        done.push(cur);
    }
    done
}

/// Splits a `name:vtype` (or bare `name`) part into its name and vtype.
fn split_part(p: &[char]) -> (r: (String, String))
    ensures
        r.0@ == part_name(p@),
        r.1@ == part_vtype(p@),
{
    let mut j: usize = 0;
    while j < p.len() && p[j] != ':'
        invariant
            j <= p@.len(),
            colon_index(p@, 0) == colon_index(p@, j as int),
        decreases p@.len() - j,
    {
        j += 1;
    }
    assert(colon_index(p@, j as int) == j);
    let name = str_for_chars(vstd::slice::slice_subrange(p, 0, j));
    let vtype = if j < p.len() {
        str_for_chars(vstd::slice::slice_subrange(p, j + 1, p.len()))
    } else {
        String::new()
    };
    assert(p@.subrange(0, j as int) =~= p@.take(j as int));
    if j < p.len() {
        assert(p@.subrange(j + 1, p@.len() as int) =~= p@.skip(j + 1));
    }
    (name, vtype)
}

/// Makes a tclass from a UXF ttype definition, e.g., `=Point x:real
/// y:real`. The leading `=` is optional; the rest must be a valid ttype
/// definition without a comment (whitespace around each `:` is allowed).
pub fn make_tclass(ttype_definition: &str) -> (r: Result<TClass, UxfError>)
    ensures
        make_tclass_outcome(r, ttype_definition@),
{
    let chars = chars_of(ttype_definition);
    let body: String = if chars.len() > 0 && chars[0] == '=' {
        str_for_chars(vstd::slice::slice_subrange(chars.as_slice(), 1, chars.len()))
    } else {
        String::from_str(ttype_definition)
    };
    proof {
        if chars@.len() > 0 && chars@[0] == '=' {
            assert(chars@.subrange(1, chars@.len() as int) =~= chars@.skip(1));
        }
    }
    assert(body@ == definition_body(ttype_definition@));
    let normalized = normalize_colons(body.as_str());
    let nchars = chars_of(normalized.as_str());
    let words = split_words(nchars.as_slice());
    let ghost ws = definition_words(ttype_definition@);
    assert(nchars@ == regex_colon_normalized(definition_body(ttype_definition@)));
    assert(words@.len() == ws.len());
    if words.len() == 0 {
        let shown = crate::text::debug_str(body.as_str());
        let message = String::from_str("failed to create a TClass from ").concat(shown.as_str());
        return Err(UxfError::new(0, message, "-", 0));
    }
    let ttype = str_for_chars(words[0].as_slice());
    let ghost parts = ws.skip(1);
    let mut fields: Vec<Field> = Vec::new();
    let mut k: usize = 1;
    assert(parts.skip(0) =~= parts);
    assert(field_models(fields@) =~= parts_fields(parts).take(0));
    while k < words.len()
        invariant
            1 <= k <= words@.len(),
            ws == definition_words(ttype_definition@),
            words@.len() == ws.len(),
            forall|m: int| 0 <= m < words@.len() ==> #[trigger] words@[m]@ == ws[m],
            parts == ws.skip(1),
            parts_error(parts) == parts_error(parts.skip(k - 1)),
            field_models(fields@) =~= parts_fields(parts).take(k - 1),
        decreases words@.len() - k,
    {
        let (name, vtype) = split_part(words[k].as_slice());
        proof {
            assert(parts.skip(k - 1)[0] == words@[k as int]@);
            assert(parts.skip(k - 1).skip(1) =~= parts.skip(k as int));
            assert(parts.skip(k - 1).len() > 0);
            assert(parts[k - 1] == words@[k as int]@);
        }
        match Field::new(name.as_str(), vtype.as_str()) {
            Ok(f) => {
                let ghost before = fields@;
                fields.push(f);
                proof {
                    assert(field_models(fields@) =~= field_models(before).push(f@));
                    assert(parts_fields(parts).take(k as int) =~= parts_fields(parts).take(k - 1).push(
                        parts_fields(parts)[k - 1],
                    ));
                }
            },
            Err(e) => {
                assert(parts_error(parts.skip(k - 1)) == field_error(name@, vtype@));
                return Err(e);
            },
        }
        k += 1;
    }
    proof {
        assert(parts.skip(k - 1) =~= Seq::<Seq<char>>::empty());
        assert(parts_fields(parts).take(k - 1) =~= parts_fields(parts));
        assert(ttype@ == ws[0]);
        assert(parts_error(ws.skip(1)) is None);
    }
    if words.len() == 1 {
        proof {
            assert(parts_fields(parts) =~= Seq::<FieldModel>::empty());
        }
        let none = String::new();
        let r = TClass::new_fieldless(ttype.as_str(), none.as_str());
        assert(new_tclass_outcome(r, ws[0], parts_fields(parts), seq![]));
        r
    } else {
        let none = String::new();
        let r = TClass::new(ttype.as_str(), fields, none.as_str());
        assert(new_tclass_outcome(r, ws[0], parts_fields(parts), seq![]));
        r
    }
}

impl Clone for TClass {
    fn clone(&self) -> (r: TClass)
        ensures
            r@ == self@,
    {
        self.clone_tclass()
    }
}

} // verus!
