//! The order of fields and of tclasses. Fields are ordered by name,
//! case-insensitively first (by uppercase name), then by name, then by
//! vtype (none first). Tclasses are ordered by ttype, case-insensitively
//! first (by lowercase ttype), then by ttype, then by their fields in turn.
//! An order is given as a sign: -1 (before), 0 (tie), or 1 (after).
use crate::field::{field_models, Field, FieldModel};
use crate::key::{chars_equal, chars_less, chars_lt};
use crate::tclass::{TClass, TClassModel};
use crate::text::{chars_of, to_lowercase, to_uppercase, unicode_lowercase, unicode_uppercase};
use core::cmp::Ordering;
use vstd::prelude::*;

verus! {

/// The order of two texts, char by char.
pub open spec fn chars_sign(a: Seq<char>, b: Seq<char>) -> int {
    if chars_lt(a, b) {
        -1
    } else if a == b {
        0
    } else {
        1
    }
}

/// The order of two optional vtypes: none first.
pub open spec fn vtype_sign(a: Option<Seq<char>>, b: Option<Seq<char>>) -> int {
    match (a, b) {
        (None, None) => 0,
        (None, Some(_)) => -1,
        (Some(_), None) => 1,
        (Some(x), Some(y)) => chars_sign(x, y),
    }
}

/// The order of two fields.
pub open spec fn field_sign(a: FieldModel, b: FieldModel) -> int {
    if unicode_uppercase(a.0) != unicode_uppercase(b.0) {
        chars_sign(unicode_uppercase(a.0), unicode_uppercase(b.0))
    } else if a.0 != b.0 {
        chars_sign(a.0, b.0)
    } else {
        vtype_sign(a.1, b.1)
    }
}

/// The order of two sequences of fields, field by field.
pub open spec fn fields_sign(a: Seq<FieldModel>, b: Seq<FieldModel>) -> int
    decreases a.len(),
{
    if a.len() == 0 {
        if b.len() == 0 {
            0
        } else {
            -1
        }
    } else if b.len() == 0 {
        1
    } else if field_sign(a[0], b[0]) != 0 {
        field_sign(a[0], b[0])
    } else {
        fields_sign(a.skip(1), b.skip(1))
    }
}

/// The order of two tclasses.
pub open spec fn tclass_sign(a: TClassModel, b: TClassModel) -> int {
    if unicode_lowercase(a.0) != unicode_lowercase(b.0) {
        chars_sign(unicode_lowercase(a.0), unicode_lowercase(b.0))
    } else if a.0 != b.0 {
        chars_sign(a.0, b.0)
    } else {
        fields_sign(a.1, b.1)
    }
}

/// Compares two texts char by char.
pub fn compare_chars(a: &[char], b: &[char]) -> (o: i8)
    ensures
        o == chars_sign(a@, b@),
        (o == 0) == (a@ == b@),
{
    proof {
        crate::key::lemma_chars_lt_irreflexive(a@);
    }
    if chars_less(a, b) {
        -1
    } else if chars_equal(a, b) {
        0
    } else {
        1
    }
}

/// Compares two strs char by char.
pub fn compare_strs(a: &str, b: &str) -> (o: i8)
    ensures
        o == chars_sign(a@, b@),
        (o == 0) == (a@ == b@),
{
    let ca = chars_of(a);
    let cb = chars_of(b);
    compare_chars(ca.as_slice(), cb.as_slice())
}

/// Compares two fields (see `field_sign`).
pub fn compare_fields(a: &Field, b: &Field) -> (o: i8)
    ensures
        o == field_sign(a@, b@),
{
    let ua = to_uppercase(a.name());
    let ub = to_uppercase(b.name());
    let o = compare_strs(ua.as_str(), ub.as_str());
    if o != 0 {
        return o;
    }
    let o = compare_strs(a.name(), b.name());
    if o != 0 {
        return o;
    }
    match (a.vtype(), b.vtype()) {
        (None, None) => 0,
        (None, Some(_)) => -1,
        (Some(_), None) => 1,
        (Some(x), Some(y)) => compare_strs(x, y),
    }
}

proof fn lemma_fields_sign_skip(xs: Seq<FieldModel>, ys: Seq<FieldModel>, i: int)
    requires
        0 <= i <= xs.len(),
        i <= ys.len(),
        forall|k: int| 0 <= k < i ==> #[trigger] field_sign(xs[k], ys[k]) == 0,
    ensures
        fields_sign(xs, ys) == fields_sign(xs.skip(i), ys.skip(i)),
    decreases i,
{
    if i == 0 {
        assert(xs.skip(0) =~= xs);
        assert(ys.skip(0) =~= ys);
    } else {
        lemma_fields_sign_skip(xs, ys, i - 1);
        assert(xs.skip(i - 1)[0] == xs[i - 1]);
        assert(ys.skip(i - 1)[0] == ys[i - 1]);
        assert(xs.skip(i - 1).skip(1) =~= xs.skip(i));
        assert(ys.skip(i - 1).skip(1) =~= ys.skip(i));
    }
}

/// Compares two tclasses (see `tclass_sign`).
pub fn compare_tclasses(a: &TClass, b: &TClass) -> (o: i8)
    ensures
        o == tclass_sign(a@, b@),
{
    let la = to_lowercase(a.ttype());
    let lb = to_lowercase(b.ttype());
    let o = compare_strs(la.as_str(), lb.as_str());
    if o != 0 {
        return o;
    }
    let o = compare_strs(a.ttype(), b.ttype());
    if o != 0 {
        return o;
    }
    let fa = a.fields();
    let fb = b.fields();
    let ghost (xs, ys) = (a@.1, b@.1);
    let mut i: usize = 0;
    while i < fa.len() && i < fb.len()
        invariant
            xs == a@.1,
            ys == b@.1,
            unicode_lowercase(a@.0) == unicode_lowercase(b@.0),
            a@.0 == b@.0,
            xs.len() == fa@.len(),
            ys.len() == fb@.len(),
            forall|k: int| 0 <= k < fa@.len() ==> #[trigger] xs[k] == fa@[k]@,
            forall|k: int| 0 <= k < fb@.len() ==> #[trigger] ys[k] == fb@[k]@,
            i <= fa@.len(),
            i <= fb@.len(),
            forall|k: int| 0 <= k < i ==> #[trigger] field_sign(xs[k], ys[k]) == 0,
        decreases fa@.len() - i,
    {
        let o = compare_fields(&fa[i], &fb[i]);
        if o != 0 {
            proof {
                lemma_fields_sign_skip(xs, ys, i as int);
                assert(xs.skip(i as int)[0] == xs[i as int]);
                assert(ys.skip(i as int)[0] == ys[i as int]);
            }
            return o;
        }
        i += 1;
    }
    proof {
        lemma_fields_sign_skip(xs, ys, i as int);
    }
    if i < fb.len() {
        -1
    } else if i < fa.len() {
        1
    } else {
        0
    }
}


/// The order of texts: a text ties only with itself, swapping two texts
/// flips their order, and "before" is transitive.
pub proof fn lemma_chars_sign(a: Seq<char>, b: Seq<char>, c: Seq<char>)
    ensures
        chars_sign(a, a) == 0,
        chars_sign(a, b) == -chars_sign(b, a),
        chars_sign(a, b) == 0 <==> a == b,
        chars_sign(a, b) < 0 && chars_sign(b, c) < 0 ==> chars_sign(a, c) < 0,
{
    crate::key::lemma_chars_lt_irreflexive(a);
    if a != b {
        crate::key::lemma_chars_lt_total(a, b);
        if chars_lt(a, b) && chars_lt(b, a) {
            crate::key::lemma_chars_lt_transitive(a, b, a);
        }
    }
    if chars_lt(a, b) && chars_lt(b, c) {
        crate::key::lemma_chars_lt_transitive(a, b, c);
        crate::key::lemma_chars_lt_irreflexive(a);
    }
}

proof fn lemma_vtype_sign(a: Option<Seq<char>>, b: Option<Seq<char>>, c: Option<Seq<char>>)
    ensures
        vtype_sign(a, a) == 0,
        vtype_sign(a, b) == -vtype_sign(b, a),
        vtype_sign(a, b) == 0 <==> a == b,
        vtype_sign(a, b) < 0 && vtype_sign(b, c) < 0 ==> vtype_sign(a, c) < 0,
{
    match (a, b, c) {
        (Some(x), Some(y), Some(z)) => lemma_chars_sign(x, y, z),
        (Some(x), Some(y), None) => lemma_chars_sign(x, y, x),
        (Some(x), None, Some(z)) => lemma_chars_sign(x, z, x),
        (None, Some(y), Some(z)) => lemma_chars_sign(y, z, y),
        (Some(x), None, None) => lemma_chars_sign(x, x, x),
        (None, Some(y), None) => lemma_chars_sign(y, y, y),
        (None, None, Some(z)) => lemma_chars_sign(z, z, z),
        (None, None, None) => {},
    }
}

/// Fields are in a total order (which `<` on fields follows): a field ties
/// only with an equal one, swapping two fields flips their order, and
/// "before" is transitive.
pub proof fn law_field_order(a: FieldModel, b: FieldModel, c: FieldModel)
    ensures
        field_sign(a, a) == 0,
        field_sign(a, b) == -field_sign(b, a),
        field_sign(a, b) == 0 <==> a == b,
        field_sign(a, b) < 0 && field_sign(b, c) < 0 ==> field_sign(a, c) < 0,
{
    let (ua, ub, uc) = (unicode_uppercase(a.0), unicode_uppercase(b.0), unicode_uppercase(c.0));
    lemma_chars_sign(ua, ub, uc);
    lemma_chars_sign(ua, uc, ub);
    lemma_chars_sign(ub, uc, ua);
    lemma_chars_sign(a.0, b.0, c.0);
    lemma_chars_sign(a.0, c.0, b.0);
    lemma_chars_sign(b.0, c.0, a.0);
    lemma_vtype_sign(a.1, b.1, c.1);
    lemma_vtype_sign(a.1, c.1, b.1);
    lemma_vtype_sign(b.1, c.1, a.1);
}

proof fn lemma_fields_sign(a: Seq<FieldModel>, b: Seq<FieldModel>, c: Seq<FieldModel>)
    ensures
        fields_sign(a, a) == 0,
        fields_sign(a, b) == -fields_sign(b, a),
        fields_sign(a, b) == 0 <==> a == b,
        fields_sign(a, b) < 0 && fields_sign(b, c) < 0 ==> fields_sign(a, c) < 0,
    decreases a.len(),
{
    if a.len() > 0 {
        law_field_order(a[0], a[0], a[0]);
        if b.len() > 0 {
            law_field_order(a[0], b[0], a[0]);
            if c.len() > 0 {
                law_field_order(a[0], b[0], c[0]);
                law_field_order(a[0], c[0], b[0]);
                law_field_order(b[0], c[0], a[0]);
                lemma_fields_sign(a.skip(1), b.skip(1), c.skip(1));
            } else {
                lemma_fields_sign(a.skip(1), b.skip(1), a.skip(1));
            }
            if a.skip(1) == b.skip(1) && a[0] == b[0] {
                assert(a =~= seq![a[0]] + a.skip(1));
                assert(b =~= seq![b[0]] + b.skip(1));
            }
        } else {
            lemma_fields_sign(a.skip(1), a.skip(1), a.skip(1));
        }
        lemma_fields_sign(a.skip(1), a.skip(1), a.skip(1));
    } else {
        if b.len() == 0 {
            assert(a =~= b);
        }
    }
}

/// Tclasses are in a total order (which `<` on tclasses follows): by
/// ttype, case-insensitively first, then by fields. A tclass ties only
/// with one of the same ttype and fields, swapping two flips their order,
/// and "before" is transitive.
pub proof fn law_tclass_order(a: TClassModel, b: TClassModel, c: TClassModel)
    ensures
        tclass_sign(a, a) == 0,
        tclass_sign(a, b) == -tclass_sign(b, a),
        tclass_sign(a, b) == 0 <==> (a.0 == b.0 && a.1 == b.1),
        tclass_sign(a, b) < 0 && tclass_sign(b, c) < 0 ==> tclass_sign(a, c) < 0,
{
    let (la, lb, lc) = (unicode_lowercase(a.0), unicode_lowercase(b.0), unicode_lowercase(c.0));
    lemma_chars_sign(la, lb, lc);
    lemma_chars_sign(la, lc, lb);
    lemma_chars_sign(lb, lc, la);
    lemma_chars_sign(a.0, b.0, c.0);
    lemma_chars_sign(a.0, c.0, b.0);
    lemma_chars_sign(b.0, c.0, a.0);
    lemma_fields_sign(a.1, b.1, c.1);
    lemma_fields_sign(a.1, c.1, b.1);
    lemma_fields_sign(b.1, c.1, a.1);
}

} // verus!
