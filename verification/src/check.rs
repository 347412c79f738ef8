//! Checks of the names used in UXF: key types (ktypes), value types
//! (vtypes), table names (ttypes), and field names.
use crate::consts::{
    is_bool_name, is_bool_word, is_ktype_name, is_ktype_word, is_reserved_name, is_reserved_word,
    MAX_IDENTIFIER_LEN,
};
use crate::error::UxfError;
use crate::text::{chars_of, is_alphabetic, is_alphanumeric, unicode_alphabetic, unicode_alphanumeric};
use vstd::prelude::*;

verus! {

/// Whether `c` may appear in a name: a letter, a digit, or `_`.
pub open spec fn name_char_ok(c: char) -> bool {
    c == '_' || unicode_alphanumeric(c)
}

/// Whether some char among the first `MAX_IDENTIFIER_LEN` of `name` may not
/// appear in a name.
pub open spec fn has_bad_char(name: Seq<char>) -> bool {
    exists|i: int| 0 <= i < name.len() && i < MAX_IDENTIFIER_LEN && !name_char_ok(#[trigger] name[i])
}

/// The error (code and message) for a value type name (vtype), or `None` if
/// it is valid. The checks come in this order: nonempty (298), starts with
/// a letter or underscore (300), not `yes` or `no` (302), only letters,
/// digits, or underscores (310), at most `MAX_IDENTIFIER_LEN` chars (306,
/// which gives the name's length).
pub open spec fn vtype_error(name: Seq<char>) -> Option<(u16, Seq<char>)> {
    if name.len() == 0 {
        Some((298u16, "names must be nonempty"@))
    } else if !(name[0] == '_' || unicode_alphabetic(name[0])) {
        Some((300u16, "names must start with a letter or underscore, got "@ + name))
    } else if is_bool_word(name) {
        Some((302u16, "names may not be yes or no got "@ + name))
    } else if has_bad_char(name) {
        Some((310u16, "names may only contain letters, digits, or underscores, got "@ + name))
    } else if name.len() > MAX_IDENTIFIER_LEN {
        Some((306u16, "names may be at most 32 characters long, got "@ + name + " ("@ + crate::text::nat_text(
            name.len(),
        ) + " characters)"@))
    } else {
        None
    }
}

/// The message of the error for a reserved word used as a name.
pub open spec fn reserved_message(name: Seq<char>) -> Seq<char> {
    "table names (ttypes) and fieldnames cannot be the same as built-in type names or constants, got "@
        + name
}

/// The error (code and message) for a field name, or `None` if it is
/// valid: a reserved word (304), else as for a vtype.
pub open spec fn name_error(name: Seq<char>) -> Option<(u16, Seq<char>)> {
    if is_reserved_word(name) {
        Some((304u16, reserved_message(name)))
    } else {
        vtype_error(name)
    }
}

/// The error (code and message) for a table name (ttype), or `None` if it
/// is valid: as for a vtype, else a reserved word (304).
pub open spec fn ttype_error(name: Seq<char>) -> Option<(u16, Seq<char>)> {
    match vtype_error(name) {
        Some(e) => Some(e),
        None => if is_reserved_word(name) {
            Some((304u16, reserved_message(name)))
        } else {
            None
        },
    }
}

/// The error (code and message) for a key type name (ktype), or `None` if
/// it is one of `bytes`, `date`, `datetime`, `int`, `str`.
pub open spec fn ktype_error(name: Seq<char>) -> Option<(u16, Seq<char>)> {
    if is_ktype_word(name) {
        None
    } else {
        Some((308u16, "a ktype must be one of [\"bytes\", \"date\", \"datetime\", \"int\", \"str\"], got "@ + name))
    }
}

/// Whether `r` is the outcome of checking `name` as a field name at
/// `filename` and `lino`: a reserved word is reported there (304); the
/// other errors are those of a vtype, reported at `-` line 0.
pub open spec fn name_outcome(r: Result<(), UxfError>, name: Seq<char>, filename: Seq<char>, lino: usize) -> bool {
    if is_reserved_word(name) {
        check_outcome(r, Some((304u16, reserved_message(name))), filename, lino)
    } else {
        check_outcome(r, vtype_error(name), "-"@, 0)
    }
}

/// Whether `r` is the outcome of checking `name` as a table name at
/// `filename` and `lino`: a vtype error is reported at `-` line 0; a
/// reserved word is reported there (304).
pub open spec fn ttype_outcome(r: Result<(), UxfError>, name: Seq<char>, filename: Seq<char>, lino: usize) -> bool {
    match vtype_error(name) {
        Some(e) => check_outcome(r, Some(e), "-"@, 0),
        None => check_outcome(r, ttype_error(name), filename, lino),
    }
}

/// Whether `r` is the outcome that `expected` (an error code and message,
/// or `None`) calls for, at `filename` and `lino`.
pub open spec fn check_outcome(
    r: Result<(), UxfError>,
    expected: Option<(u16, Seq<char>)>,
    filename: Seq<char>,
    lino: usize,
) -> bool {
    match expected {
        None => r is Ok,
        Some((code, message)) => r matches Err(e) && e.code == code && e.message@ == message
            && e.filename@ == filename && e.lino == lino,
    }
}

fn error_with(code: u16, prefix: &str, name: &[char], filename: &str, lino: usize) -> (e: UxfError)
    ensures
        e.code == code,
        e.message@ == prefix@ + name@,
        e.filename@ == filename@,
        e.lino == lino,
{
    let s = crate::util::str_for_chars(name);
    let message = String::from_str(prefix).concat(s.as_str());
    UxfError::new(code, message, filename, lino)
}

/// Checks a vtype given as chars; see `check_vtype_x`.
pub fn check_vtype_chars(name: &[char], filename: &str, lino: usize) -> (r: Result<(), UxfError>)
    ensures
        check_outcome(r, vtype_error(name@), filename@, lino),
{
    if name.len() == 0 {
        return Err(UxfError::new(298, String::from_str("names must be nonempty"), filename, lino));
    }
    let first = name[0];
    if !(first == '_' || is_alphabetic(first)) {
        return Err(
            error_with(300, "names must start with a letter or underscore, got ", name, filename, lino),
        );
    }
    if is_bool_name(name) {
        return Err(error_with(302, "names may not be yes or no got ", name, filename, lino));
    }
    let mut i: usize = 0;
    while i < name.len()
        invariant
            i <= name@.len(),
            i <= MAX_IDENTIFIER_LEN,
            name@.len() > 0,
            name@[0] == '_' || unicode_alphabetic(name@[0]),
            !is_bool_word(name@),
            forall|j: int| 0 <= j < i ==> name_char_ok(#[trigger] name@[j]),
        decreases name@.len() - i,
    {
        if i == MAX_IDENTIFIER_LEN {
            proof {
                assert(!has_bad_char(name@));
            }
            let e = error_with(
                306,
                "names may be at most 32 characters long, got ",
                name,
                filename,
                lino,
            );
            let mut m: Vec<char> = chars_of(e.message.as_str());
            crate::text::push_str(&mut m, " (");
            crate::text::push_nat(&mut m, name.len() as u64);
            crate::text::push_str(&mut m, " characters)");
            let message = crate::util::str_for_chars(m.as_slice());
            return Err(UxfError::new(306, message, filename, lino));
        }
        let c = name[i];
        if !(c == '_' || is_alphanumeric(c)) {
            proof {
                assert(has_bad_char(name@)) by {
                    assert(!name_char_ok(name@[i as int]));
                }
            }
            return Err(
                error_with(
                    310,
                    "names may only contain letters, digits, or underscores, got ",
                    name,
                    filename,
                    lino,
                ),
            );
        }
        i += 1;
    }
    Ok(())
}

/// Returns `Ok(())` if `name` is a valid vtype; otherwise `Err`.
/// Note that for lists and maps an empty vtype means any vtype is
/// acceptable; so for these, only check the vtype if it is nonempty.
pub fn check_vtype_x(name: &str, filename: &str, lino: usize) -> (r: Result<(), UxfError>)
    ensures
        check_outcome(r, vtype_error(name@), filename@, lino),
{
    let chars = chars_of(name);
    check_vtype_chars(chars.as_slice(), filename, lino)
}

/// Returns `Ok(())` if `name` is a valid vtype; otherwise `Err`.
pub fn check_vtype(name: &str) -> (r: Result<(), UxfError>)
    ensures
        check_outcome(r, vtype_error(name@), "-"@, 0),
{
    check_vtype_x(name, "-", 0)
}

/// Checks a field name given as chars; see `check_name_x`.
pub fn check_name_chars(name: &[char], filename: &str, lino: usize) -> (r: Result<(), UxfError>)
    ensures
        name_outcome(r, name@, filename@, lino),
{
    if is_reserved_name(name) {
        return Err(
            error_with(
                304,
                "table names (ttypes) and fieldnames cannot be the same as built-in type names or constants, got ",
                name,
                filename,
                lino,
            ),
        );
    }
    check_vtype_chars(name, "-", 0)
}

/// Returns `Ok(())` if `name` is a valid field name; otherwise `Err`.
pub fn check_name_x(name: &str, filename: &str, lino: usize) -> (r: Result<(), UxfError>)
    ensures
        name_outcome(r, name@, filename@, lino),
{
    let chars = chars_of(name);
    check_name_chars(chars.as_slice(), filename, lino)
}

/// Returns `Ok(())` if `name` is a valid field name; otherwise `Err`.
pub fn check_name(name: &str) -> (r: Result<(), UxfError>)
    ensures
        check_outcome(r, name_error(name@), "-"@, 0),
{
    check_name_x(name, "-", 0)
}

/// Checks a table name given as chars; see `check_ttype_x`.
pub fn check_ttype_chars(name: &[char], filename: &str, lino: usize) -> (r: Result<(), UxfError>)
    ensures
        ttype_outcome(r, name@, filename@, lino),
{
    check_vtype_chars(name, "-", 0)?;
    if is_reserved_name(name) {
        return Err(
            error_with(
                304,
                "table names (ttypes) and fieldnames cannot be the same as built-in type names or constants, got ",
                name,
                filename,
                lino,
            ),
        );
    }
    Ok(())
}

/// Returns `Ok(())` if `ttype` is a valid table name (ttype); otherwise
/// `Err`.
/// Note that this does not (cannot) check whether a ttype of this name has
/// been defined.
pub fn check_ttype_x(ttype: &str, filename: &str, lino: usize) -> (r: Result<(), UxfError>)
    ensures
        ttype_outcome(r, ttype@, filename@, lino),
{
    let chars = chars_of(ttype);
    check_ttype_chars(chars.as_slice(), filename, lino)
}

/// Returns `Ok(())` if `ttype` is a valid table name (ttype); otherwise
/// `Err`.
pub fn check_ttype(ttype: &str) -> (r: Result<(), UxfError>)
    ensures
        check_outcome(r, ttype_error(ttype@), "-"@, 0),
{
    check_ttype_x(ttype, "-", 0)
}

/// Checks a key type given as chars; see `check_ktype_x`.
pub fn check_ktype_chars(ktype: &[char], filename: &str, lino: usize) -> (r: Result<(), UxfError>)
    ensures
        check_outcome(r, ktype_error(ktype@), filename@, lino),
{
    if is_ktype_name(ktype) {
        Ok(())
    } else {
        Err(
            error_with(
                308,
                "a ktype must be one of [\"bytes\", \"date\", \"datetime\", \"int\", \"str\"], got ",
                ktype,
                filename,
                lino,
            ),
        )
    }
}

/// Returns `Ok(())` if `ktype` is a valid ktype; otherwise `Err`.
pub fn check_ktype_x(ktype: &str, filename: &str, lino: usize) -> (r: Result<(), UxfError>)
    ensures
        check_outcome(r, ktype_error(ktype@), filename@, lino),
{
    let chars = chars_of(ktype);
    check_ktype_chars(chars.as_slice(), filename, lino)
}

/// Returns `Ok(())` if `ktype` is a valid ktype; otherwise `Err`.
pub fn check_ktype(ktype: &str) -> (r: Result<(), UxfError>)
    ensures
        check_outcome(r, ktype_error(ktype@), "-"@, 0),
{
    check_ktype_x(ktype, "-", 0)
}

} // verus!
