//! Constants used throughout the library: the format version, the longest
//! identifier, and the built-in type names and constants of UXF.
use crate::text::chars_of;
use vstd::prelude::*;

verus! {

/// The UXF format version this library reads and writes.
pub const UXF_VERSION: u16 = 1;

/// The most chars a table, field, or type name may have.
pub const MAX_IDENTIFIER_LEN: usize = 32;

/// Whether `name` is one of the built-in type names (`bool`, `bytes`,
/// `date`, `datetime`, `int`, `list`, `map`, `real`, `str`, `table`).
pub open spec fn is_vtype_word(name: Seq<char>) -> bool {
    name == "bool"@ || name == "bytes"@ || name == "date"@ || name == "datetime"@ || name
        == "int"@ || name == "list"@ || name == "map"@ || name == "real"@ || name == "str"@
        || name == "table"@
}

/// Whether `name` is one of the key type names (`bytes`, `date`,
/// `datetime`, `int`, `str`).
pub open spec fn is_ktype_word(name: Seq<char>) -> bool {
    name == "bytes"@ || name == "date"@ || name == "datetime"@ || name == "int"@ || name == "str"@
}

/// Whether `name` is a bool constant (`no` or `yes`).
pub open spec fn is_bool_word(name: Seq<char>) -> bool {
    name == "no"@ || name == "yes"@
}

/// Whether `name` is a reserved word: `null`, a built-in type name, or a
/// bool constant.
pub open spec fn is_reserved_word(name: Seq<char>) -> bool {
    name == "null"@ || is_vtype_word(name) || is_bool_word(name)
}

/// Whether `name` holds exactly the chars of `word`.
pub fn is_word(name: &[char], word: &str) -> (b: bool)
    ensures
        b == (name@ == word@),
{
    let w = chars_of(word);
    if name.len() != w.len() {
        return false;
    }
    let mut i: usize = 0;
    while i < name.len()
        invariant
            i <= name@.len(),
            name@.len() == w@.len(),
            w@ == word@,
            forall|j: int| 0 <= j < i ==> name@[j] == w@[j],
        decreases name@.len() - i,
    {
        if name[i] != w[i] {
            return false;
        }
        i += 1;
    }
    assert(name@ =~= w@);
    true
}

/// Whether `name` is a built-in type name.
pub fn is_vtype_name(name: &[char]) -> (b: bool)
    ensures
        b == is_vtype_word(name@),
{
    is_word(name, "bool") || is_word(name, "bytes") || is_word(name, "date") || is_word(
        name,
        "datetime",
    ) || is_word(name, "int") || is_word(name, "list") || is_word(name, "map") || is_word(
        name,
        "real",
    ) || is_word(name, "str") || is_word(name, "table")
}

/// Whether `name` is a key type name.
pub fn is_ktype_name(name: &[char]) -> (b: bool)
    ensures
        b == is_ktype_word(name@),
{
    is_word(name, "bytes") || is_word(name, "date") || is_word(name, "datetime") || is_word(name, "int")
        || is_word(name, "str")
}

/// Whether `name` is `no` or `yes`.
pub fn is_bool_name(name: &[char]) -> (b: bool)
    ensures
        b == is_bool_word(name@),
{
    is_word(name, "no") || is_word(name, "yes")
}

/// Whether `name` is a reserved word.
pub fn is_reserved_name(name: &[char]) -> (b: bool)
    ensures
        b == is_reserved_word(name@),
{
    is_word(name, "null") || is_vtype_name(name) || is_bool_name(name)
}

} // verus!
