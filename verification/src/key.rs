//! Map keys: a UXF map key is a bytes, date, datetime, int, or str value.
//! Keys are ordered bytes < date < datetime < int < str; keys of the same
//! type are ordered by value, except that strs compare case-insensitively
//! first.
use crate::datetime::{date_lt, datetime_lt, Date, DateTime};
use crate::text::{to_lowercase, unicode_lowercase};
use vstd::prelude::*;

verus! {

/// A map key.
#[derive(Clone, Debug)]
pub enum Key {
    Bytes(Vec<u8>),
    Date(Date),
    DateTime(DateTime),
    Int(i64),
    Str(String),
}

/// What a key is.
pub enum KeyModel {
    Bytes(Seq<u8>),
    Date(Date),
    DateTime(DateTime),
    Int(i64),
    Str(Seq<char>),
}

impl View for Key {
    type V = KeyModel;

    open spec fn view(&self) -> KeyModel {
        match self {
            Key::Bytes(b) => KeyModel::Bytes(b@),
            Key::Date(d) => KeyModel::Date(*d),
            Key::DateTime(d) => KeyModel::DateTime(*d),
            Key::Int(i) => KeyModel::Int(*i),
            Key::Str(s) => KeyModel::Str(s@),
        }
    }
}

/// Lexicographic order of byte strings.
pub open spec fn bytes_lt(a: Seq<u8>, b: Seq<u8>) -> bool
    decreases a.len(),
{
    if a.len() == 0 {
        b.len() > 0
    } else if b.len() == 0 {
        false
    } else if a[0] != b[0] {
        a[0] < b[0]
    } else {
        bytes_lt(a.skip(1), b.skip(1))
    }
}

/// Lexicographic order of texts by char value (the order of `str`).
pub open spec fn chars_lt(a: Seq<char>, b: Seq<char>) -> bool
    decreases a.len(),
{
    if a.len() == 0 {
        b.len() > 0
    } else if b.len() == 0 {
        false
    } else if a[0] != b[0] {
        a[0] < b[0]
    } else {
        chars_lt(a.skip(1), b.skip(1))
    }
}

/// The order of str keys: case-insensitively (by lowercase text), and
/// texts that are equal when lowercased by their own chars.
pub open spec fn str_key_lt(a: Seq<char>, b: Seq<char>) -> bool {
    chars_lt(unicode_lowercase(a), unicode_lowercase(b)) || (unicode_lowercase(a)
        == unicode_lowercase(b) && chars_lt(a, b))
}

/// The rank of a key's type: bytes < date < datetime < int < str.
pub open spec fn key_rank(k: KeyModel) -> int {
    match k {
        KeyModel::Bytes(_) => 0,
        KeyModel::Date(_) => 1,
        KeyModel::DateTime(_) => 2,
        KeyModel::Int(_) => 3,
        KeyModel::Str(_) => 4,
    }
}

/// Whether key `a` comes before key `b`.
pub open spec fn key_lt(a: KeyModel, b: KeyModel) -> bool {
    if key_rank(a) != key_rank(b) {
        key_rank(a) < key_rank(b)
    } else {
        match (a, b) {
            (KeyModel::Bytes(x), KeyModel::Bytes(y)) => bytes_lt(x, y),
            (KeyModel::Date(x), KeyModel::Date(y)) => date_lt(x, y),
            (KeyModel::DateTime(x), KeyModel::DateTime(y)) => datetime_lt(x, y),
            (KeyModel::Int(x), KeyModel::Int(y)) => x < y,
            (KeyModel::Str(x), KeyModel::Str(y)) => str_key_lt(x, y),
            _ => false,
        }
    }
}

fn bytes_less(a: &[u8], b: &[u8]) -> (r: bool)
    ensures
        r == bytes_lt(a@, b@),
{
    let mut i: usize = 0;
    assert(a@.skip(0) =~= a@);
    assert(b@.skip(0) =~= b@);
    while i < a.len() && i < b.len()
        invariant
            i <= a@.len(),
            i <= b@.len(),
            bytes_lt(a@, b@) == bytes_lt(a@.skip(i as int), b@.skip(i as int)),
        decreases a@.len() - i,
    {
        if a[i] != b[i] {
            return a[i] < b[i];
        }
        assert(a@.skip(i as int).skip(1) =~= a@.skip(i + 1));
        assert(b@.skip(i as int).skip(1) =~= b@.skip(i + 1));
        i += 1;
    }
    i < b.len()
}

/// Whether the text `a` comes before the text `b`, char by char.
pub fn chars_less(a: &[char], b: &[char]) -> (r: bool)
    ensures
        r == chars_lt(a@, b@),
{
    let mut i: usize = 0;
    assert(a@.skip(0) =~= a@);
    assert(b@.skip(0) =~= b@);
    while i < a.len() && i < b.len()
        invariant
            i <= a@.len(),
            i <= b@.len(),
            chars_lt(a@, b@) == chars_lt(a@.skip(i as int), b@.skip(i as int)),
        decreases a@.len() - i,
    {
        if a[i] != b[i] {
            return a[i] < b[i];
        }
        assert(a@.skip(i as int).skip(1) =~= a@.skip(i + 1));
        assert(b@.skip(i as int).skip(1) =~= b@.skip(i + 1));
        i += 1;
    }
    i < b.len()
}

/// Whether two texts are equal.
pub fn chars_equal(a: &[char], b: &[char]) -> (r: bool)
    ensures
        r == (a@ == b@),
{
    if a.len() != b.len() {
        return false;
    }
    let mut i: usize = 0;
    while i < a.len()
        invariant
            i <= a@.len(),
            a@.len() == b@.len(),
            forall|k: int| 0 <= k < i ==> a@[k] == b@[k],
        decreases a@.len() - i,
    {
        if a[i] != b[i] {
            return false;
        }
        i += 1;
    }
    assert(a@ =~= b@);
    true
}

fn str_key_less(a: &str, b: &str) -> (r: bool)
    ensures
        r == str_key_lt(a@, b@),
{
    let la = crate::text::chars_of(to_lowercase(a).as_str());
    let lb = crate::text::chars_of(to_lowercase(b).as_str());
    if chars_less(la.as_slice(), lb.as_slice()) {
        true
    } else if chars_equal(la.as_slice(), lb.as_slice()) {
        let ca = crate::text::chars_of(a);
        let cb = crate::text::chars_of(b);
        chars_less(ca.as_slice(), cb.as_slice())
    } else {
        false
    }
}

impl Key {
    /// The rank of this key's type.
    pub fn rank(&self) -> (r: u8)
        ensures
            r as int == key_rank(self@),
    {
        match self {
            Key::Bytes(_) => 0,
            Key::Date(_) => 1,
            Key::DateTime(_) => 2,
            Key::Int(_) => 3,
            Key::Str(_) => 4,
        }
    }

    /// Whether this key comes before `other` in map key order.
    pub fn less_than(&self, other: &Key) -> (r: bool)
        ensures
            r == key_lt(self@, other@),
    {
        let (ra, rb) = (self.rank(), other.rank());
        if ra != rb {
            return ra < rb;
        }
        match (self, other) {
            (Key::Bytes(x), Key::Bytes(y)) => bytes_less(x.as_slice(), y.as_slice()),
            (Key::Date(x), Key::Date(y)) => x.is_before(y),
            (Key::DateTime(x), Key::DateTime(y)) => x.is_before(y),
            (Key::Int(x), Key::Int(y)) => *x < *y,
            (Key::Str(x), Key::Str(y)) => str_key_less(x.as_str(), y.as_str()),
            _ => false,
        }
    }

    /// Whether this key and `other` are the same key.
    pub fn same_as(&self, other: &Key) -> (r: bool)
        ensures
            r == (self@ == other@),
    {
        match (self, other) {
            (Key::Bytes(x), Key::Bytes(y)) => {
                let r = x.as_slice().len() == y.as_slice().len() && !bytes_less(x.as_slice(), y.as_slice())
                    && !bytes_less(y.as_slice(), x.as_slice());
                proof {
                    if x@ == y@ {
                        lemma_bytes_lt_irreflexive(x@);
                    } else if x@.len() == y@.len() {
                        lemma_bytes_lt_total(x@, y@);
                    }
                }
                r
            },
            (Key::Date(x), Key::Date(y)) => *x == *y,
            (Key::DateTime(x), Key::DateTime(y)) => *x == *y,
            (Key::Int(x), Key::Int(y)) => *x == *y,
            (Key::Str(x), Key::Str(y)) => x.eq(y),
            _ => false,
        }
    }

    /// Returns `true` if `Key::Bytes`; otherwise returns `false`.
    pub fn is_bytes(&self) -> (b: bool)
        ensures
            b == (self is Bytes),
    {
        matches!(self, Key::Bytes(_))
    }

    /// Returns `true` if `Key::Date`; otherwise returns `false`.
    pub fn is_date(&self) -> (b: bool)
        ensures
            b == (self is Date),
    {
        matches!(self, Key::Date(_))
    }

    /// Returns `true` if `Key::DateTime`; otherwise returns `false`.
    pub fn is_datetime(&self) -> (b: bool)
        ensures
            b == (self is DateTime),
    {
        matches!(self, Key::DateTime(_))
    }

    /// Returns `true` if `Key::Int`; otherwise returns `false`.
    pub fn is_int(&self) -> (b: bool)
        ensures
            b == (self is Int),
    {
        matches!(self, Key::Int(_))
    }

    /// Returns `true` if `Key::Str`; otherwise returns `false`.
    pub fn is_str(&self) -> (b: bool)
        ensures
            b == (self is Str),
    {
        matches!(self, Key::Str(_))
    }

    /// Returns `Some(&Vec<u8>)` if `Key::Bytes`; otherwise returns `None`.
    pub fn as_bytes(&self) -> (r: Option<&Vec<u8>>)
        ensures
            match self {
                Key::Bytes(b) => r == Some(b),
                _ => r is None,
            },
    {
        if let Key::Bytes(value) = self {
            Some(value)
        } else {
            None
        }
    }

    /// Returns `Some(Date)` if `Key::Date`; otherwise returns `None`.
    pub fn as_date(&self) -> (r: Option<Date>)
        ensures
            match self {
                Key::Date(d) => r == Some(*d),
                _ => r is None,
            },
    {
        if let Key::Date(value) = self {
            Some(*value)
        } else {
            None
        }
    }

    /// Returns `Some(DateTime)` if `Key::DateTime`; otherwise returns
    /// `None`.
    pub fn as_datetime(&self) -> (r: Option<DateTime>)
        ensures
            match self {
                Key::DateTime(d) => r == Some(*d),
                _ => r is None,
            },
    {
        if let Key::DateTime(value) = self {
            Some(*value)
        } else {
            None
        }
    }

    /// Returns `Some(i64)` if `Key::Int`; otherwise returns `None`.
    pub fn as_int(&self) -> (r: Option<i64>)
        ensures
            match self {
                Key::Int(i) => r == Some(*i),
                _ => r is None,
            },
    {
        if let Key::Int(value) = self {
            Some(*value)
        } else {
            None
        }
    }

    /// Returns `Some(&str)` if `Key::Str`; otherwise returns `None`.
    pub fn as_str(&self) -> (r: Option<&str>)
        ensures
            match self {
                Key::Str(s) => r matches Some(t) && t@ == s@,
                _ => r is None,
            },
    {
        if let Key::Str(value) = self {
            Some(value.as_str())
        } else {
            None
        }
    }

    /// A copy of this key.
    pub fn clone_key(&self) -> (r: Key)
        ensures
            r@ == self@,
    {
        match self {
            Key::Bytes(b) => Key::Bytes(b.clone()),
            Key::Date(d) => Key::Date(*d),
            Key::DateTime(d) => Key::DateTime(*d),
            Key::Int(i) => Key::Int(*i),
            Key::Str(s) => Key::Str(s.clone()),
        }
    }
}

proof fn lemma_bytes_lt_irreflexive(a: Seq<u8>)
    ensures
        !bytes_lt(a, a),
    decreases a.len(),
{
    if a.len() > 0 {
        lemma_bytes_lt_irreflexive(a.skip(1));
    }
}

proof fn lemma_bytes_lt_total(a: Seq<u8>, b: Seq<u8>)
    requires
        a != b,
    ensures
        bytes_lt(a, b) || bytes_lt(b, a),
    decreases a.len(),
{
    if a.len() > 0 && b.len() > 0 && a[0] == b[0] {
        if a.skip(1) == b.skip(1) {
            assert(a =~= seq![a[0]] + a.skip(1));
            assert(b =~= seq![b[0]] + b.skip(1));
        }
        lemma_bytes_lt_total(a.skip(1), b.skip(1));
    } else if a.len() == 0 && b.len() == 0 {
        assert(a =~= b);
    }
}

proof fn lemma_bytes_lt_transitive(a: Seq<u8>, b: Seq<u8>, c: Seq<u8>)
    requires
        bytes_lt(a, b),
        bytes_lt(b, c),
    ensures
        bytes_lt(a, c),
    decreases a.len(),
{
    if a.len() > 0 && b.len() > 0 && c.len() > 0 && a[0] == b[0] && b[0] == c[0] {
        lemma_bytes_lt_transitive(a.skip(1), b.skip(1), c.skip(1));
    }
}

pub proof fn lemma_chars_lt_irreflexive(a: Seq<char>)
    ensures
        !chars_lt(a, a),
    decreases a.len(),
{
    if a.len() > 0 {
        lemma_chars_lt_irreflexive(a.skip(1));
    }
}

pub(crate) proof fn lemma_chars_lt_total(a: Seq<char>, b: Seq<char>)
    requires
        a != b,
    ensures
        chars_lt(a, b) || chars_lt(b, a),
    decreases a.len(),
{
    if a.len() > 0 && b.len() > 0 && a[0] == b[0] {
        if a.skip(1) == b.skip(1) {
            assert(a =~= seq![a[0]] + a.skip(1));
            assert(b =~= seq![b[0]] + b.skip(1));
        }
        lemma_chars_lt_total(a.skip(1), b.skip(1));
    } else if a.len() == 0 && b.len() == 0 {
        assert(a =~= b);
    }
}

pub(crate) proof fn lemma_chars_lt_transitive(a: Seq<char>, b: Seq<char>, c: Seq<char>)
    requires
        chars_lt(a, b),
        chars_lt(b, c),
    ensures
        chars_lt(a, c),
    decreases a.len(),
{
    if a.len() > 0 && b.len() > 0 && c.len() > 0 && a[0] == b[0] && b[0] == c[0] {
        lemma_chars_lt_transitive(a.skip(1), b.skip(1), c.skip(1));
    }
}

/// No key comes before itself.
pub proof fn lemma_key_lt_irreflexive(a: KeyModel)
    ensures
        !key_lt(a, a),
{
    match a {
        KeyModel::Bytes(x) => lemma_bytes_lt_irreflexive(x),
        KeyModel::Str(x) => {
            lemma_chars_lt_irreflexive(x);
            lemma_chars_lt_irreflexive(unicode_lowercase(x));
        },
        _ => {},
    }
}

/// Key order is transitive.
pub proof fn lemma_key_lt_transitive(a: KeyModel, b: KeyModel, c: KeyModel)
    requires
        key_lt(a, b),
        key_lt(b, c),
    ensures
        key_lt(a, c),
{
    if key_rank(a) == key_rank(b) && key_rank(b) == key_rank(c) {
        match (a, b, c) {
            (KeyModel::Bytes(x), KeyModel::Bytes(y), KeyModel::Bytes(z)) => lemma_bytes_lt_transitive(x, y, z),
            (KeyModel::Str(x), KeyModel::Str(y), KeyModel::Str(z)) => {
                let (lx, ly, lz) = (unicode_lowercase(x), unicode_lowercase(y), unicode_lowercase(z));
                if chars_lt(lx, ly) && chars_lt(ly, lz) {
                    lemma_chars_lt_transitive(lx, ly, lz);
                } else if lx == ly && chars_lt(x, y) && lx == lz {
                    lemma_chars_lt_transitive(x, y, z);
                }
            },
            _ => {},
        }
    }
}

/// Of two different keys, one comes before the other.
pub proof fn lemma_key_lt_total(a: KeyModel, b: KeyModel)
    requires
        a != b,
    ensures
        key_lt(a, b) || key_lt(b, a),
{
    if key_rank(a) == key_rank(b) {
        match (a, b) {
            (KeyModel::Bytes(x), KeyModel::Bytes(y)) => lemma_bytes_lt_total(x, y),
            (KeyModel::Str(x), KeyModel::Str(y)) => {
                if unicode_lowercase(x) != unicode_lowercase(y) {
                    lemma_chars_lt_total(unicode_lowercase(x), unicode_lowercase(y));
                } else {
                    lemma_chars_lt_total(x, y);
                }
            },
            _ => {},
        }
    }
}

impl From<i64> for Key {
    fn from(i: i64) -> (k: Key) {
        Key::Int(i)
    }
}

impl vstd::std_specs::convert::FromSpecImpl<i64> for Key {
    open spec fn obeys_from_spec() -> bool {
        true
    }

    open spec fn from_spec(i: i64) -> Key {
        Key::Int(i)
    }
}

impl From<Vec<u8>> for Key {
    fn from(b: Vec<u8>) -> (k: Key) {
        Key::Bytes(b)
    }
}

impl vstd::std_specs::convert::FromSpecImpl<Vec<u8>> for Key {
    open spec fn obeys_from_spec() -> bool {
        true
    }

    open spec fn from_spec(b: Vec<u8>) -> Key {
        Key::Bytes(b)
    }
}

impl From<String> for Key {
    fn from(s: String) -> (k: Key) {
        Key::Str(s)
    }
}

impl vstd::std_specs::convert::FromSpecImpl<String> for Key {
    open spec fn obeys_from_spec() -> bool {
        true
    }

    open spec fn from_spec(s: String) -> Key {
        Key::Str(s)
    }
}

impl From<Date> for Key {
    fn from(d: Date) -> (k: Key) {
        Key::Date(d)
    }
}

impl vstd::std_specs::convert::FromSpecImpl<Date> for Key {
    open spec fn obeys_from_spec() -> bool {
        true
    }

    open spec fn from_spec(d: Date) -> Key {
        Key::Date(d)
    }
}

impl From<DateTime> for Key {
    fn from(d: DateTime) -> (k: Key) {
        Key::DateTime(d)
    }
}

impl vstd::std_specs::convert::FromSpecImpl<DateTime> for Key {
    open spec fn obeys_from_spec() -> bool {
        true
    }

    open spec fn from_spec(d: DateTime) -> Key {
        Key::DateTime(d)
    }
}


/// The order of map keys: bytes keys come before date keys, which come
/// before datetime keys, then int keys, then str keys; int keys go by
/// value, and date keys chronologically (year, then month, then day).
pub proof fn law_key_order(a: KeyModel, b: KeyModel)
    ensures
        a is Bytes && !(b is Bytes) ==> key_lt(a, b),
        a is Date && (b is DateTime || b is Int || b is Str) ==> key_lt(a, b),
        a is DateTime && (b is Int || b is Str) ==> key_lt(a, b),
        a is Int && b is Str ==> key_lt(a, b),
        a is Str && !(b is Str) ==> !key_lt(a, b),
        a is Int && b is Int ==> (key_lt(a, b) <==> a->Int_0 < b->Int_0),
        a is Date && b is Date ==> (key_lt(a, b) <==> (a->Date_0.year < b->Date_0.year || (a->Date_0.year
            == b->Date_0.year && a->Date_0.month < b->Date_0.month) || (a->Date_0.year == b->Date_0.year
            && a->Date_0.month == b->Date_0.month && a->Date_0.day < b->Date_0.day))),
{
}
} // verus!
