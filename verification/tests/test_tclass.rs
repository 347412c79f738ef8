use uxf::field::{make_fields, Field};
use uxf::tclass::TClass;
use uxf::value::Value;

fn tclass_check_error(err: &str, code: i32, name: &str) {
    match code {
        300 => assert_eq!(
            err,
            format!("E300:-:0:names must start with a letter or underscore, got {name}")
        ),
        302 => assert_eq!(err, format!("E302:-:0:names may not be yes or no got {name}")),
        304 => assert_eq!(
            err,
            format!(
                "E304:-:0:table names (ttypes) and fieldnames cannot be the same as \
                 built-in type names or constants, got {name}"
            )
        ),
        306 => {
            let n = name.len();
            assert_eq!(
                err,
                format!("E306:-:0:names may be at most 32 characters long, got {name} ({n} characters)")
            );
        }
        310 => assert_eq!(
            err,
            format!("E310:-:0:names may only contain letters, digits, or underscores, got {name}")
        ),
        336 => assert_eq!(
            err,
            format!("E336:-:0:can't have duplicate table tclass field names, got {name:?} twice")
        ),
        _ => panic!("unexpected error code {code} ({name:?})"),
    }
}

fn valid_fields() -> Vec<Field> {
    make_fields(&[
        ("CID", "int"),
        ("title", "str"),
        ("selected", "bool"),
        ("when", "date"),
        ("size", "real"),
        ("timestamp", "datetime"),
        ("Kind", ""),
        ("Filename", ""),
        ("Categories", "Categories"),
        ("Extra", "Point"),
    ])
    .unwrap()
}

#[test]
fn t_tclass_new() {
    let f2 = Field::new("selected", "bool").unwrap();
    let f5 = Field::new("timestamp", "datetime").unwrap();
    let f6 = Field::new("Kind", "").unwrap();
    let fields = valid_fields();
    let asize = fields.len();
    let a = TClass::new("AType", fields, "A row type").unwrap();
    assert!(!a.is_fieldless());
    assert_eq!(a.len(), asize);
    assert!(!a.is_empty());
    assert_eq!(a.ttype(), "AType");
    assert_eq!(a.comment(), "A row type");
    assert_eq!(a.fields().len(), asize);
    let fields = a.fields();
    assert!(fields[2] == f2);
    assert!(fields[5] == f5);
    assert!(fields[6] == f6);
    let mut rec = a.record_of_nulls().unwrap();
    assert_eq!(rec.len(), asize);
    rec[0] = Value::Bool(true);
    rec[1] = Value::Int(-17);
    rec[2] = Value::Str("Test data".to_string());
    assert_eq!(rec.len(), asize);
    assert_eq!(rec[0].as_bool().unwrap(), true);
    assert_eq!(rec[1].as_int().unwrap(), -17);
    assert_eq!(rec[2].as_str().unwrap(), "Test data");
    let bsize = 5;
    let b = TClass::new("BType", valid_fields()[..bsize].to_vec(), "").unwrap();
    assert!(!b.is_fieldless());
    assert_eq!(b.len(), bsize);
    assert!(!b.is_empty());
    assert_eq!(b.ttype(), "BType");
    assert_eq!(b.comment(), "");
    assert_eq!(b.fields().len(), bsize);
    assert!(b.fields()[2] == f2);
    let rec = b.record_of_nulls().unwrap();
    assert_eq!(rec.len(), bsize);
}

#[test]
fn t_tclass_new_fieldless() {
    let ready = TClass::new_fieldless("ReadyState", "Ready enum").unwrap();
    assert!(ready.is_fieldless());
    assert_eq!(ready.len(), 0);
    assert!(ready.is_empty());
    assert_eq!(ready.ttype(), "ReadyState");
    assert_eq!(ready.comment(), "Ready enum");
    assert_eq!(ready.fields().len(), 0);
    let wait = TClass::new_fieldless("WaitState", "").unwrap();
    assert!(wait.is_fieldless());
    assert_eq!(wait.len(), 0);
    assert!(wait.is_empty());
    assert_eq!(wait.ttype(), "WaitState");
    assert!(wait.comment().is_empty());
    let row = wait.record_of_nulls();
    assert!(row.is_err());
}

#[test]
fn t_tclass_display() {
    let fields = valid_fields();
    let tclass = TClass::new("General", fields, "first test").unwrap();
    assert_eq!(
        tclass.to_string(),
        "=#<first test> General CID:int title:str selected:bool when:date \
         size:real timestamp:datetime Kind Filename Categories:Categories \
         Extra:Point"
    );
    let tclass = TClass::new_fieldless("StateReady", "enum").unwrap();
    assert_eq!(tclass.to_string(), "=#<enum> StateReady");
}

#[test]
fn t_tclass_eq_lt() {
    let fields = valid_fields();
    let a = TClass::new("Alpha", fields, "").unwrap();
    let fields = valid_fields()[..6].to_vec();
    let b = TClass::new("bravo", fields, "").unwrap();
    let fields = valid_fields()[..3].to_vec();
    let c = TClass::new("Charlie", fields, "").unwrap();
    let d = TClass::new_fieldless("Delta", "").unwrap();
    let e = TClass::new_fieldless("ECHO", "").unwrap();
    let f = TClass::new_fieldless("echo", "").unwrap();
    assert!(a < b && b < c && c < d && d < e && e < f);
    assert!(a != b && b != c && c != d && d != e && e != f);
    let b2 = b.clone();
    let c2 = TClass::new("Charlie", valid_fields()[..3].to_vec(), "").unwrap();
    assert!(b2 != c2 && b == b2 && c == c2);
}

#[test]
fn t_tclass_duplicate_field() {
    let mut fields = valid_fields();
    fields.push(Field::new("size", "").unwrap());
    let e = TClass::new("General", fields, "").unwrap_err();
    tclass_check_error(&e.to_string(), 336, "size");
}

#[test]
fn t_tclass_invalid_ttype() {
    for (code, name) in [
        (300, "*abc"),
        (300, "1int"),
        (300, "€200"),
        (302, "no"),
        (302, "yes"),
        (304, "null"),
        (304, "bool"),
        (304, "bytes"),
        (304, "date"),
        (304, "datetime"),
        (304, "int"),
        (304, "list"),
        (304, "map"),
        (304, "real"),
        (304, "str"),
        (304, "table"),
        (
            306,
            "xxxxxxxxxxxxxxxxxxxxxxxxxxxxxx\
               xxxxxxxxxxxxxxxxxxxxxxxxxxxxxxy",
        ),
        (310, "e—"),
        (310, "_almost#1"),
        (310, "f1:"),
    ] {
        let fields = valid_fields();
        let tclass = TClass::new(name, fields, "");
        assert!(tclass.is_err(), "expected err of #{} on {}", code, name);
        let e = tclass.unwrap_err();
        tclass_check_error(&e.to_string(), code, name);
        let tclass = TClass::new_fieldless(name, "");
        assert!(tclass.is_err(), "expected err of #{} on {}", code, name);
        let e = tclass.unwrap_err();
        tclass_check_error(&e.to_string(), code, name);
    }
}
