use uxf::field::Field;

fn field_check_error(err: &str, code: i32, name: &str) {
    match code {
        300 => assert_eq!(
            err,
            format!("E300:-:0:names must start with a letter or underscore, got {name}")
        ),
        302 => assert_eq!(err, format!("E302:-:0:names may not be yes or no got {name}")),
        304 => assert_eq!(
            err,
            format!(
                "E304:-:0:table names (ttypes) and fieldnames cannot be the same as \
                 built-in type names or constants, got {name}"
            )
        ),
        306 => {
            let n = name.len();
            assert_eq!(
                err,
                format!("E306:-:0:names may be at most 32 characters long, got {name} ({n} characters)")
            );
        }
        310 => assert_eq!(
            err,
            format!("E310:-:0:names may only contain letters, digits, or underscores, got {name}")
        ),
        _ => panic!("unexpected error code {code} ({name:?})"),
    }
}

#[test]
fn t_field() {
    for (i, vtype) in [
        "bool", "bytes", "date", "datetime", "int", "list", "map", "real", "str", "table", "MyType",
        "Custom_", "_special", "_99", "a_y_47ĕặæ_",
    ]
    .iter()
    .enumerate()
    {
        let name = format!("{vtype}{}", i + 1);
        let f = Field::new(&name, vtype).unwrap();
        assert_eq!(f.to_string(), format!("{name}:{vtype}"));
        assert_eq!(f.name(), name);
        assert_eq!(&f.vtype().unwrap(), vtype);
        let g = Field::new(&name, vtype).unwrap();
        assert!(f == g);

        let h = Field::new(&name, "").unwrap();
        assert_eq!(h.to_string(), format!("{name}"));
        assert_eq!(h.name(), name);
        assert!(h.vtype().is_none());
        let i = Field::new(&name, "").unwrap();
        assert!(h == i);
        assert!(f != h);
        assert!(g != i);
        let j = f.clone();
        assert!(j == f);
        assert!(j != h);
        let k = h.clone();
        assert!(k == h);
        assert!(k != g);
    }
}

#[test]
fn t_field_lt() {
    let a = Field::new("Alpha", "").unwrap();
    let b = Field::new("bravo", "int").unwrap();
    let c = Field::new("Charlie", "MyType4").unwrap();
    let d = Field::new("Delta", "").unwrap();
    let e = Field::new("ECHO", "").unwrap();
    let f = Field::new("echo", "").unwrap();
    assert!(a < b && b < c && c < d && d < e && e < f);
}

#[test]
fn t_field_new_invalid_name() {
    for (code, name) in [
        (300, "*abc"),
        (300, "1int"),
        (300, "€200"),
        (304, "no"),
        (304, "yes"),
        (304, "null"),
        (304, "bool"),
        (304, "bytes"),
        (304, "date"),
        (304, "datetime"),
        (304, "int"),
        (304, "list"),
        (304, "map"),
        (304, "real"),
        (304, "str"),
        (304, "table"),
        (306, "xxxxxxxxxxxxxxxxxxxxxxxxxxxxxxxxy"),
        (310, "e—"),
        (310, "_almost#1"),
        (310, "f1:"),
    ] {
        let f = Field::new(name, if code == 304 { name } else { "str" });
        assert!(f.is_err(), "expected err of #{} on {}", code, name);
        let e = f.unwrap_err();
        field_check_error(&e.to_string(), code, name);

        let f = Field::new(name, "");
        assert!(f.is_err(), "expected err of #{} on {}", code, name);
        let e = f.unwrap_err();
        field_check_error(&e.to_string(), code, name);
    }
}

#[test]
fn t_field_new_invalid_vtype() {
    for (code, vtype) in [
        (300, "*abc"),
        (300, ".Custom_"),
        (300, "1int"),
        (300, "€200"),
        (302, "no"),
        (302, "yes"),
        (306, "xxxxxxxxxxxxxxxxxxxxxxxxxxxxxxxxy"),
        (310, "My.Type"),
        (310, "_9.9"),
        (310, "_almost#1"),
        (310, "_special."),
        (310, "a_y_47ĕặæ_."),
        (310, "e—"),
        (310, "f1:"),
    ] {
        let f = Field::new("test", vtype);
        assert!(f.is_err(), "expected err of #{} on {}", code, vtype);
        let e = f.unwrap_err();
        field_check_error(&e.to_string(), code, vtype);
    }
}
