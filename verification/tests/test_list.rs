use uxf::value::{List, Value};

fn list_realstr(x: f64) -> String {
    let mut s = x.to_string();
    if !s.contains(&['.', 'e', 'E']) {
        s.push_str(".0");
    }
    s
}

fn list_real(x: f64) -> Value {
    Value::Real(list_realstr(x))
}

fn list_isclose(text: &str, b: f64) -> bool {
    let a: f64 = text.parse().unwrap();
    (a..=(a + f64::EPSILON)).contains(&b)
}

fn list_str(s: &str) -> Value {
    Value::Str(s.to_string())
}

fn list_check_error(err: &str, code: i32, name: &str) {
    match code {
        300 => assert_eq!(
            err,
            format!("E300:-:0:names must start with a letter or underscore, got {name}")
        ),
        306 => {
            let n = name.len();
            assert_eq!(
                err,
                format!("E306:-:0:names may be at most 32 characters long, got {name} ({n} characters)")
            );
        }
        310 => assert_eq!(
            err,
            format!("E310:-:0:names may only contain letters, digits, or underscores, got {name}")
        ),
        _ => panic!("unexpected error code {code} ({name:?})"),
    }
}

fn valid_row() -> Vec<Value> {
    let mut values = Vec::new();
    values.push(Value::Bool(true));
    values.push(Value::Int(-919));
    values.push(Value::Null);
    values.push(list_str("elephant <ears>"));
    values.push(list_real(1.73e-5));
    values
}

#[test]
fn t_list1() {
    let mut lst = List::default();
    assert!(lst.vtype().is_empty());
    assert!(lst.comment().is_empty());
    assert!(lst.is_empty());
    assert_eq!(lst.len(), 0);
    assert_eq!(lst.to_string(), "[]");
    for value in valid_row() {
        lst.push(value);
    }
    assert_eq!(lst.to_string(), "[yes\n-919\n?\n<elephant &lt;ears&gt;>\n0.0000173]");
    lst.push(Value::Null);
    lst.push(false.into());
    lst.push(7831.into());
    lst.push(Value::Null);
    lst.push(list_str("giraffe neck"));
    lst.push(list_real(-2.11e4));
    assert_eq!(
        lst.to_string(),
        "[yes\n-919\n?\n<elephant &lt;ears&gt;>\n0.0000173\n?\nno\n\
            7831\n?\n<giraffe neck>\n-21100.0]"
    );
    assert!(!lst.is_empty());
    assert_eq!(lst.len(), 11);
    assert_eq!(lst.get(0).unwrap().as_bool().unwrap(), true);
    assert_eq!(lst.get(1).unwrap().as_int().unwrap(), -919);
    assert!(lst.get(2).unwrap().is_null());
    assert_eq!(lst.get(3).unwrap().as_str().unwrap(), "elephant <ears>");
    assert!(list_isclose(lst.get(4).unwrap().as_real().unwrap(), 1.73e-5));
    *lst.get_mut(0).unwrap() = 7070.into();
    assert_eq!(lst.get(0).unwrap().as_int().unwrap(), 7070);
    *lst.get_mut(1).unwrap() = false.into();
    assert_eq!(lst.get(1).unwrap().as_bool().unwrap(), false);
    *lst.get_mut(1).unwrap() = Value::Null;
    assert!(lst.get(1).unwrap().is_null());
    assert!(lst.get(2).unwrap().is_null());
    lst.push(Value::Null);
    let i = lst.len() - 1;
    *lst.get_mut(i).unwrap() = list_str("dog & tail");
    assert_eq!(lst.get(i).unwrap().as_str().unwrap(), "dog & tail");
    lst.push(Value::Null);
    let i = lst.len() - 1;
    assert!(lst.get(i).unwrap().is_null());
    *lst.get_mut(i).unwrap() = list_real(-9.4);
    assert!(list_isclose(lst.get(i).unwrap().as_real().unwrap(), -9.4));
    *lst.get_mut(i).unwrap() = 4.into();
    assert_eq!(lst.get(i).unwrap().as_int().unwrap(), 4);
    assert_eq!(
        lst.to_string(),
        "[7070\n?\n?\n<elephant &lt;ears&gt;>\n0.0000173\n?\nno\n\
            7831\n?\n<giraffe neck>\n-21100.0\n<dog &amp; tail>\n4]"
    );
}

#[test]
fn t_list2() {
    let mut lst = List::new("int", "Test of int").unwrap();
    lst.push_many(&[Value::Null, 5.into(), 17.into(), Value::Null]);
    assert_eq!(lst.to_string(), "[#<Test of int> int ?\n5\n17\n?]");
    assert_eq!(lst.len(), 4);
    assert!(!lst.is_empty());
    assert!(lst.get(0).unwrap().is_null());
    assert_eq!(lst.get(2).unwrap().as_int().unwrap(), 17);
    assert_eq!(lst.vtype(), "int");
    assert_eq!(lst.comment(), "Test of int");
    for (i, value) in lst.inner().iter().enumerate() {
        if i == 0 || i == 3 {
            assert!(value.is_null())
        } else if i == 1 {
            assert_eq!(value.as_int().unwrap(), 5);
        } else if i == 2 {
            assert_eq!(value.as_int().unwrap(), 17);
        }
    }
    assert!(lst.get(0).unwrap().is_null());
    assert!(lst.get(3).unwrap().is_null());
    for (i, value) in lst.inner_mut().iter_mut().enumerate() {
        if value.is_null() {
            *value = (100 * (i as i64 + 1)).into();
        }
    }
    assert_eq!(lst.get(0).unwrap().as_int().unwrap(), 100);
    assert_eq!(lst.get(3).unwrap().as_int().unwrap(), 400);
    let v1 = lst.get(1).unwrap().as_int().unwrap();
    *lst.get_mut(1).unwrap() = Value::Int(-11 * v1);
    *lst.get_mut(2).unwrap() = 917.into();
    lst.push(8888.into());
    assert_eq!(lst.len(), 5);
    assert_eq!(lst.to_string(), "[#<Test of int> int 100\n-55\n917\n400\n8888]");
    lst.truncate(3);
    assert_eq!(lst.to_string(), "[#<Test of int> int 100\n-55\n917]");
    assert_eq!(lst.len(), 3);
    lst.clear();
    assert_eq!(lst.len(), 0);
    assert!(lst.is_empty());
    assert_eq!(lst.to_string(), "[#<Test of int> int]");
}

#[test]
fn t_list3() {
    let mut lst = List::new("int", "").unwrap();
    assert_eq!(lst.to_string(), "[int]");
    {
        let values = lst.inner_mut();
        values.push(Value::Null);
        values.push(5.into());
        values.push(17.into());
        values.push(Value::Null);
        assert_eq!(values.len(), 4);
        assert!(!values.is_empty());
        assert!(values[0].is_null());
        assert!(values.get(0).unwrap().is_null());
        assert_eq!(values[2].as_int().unwrap(), 17);
        assert_eq!(values.get(2).unwrap().as_int().unwrap(), 17);
        for (i, value) in values.iter().enumerate() {
            if i == 0 || i == 3 {
                assert!(value.is_null())
            } else if i == 1 {
                assert_eq!(value.as_int().unwrap(), 5);
            } else if i == 2 {
                assert_eq!(value.as_int().unwrap(), 17);
            }
        }
        assert!(values[0].is_null());
        assert!(values[3].is_null());
        for (i, value) in values.iter_mut().enumerate() {
            if value.is_null() {
                *value = (100 * (i as i64 + 1)).into();
            }
        }
        assert_eq!(values[0].as_int().unwrap(), 100);
        assert_eq!(values[3].as_int().unwrap(), 400);
        values[1] = (-11 * values[1].as_int().unwrap()).into();
        values[2] = 917.into();
        values.push(8888.into());
        assert_eq!(values.len(), 5);
    }
    assert_eq!(lst.to_string(), "[int 100\n-55\n917\n400\n8888]");
    assert_eq!(lst.len(), 5);
    for (index, value) in [(0, 100), (1, -55), (2, 917), (3, 400), (4, 8888)] {
        assert_eq!(lst.get(index).unwrap().as_int().unwrap(), value);
    }
    {
        let values = lst.inner_mut();
        values.truncate(3);
        assert_eq!(values.len(), 3);
        values.clear();
        assert_eq!(values.len(), 0);
        assert!(values.is_empty());
    }
    assert_eq!(lst.len(), 0);
    assert!(lst.is_empty());
    assert_eq!(lst.to_string(), "[int]");
}

#[test]
fn t_list_comment() {
    let mut lst = List::new("", "A <comment> &tc.").unwrap();
    assert_eq!(lst.to_string(), "[#<A &lt;comment&gt; &amp;tc.>]");
    lst.push(Value::Null);
    assert_eq!(lst.to_string(), "[#<A &lt;comment&gt; &amp;tc.> ?]");
    lst.push(Value::Null);
    assert_eq!(lst.to_string(), "[#<A &lt;comment&gt; &amp;tc.> ?\n?]");
}

#[test]
fn t_list_nested() {
    let mut lst = List::default();
    assert_eq!(lst.to_string(), "[]");
    assert_eq!(lst.len(), 0);
    assert!(lst.is_empty());
    assert!(lst.vtype().is_empty());
    assert!(lst.comment().is_empty());
    lst.push_many(&[Value::Null, Value::Null, Value::Null]);
    assert_eq!(lst.to_string(), "[?\n?\n?]");
    lst.push(List::default().into());
    assert_eq!(lst.to_string(), "[?\n?\n?\n[]]");
    if let Some(sublist) = lst.get(0).unwrap().as_list() {
        assert_eq!(sublist.len(), 0);
        assert!(sublist.is_empty());
    }
    assert_eq!(lst.len(), 4);
    assert!(!lst.is_empty());
    lst.push(998877.into());
    assert_eq!(lst.to_string(), "[?\n?\n?\n[]\n998877]");
    if let Some(sublist) = lst.get_mut(3).unwrap().as_list_mut() {
        sublist.push(list_str("this & that"));
        sublist.push(list_str("is <bold> &tc.!"));
    }
    if let Some(sublist) = lst.get(3).unwrap().as_list() {
        assert_eq!(sublist.len(), 2);
        assert!(!sublist.is_empty());
    }
    assert_eq!(
        lst.to_string(),
        "[?\n?\n?\n[<this &amp; that>\n<is &lt;bold&gt; \
        &amp;tc.!>]\n998877]"
    );
    if let Some(sublist) = lst.get_mut(3).unwrap().as_list_mut() {
        sublist.push(List::new("real", "<Totals>").unwrap().into());
        if let Some(subsublist) = sublist.get_mut(2).unwrap().as_list_mut() {
            subsublist.push_many(&[list_real(7.9), list_real(1e2), list_real(-19.357)]);
        }
    }
    assert_eq!(
        lst.to_string(),
        "[?\n?\n?\n[<this &amp; that>\n<is &lt;bold&gt; &amp;tc.!>\n\
        [#<&lt;Totals&gt;> real 7.9\n100.0\n-19.357]]\n998877]"
    );
}

#[test]
fn t_list_err() {
    assert!(List::new("$1", "").is_err());
    let err = List::new("-x", "").unwrap_err();
    list_check_error(&err.to_string(), 300, "-x");
    let err = List::new(&"y".repeat(33), "").unwrap_err();
    list_check_error(&err.to_string(), 306, "yyyyyyyyyyyyyyyyyyyyyyyyyyyyyyyyy");
    let err = List::new("alpha_b=", "").unwrap_err();
    list_check_error(&err.to_string(), 310, "alpha_b=");
}

#[test]
fn t_list_str() {
    let mut lst = List::new("str", "").unwrap();
    for s in ["one", "two", "<three>", "four & five", "six", "seven"] {
        lst.push(list_str(s));
    }
    assert_eq!(
        lst.to_string(),
        "[str <one>\n<two>\n<&lt;three&gt;>\n\
            <four &amp; five>\n<six>\n<seven>]"
    );
}
