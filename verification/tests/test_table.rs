use uxf::field::make_fields;
use uxf::tclass::TClass;
use uxf::value::{List, Table, UxfMap, Value};

#[test]
fn t_table_scalar() {
    let tclass = TClass::new_fieldless("ReadyState", "enum").unwrap();
    assert_eq!(tclass.to_string(), "=#<enum> ReadyState");
    assert_eq!(tclass.comment().to_string(), "enum");
    assert_eq!(tclass.len(), 0);
    let t = Table::new_fieldless("WaitState", "enum").unwrap();
    assert_eq!(t.tclass().to_string(), "=WaitState");
    assert_eq!(t.to_string(), "(#<enum> WaitState)");
    assert_eq!(t.comment().to_string(), "enum");
    assert_eq!(t.len(), 0);
    let t = Table::new(tclass, "");
    assert_eq!(t.to_string(), "(ReadyState)");
    assert_eq!(t.len(), 0);
    assert_eq!(t.ttype_len(), 0);
    assert!(t.is_empty());
    let v = Value::Table(t);
    assert_eq!(v.to_string(), "(ReadyState)");
    let fields = make_fields(&[("x", "int"), ("y", "int")]).unwrap();
    let tclass = TClass::new("Point", fields, "").unwrap();
    assert_eq!(tclass.to_string(), "=Point x:int y:int");
    let mut t = Table::new(tclass, "");
    assert_eq!(t.to_string(), "(Point)");
    let _ = t.append(vec![0.into(), 0.into()]);
    assert_eq!(t.to_string(), "(Point 0 0)");
    let nulls = t.tclass().record_of_nulls().unwrap();
    let _ = t.append(nulls);
    assert_eq!(t.to_string(), "(Point 0 0\n? ?)");
    *t.get_mut(1).unwrap() = vec![(-11).into(), 14.into()];
    assert_eq!(t.to_string(), "(Point 0 0\n-11 14)");
    let _ = t.append_empty();
    assert_eq!(t.to_string(), "(Point 0 0\n-11 14\n? ?)");
    assert_eq!(t.ttype(), "Point");
    assert!(t.comment().is_empty());
    assert_eq!(t.len(), 3);
    assert_eq!(t.ttype_len(), 2);
    assert!(!t.is_empty());
}

#[test]
fn t_table_nested() {
    // A table of tables, lists, and maps, nested several deep.
    let fields = make_fields(&[("name", "str"), ("items", "")]).unwrap();
    let outer_tclass = TClass::new("Group", fields, "").unwrap();
    let fields = make_fields(&[("x", "int"), ("y", "int")]).unwrap();
    let point_tclass = TClass::new("Point", fields, "").unwrap();
    let mut points = Table::new(point_tclass, "");
    assert!(points.append(vec![1.into(), 2.into()]).is_ok());
    assert!(points.append(vec![(-3).into(), 4.into()]).is_ok());
    let mut inner_map = UxfMap::new("int", "", "").unwrap();
    inner_map.insert(7.into(), points.into());
    let mut lst = List::default();
    lst.push(inner_map.into());
    lst.push(Value::Null);
    let mut groups = Table::new(outer_tclass, "");
    assert!(groups.append(vec![Value::Str("first".to_string()), lst.into()]).is_ok());
    assert!(groups.append(vec![Value::Str("second".to_string()), List::default().into()]).is_ok());
    assert_eq!(
        groups.to_string(),
        "(Group <first> [{int 7 (Point 1 2\n-3 4)}\n?]\n<second> [])"
    );
    assert_eq!(groups.len(), 2);
    let first = groups.get(0).unwrap();
    let items = first[1].as_list().unwrap();
    let m = items.get(0).unwrap().as_map().unwrap();
    let t = m.get(&7.into()).unwrap().as_table().unwrap();
    assert_eq!(t.len(), 2);
    assert_eq!(t.get(1).unwrap()[0].as_int().unwrap(), -3);
}

#[test]
fn t_table_err() {
    // Adding to a fieldless table gives an error.
    let mut t = Table::new_fieldless("Ready", "").unwrap();
    let err = t.append_empty().unwrap_err();
    assert_eq!(err.code, 732);
    let err = t.append(vec![Value::Null]).unwrap_err();
    assert_eq!(err.code, 732);
    let err = t.append(vec![]).unwrap_err();
    assert_eq!(err.code, 732);
    assert_eq!(t.len(), 0);
    // Adding a record of the wrong size gives an error.
    let fields = make_fields(&[("x", "int"), ("y", "int")]).unwrap();
    let mut t = Table::new(TClass::new("Point", fields, "").unwrap(), "");
    let err = t.append(vec![1.into()]).unwrap_err();
    assert_eq!(
        err.to_string(),
        "E736:-:0:rows for table of ttype Point must have exactly 2 values, got 1"
    );
    let err = t.append(vec![1.into(), 2.into(), 3.into()]).unwrap_err();
    assert_eq!(
        err.to_string(),
        "E736:-:0:rows for table of ttype Point must have exactly 2 values, got 3"
    );
    assert_eq!(t.len(), 0);
    assert_eq!(t.to_string(), "(Point)");
}
