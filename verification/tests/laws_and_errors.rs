use uxf::event::EventKind;
use uxf::field::{make_fields, Field};
use uxf::key::Key;
use uxf::token::TokenKind;
use uxf::parser::{import_names, parse, parse_import, parse_options, ParserOptions};
use uxf::tclass::TClass;
use uxf::uxf::{Compare, Uxf};
use uxf::value::{List, Table, UxfMap, Value};
use uxf::visit::Visit;

fn text_value(s: &str) -> Value {
    Value::Str(s.to_string())
}

#[test]
fn law_map_insert_then_get() {
    let mut m = UxfMap::default();
    assert!(m.insert(3.into(), text_value("three")).is_none());
    assert!(m.insert(1.into(), text_value("one")).is_none());
    let old = m.insert(3.into(), text_value("THREE"));
    assert_eq!(old.unwrap().as_str().unwrap(), "three");
    assert_eq!(m.get(&Key::Int(3)).unwrap().as_str().unwrap(), "THREE");
    assert_eq!(m.get(&Key::Int(1)).unwrap().as_str().unwrap(), "one");
    assert!(m.get(&Key::Int(2)).is_none());
    assert_eq!(m.len(), 2);
}

#[test]
fn law_map_remove_then_get() {
    let mut m = UxfMap::default();
    m.insert(Key::Str("b".to_string()), 2.into());
    m.insert(Key::Str("a".to_string()), 1.into());
    assert_eq!(m.remove(&Key::Str("a".to_string())).unwrap().as_int().unwrap(), 1);
    assert!(m.get(&Key::Str("a".to_string())).is_none());
    assert_eq!(m.get(&Key::Str("b".to_string())).unwrap().as_int().unwrap(), 2);
    assert!(m.remove(&Key::Str("a".to_string())).is_none());
    assert_eq!(m.to_string(), "{<b> 2}");
}

#[test]
fn law_value_equality_reflexive_symmetric() {
    let mut lst = List::new("int", "c").unwrap();
    lst.push(1.into());
    lst.push(Value::Null);
    let a: Value = lst.into();
    let b = a.clone_value();
    assert!(a == a);
    assert!(a == b && b == a);
    let c: Value = List::new("int", "").unwrap().into();
    assert!(a != c && c != a);
}

#[test]
fn law_field_and_tclass_order() {
    let a = Field::new("alpha", "").unwrap();
    let b = Field::new("Alpha", "int").unwrap();
    let c = Field::new("beta", "").unwrap();
    assert!(b < a && a < c && b < c);
    assert!(!(a < a));
    let t1 = TClass::new_fieldless("point", "").unwrap();
    let t2 = TClass::new_fieldless("Zone", "").unwrap();
    assert!(t1 < t2 && !(t2 < t1));
}

#[test]
fn law_custom_survives_writing() {
    let uxo = Uxf::new("My <Custom> Format 5.8", "");
    let text = uxo.to_string();
    let back = parse(&text).unwrap().uxf;
    assert_eq!(back.custom(), "My <Custom> Format 5.8");
    let uxo = Uxf::new("", "a comment");
    let back = parse(&uxo.to_string()).unwrap().uxf;
    assert_eq!(back.custom(), "");
    assert_eq!(back.to_string(), "uxf 1\n#<a comment>\n[]\n");
}

#[test]
fn law_comment_survives_writing() {
    let uxo = Uxf::new("x", "a <tricky> & comment\nover lines");
    let back = parse(&uxo.to_string()).unwrap().uxf;
    assert_eq!(back.comment(), "a <tricky> & comment\nover lines");
    let uxo = Uxf::new("", "");
    let back = parse(&uxo.to_string()).unwrap().uxf;
    assert_eq!(back.comment(), "");
    let back = parse("uxf 1\n#<one> &<two>\n[]\n").unwrap().uxf;
    assert_eq!(back.comment(), "onetwo");
}

#[test]
fn law_parsed_tables_have_tclasses() {
    let text = "uxf 1\n=Point x y\n=Unused a\n[(Point 1 2) {1 (Point 3 4)}]\n";
    for options in [ParserOptions::standard(), ParserOptions::drop_unused_ttypes()] {
        let parsed = parse_options(text, "-", options, &Vec::new()).unwrap();
        assert!(parsed.uxf.tclass("Point").is_some());
    }
    let dropped = parse_options(text, "-", ParserOptions::drop_unused_ttypes(), &Vec::new()).unwrap();
    assert!(dropped.uxf.tclass("Unused").is_none());
    let err = parse("uxf 1\n=Point x y\n[(Other 1 2)]\n").unwrap_err();
    assert_eq!(err.code, 450);
}

#[test]
fn law_imports_survive_writing() {
    let text = "uxf 1 x\n#<c>\n!fraction\n!complex\n[]\n";
    let parsed = parse_options(text, "-", ParserOptions::standard(), &Vec::new()).unwrap();
    let written = parsed.uxf.to_string();
    let names = import_names(&written, "-").unwrap();
    assert_eq!(names, vec!["fraction".to_string(), "complex".to_string()]);
    let names = import_names("uxf 1\n[]\n", "-").unwrap();
    assert!(names.is_empty());
}

#[test]
fn definition_redefines_import() {
    let parsed = parse("uxf 1\n!complex\n=Complex x y\n[(Complex 1 2)]\n").unwrap();
    let complex = parsed.uxf.tclass("Complex").unwrap();
    assert_eq!(complex.to_string(), "=Complex x y");
    let written = parsed.uxf.to_string();
    assert!(written.contains("=Complex x y\n"));
    assert!(!written.contains("!complex"));
    let err = parse("uxf 1\n=Point x y\n=Point x y z\n[]\n").unwrap_err();
    assert_eq!(err.code, 528);
}

#[test]
fn visit_walks_in_order() {
    let mut m = UxfMap::default();
    m.insert(2.into(), Value::Null);
    m.insert(1.into(), text_value("x"));
    let mut lst = List::default();
    lst.push(7.into());
    lst.push(m.into());
    let v: Value = lst.into();
    let steps: Vec<Visit> = v.visit().iter().map(|s| s.0).collect();
    assert_eq!(
        steps,
        vec![
            Visit::ListBegin,
            Visit::ListValueBegin,
            Visit::Value,
            Visit::ListValueEnd,
            Visit::ListValueBegin,
            Visit::MapBegin,
            Visit::MapItemBegin,
            Visit::Value,
            Visit::Value,
            Visit::MapItemEnd,
            Visit::MapItemBegin,
            Visit::Value,
            Visit::Value,
            Visit::MapItemEnd,
            Visit::MapEnd,
            Visit::ListValueEnd,
            Visit::ListEnd,
        ]
    );
    let visits = v.visit();
    assert_eq!(visits[2].1.as_int().unwrap(), 7);
    assert_eq!(visits[7].1.as_int().unwrap(), 1);
    assert_eq!(visits[8].1.as_str().unwrap(), "x");
    assert_eq!(visits[11].1.as_int().unwrap(), 2);
    assert!(visits[12].1.is_null());
}

#[test]
fn parse_error_110_no_newline() {
    let err = parse("uxf 1").unwrap_err();
    assert_eq!(err.to_string(), "E110:-:1:missing UXF file header or missing data or empty file");
}

#[test]
fn parse_error_403_missing_collection() {
    let err = parse("uxf 1\n[]]").unwrap_err();
    assert_eq!(err.code, 403);
    assert_eq!(err.lino, 2);
}

#[test]
fn parse_error_446_list_vtype() {
    let err = parse("uxf 1\n[true]").unwrap_err();
    assert_eq!(err.to_string(), "E446:-:2:expected list vtype, got true");
}

#[test]
fn parse_error_458_boolean() {
    let err = parse("uxf 1\n[1 true]").unwrap_err();
    assert_eq!(err.to_string(), "E458:-:2:boolean values are represented by yes or no");
}

#[test]
fn parse_error_506_contained_type() {
    let err = parse("uxf 1\n=Point x y\n{int Point 1 [2]}").unwrap_err();
    assert_eq!(err.to_string(), "E506:-:3:expected Point, got list");
}

#[test]
fn parse_error_590_and_501_top_level_scalar() {
    let err = parse("uxf 1\n<a>").unwrap_err();
    assert_eq!(err.to_string(), "E590:-:2:invalid UXF data");
    let err = parse("uxf 1\n5").unwrap_err();
    assert_eq!(err.to_string(), "E501:-:2:invalid UXF data");
}

#[test]
fn parse_error_488_and_500_mistyped() {
    let err = parse("uxf 1\n[int <x>]").unwrap_err();
    assert_eq!(err.to_string(), "E488:-:2:expected int, got <x>");
    let err = parse("uxf 1\n[int yes]").unwrap_err();
    assert_eq!(err.to_string(), "E500:-:2:expected int, got yes");
}

#[test]
fn parse_repairs_486() {
    let parsed = parse("uxf 1\n[int <5>]").unwrap();
    assert_eq!(parsed.uxf.to_string(), "uxf 1\n[int 5]\n");
    assert_eq!(parsed.events.len(), 1);
    assert_eq!(parsed.events[0].kind, EventKind::Repair);
    assert_eq!(parsed.events[0].code, 486);
    assert_eq!(parsed.events[0].message, "converted str <5> to int 5");
    let parsed = parse("uxf 1\n[real 5]").unwrap();
    assert_eq!(parsed.uxf.to_string(), "uxf 1\n[real 5.0]\n");
    assert_eq!(parsed.events[0].message, "converted int 5 to real 5.0");
    let parsed = parse("uxf 1\n[int 2.5 -2.5 7.49]").unwrap();
    assert_eq!(parsed.uxf.to_string(), "uxf 1\n[int 3\n-3\n7]\n");
    assert_eq!(parsed.events[0].message, "converted real 2.5 to int 3");
}

#[test]
fn parse_error_450_unknown_ttype() {
    let err = parse("uxf 1\n(Point 1 2)").unwrap_err();
    assert_eq!(err.code, 450);
}

#[test]
fn parse_error_560_system_import() {
    let err = parse("uxf 1\n!nothing\n[]").unwrap_err();
    assert_eq!(err.to_string(), "E560:-:2:there is no system ttype import called \"nothing\"");
}

#[test]
fn parse_system_import_numeric() {
    let parsed =
        parse_options("uxf 1\n!numeric\n[(Fraction 1 2)]", "-", ParserOptions::replace_imports(), &Vec::new())
            .unwrap();
    assert_eq!(
        parsed.uxf.to_string(),
        "uxf 1\n=Fraction numerator:int denominator:int\n[(Fraction 1 2)]\n"
    );
}

#[test]
fn law_truncate_undoes_push() {
    let mut lst = List::new("int", "").unwrap();
    lst.push(1.into());
    let before = lst.to_string();
    let n = lst.len();
    lst.push_many(&[2.into(), 3.into()]);
    lst.truncate(n);
    assert_eq!(lst.to_string(), before);
}

#[test]
fn law_remove_undoes_insert() {
    let mut m = UxfMap::default();
    m.insert(1.into(), text_value("one"));
    let before = m.to_string();
    m.insert(5.into(), text_value("five"));
    m.remove(&Key::Int(5));
    assert_eq!(m.to_string(), before);
}

#[test]
fn law_equivalent_reflexive() {
    let uxo = parse("uxf 1\n#<c>\n=P a\n[(P 1)]").unwrap().uxf;
    let same = parse("uxf 1\n#<c>\n=P a\n[(P 1)]").unwrap().uxf;
    assert!(uxo.is_equivalent(&uxo, Compare::exact()));
    assert!(uxo.is_equivalent(&same, Compare::exact()));
    assert!(uxo.is_equivalent(&same, Compare::equivalent()));
    let other = parse("uxf 1\n#<d>\n=P a\n[(P 1)]").unwrap().uxf;
    assert!(!uxo.is_equivalent(&other, Compare::exact()));
    assert!(uxo.is_equivalent(&other, Compare::ignore_comments()));
}

#[test]
fn table_push_many_and_named_fields() {
    let fields = make_fields(&[("x", "int"), ("y", "int")]).unwrap();
    let mut t = Table::new(TClass::new("Point", fields, "").unwrap(), "");
    assert!(t.push_many(&[1.into(), 2.into(), 3.into()]).is_ok());
    assert_eq!(t.to_string(), "(Point 1 2)");
    assert!(t.push_many(&[4.into()]).is_ok());
    assert_eq!(t.to_string(), "(Point 1 2\n3 4)");
    let named = t.last_named().unwrap();
    assert_eq!(named.len(), 2);
    assert_eq!(named[0].0, "x");
    assert_eq!(named[0].1.as_int().unwrap(), 3);
    assert_eq!(named[1].0, "y");
    assert_eq!(named[1].1.as_int().unwrap(), 4);
    assert!(t.get_named(2).is_none());
    *t.get_field_mut(0, "y").unwrap() = 20.into();
    assert_eq!(t.get_field(0, "y").unwrap().as_int().unwrap(), 20);
    assert!(t.get_field_mut(0, "z").is_none());
    assert_eq!(t.first_named().unwrap()[1].1.as_int().unwrap(), 20);
    let mut e = Table::new_fieldless("E", "").unwrap();
    assert_eq!(e.push_many(&[1.into()]).unwrap_err().code, 334);
    assert!(e.push_many(&[]).is_ok());
}

#[test]
fn t_equivalent_ignores_comments_when_asked() {
    let a = Value::List(List::new("", "one").unwrap());
    let b = Value::List(List::new("", "two").unwrap());
    assert!(a.is_equivalent(&b, Compare::equivalent()));
    assert!(a.is_equivalent(&b, Compare::ignore_comments()));
    assert!(!a.is_equivalent(&b, Compare::exact()));
    assert!(!a.is_equivalent(&b, Compare::ignore_imports()));
    let c = Value::List(List::new("int", "one").unwrap());
    assert!(!a.is_equivalent(&c, Compare::equivalent()));
}

#[test]
fn t_datetime_is_a_ktype() {
    assert!(uxf::check::check_ktype("datetime").is_ok());
    assert!(UxfMap::new("datetime", "", "").is_ok());
    let err = uxf::check::check_ktype("real").unwrap_err();
    assert_eq!(err.code, 308);
    assert_eq!(
        err.to_string(),
        "E308:-:0:a ktype must be one of [\"bytes\", \"date\", \"datetime\", \"int\", \"str\"], got real"
    );
}

#[test]
fn t_hex_digits_must_pair() {
    let err = uxf::util::hex_as_bytes("ABC", "-", 0).unwrap_err();
    assert_eq!(err.code, 600);
    assert_eq!(uxf::util::hex_as_bytes("AB C D", "-", 0).unwrap(), vec![0xAB, 0xCD]);
    let err = uxf::util::hex_as_bytes("AG", "f", 3).unwrap_err();
    assert_eq!(err.to_string(), "E600:f:3:invalid hex char: 'G'");
}

#[test]
fn t_name_errors_report_their_place() {
    let err = uxf::check::check_name_x("yes", "f.uxf", 7).unwrap_err();
    assert_eq!(err.code, 304);
    assert_eq!(err.filename, "f.uxf");
    assert_eq!(err.lino, 7);
    let err = uxf::check::check_name_x("9x", "f.uxf", 7).unwrap_err();
    assert_eq!(err.code, 300);
    assert_eq!(err.filename, "-");
    assert_eq!(err.lino, 0);
    let err = uxf::check::check_ttype_x("x y", "f.uxf", 7).unwrap_err();
    assert_eq!(err.code, 310);
    assert_eq!(err.filename, "-");
    let err = uxf::check::check_ttype_x("int", "f.uxf", 7).unwrap_err();
    assert_eq!(err.code, 304);
    assert_eq!(err.lino, 7);
}

#[test]
fn t_make_tclass() {
    let t = uxf::tclass::make_tclass("=Point x:real y:real").unwrap();
    assert_eq!(t.ttype(), "Point");
    assert_eq!(t.len(), 2);
    assert_eq!(t.fields()[0].name(), "x");
    assert_eq!(t.fields()[0].vtype(), Some("real"));
    assert_eq!(t.fields()[1].name(), "y");
    let t = uxf::tclass::make_tclass("Pair first : int  second").unwrap();
    assert_eq!(t.ttype(), "Pair");
    assert_eq!(t.fields()[0].name(), "first");
    assert_eq!(t.fields()[0].vtype(), Some("int"));
    assert_eq!(t.fields()[1].name(), "second");
    assert_eq!(t.fields()[1].vtype(), None);
    let t = uxf::tclass::make_tclass("=Fixed").unwrap();
    assert!(t.is_fieldless());
    let err = uxf::tclass::make_tclass("=").unwrap_err();
    assert_eq!(err.code, 0);
    assert_eq!(err.to_string(), "failed to create a TClass from \"\"");
    let err = uxf::tclass::make_tclass("=Point x x").unwrap_err();
    assert_eq!(err.code, 336);
    let err = uxf::tclass::make_tclass("=Point x:nosuch-type").unwrap_err();
    assert_eq!(err.code, 310);
    let err = uxf::tclass::make_tclass("=int x").unwrap_err();
    assert_eq!(err.code, 304);
}

#[test]
fn t_uxf_visit() {
    let u = parse("uxf 1\n#<c>\n=Pt x:int y\n(Pt 1 2)\n").unwrap().uxf;
    let visits = u.visit();
    let steps: Vec<Visit> = visits.iter().map(|s| s.0).collect();
    assert_eq!(
        steps,
        vec![
            Visit::UxfBegin,
            Visit::Ttype,
            Visit::TableBegin,
            Visit::TableRecordBegin,
            Visit::Value,
            Visit::Value,
            Visit::TableRecordEnd,
            Visit::TableEnd,
            Visit::UxfEnd,
        ]
    );
    assert_eq!(visits[0].1.as_str().unwrap(), "c");
    let tl = visits[1].1.as_list().unwrap();
    assert_eq!(tl.vtype(), "Pt");
    assert_eq!(tl.len(), 2);
    assert_eq!(tl.get(0).unwrap().as_list().unwrap().vtype(), "int");
    assert_eq!(tl.get(0).unwrap().as_list().unwrap().comment(), "x");
    assert_eq!(tl.get(1).unwrap().as_list().unwrap().vtype(), "");
    assert_eq!(visits[4].1.as_int().unwrap(), 1);
}

#[test]
fn t_empty_body_parses() {
    let u = parse("uxf 1\n").unwrap().uxf;
    assert_eq!(u.to_string(), "uxf 1\n[]\n");
    let u = parse("uxf 1 Custom\n \n\t\n").unwrap().uxf;
    assert_eq!(u.custom(), "Custom");
    assert_eq!(u.value().as_list().unwrap().len(), 0);
    assert_eq!(import_names("uxf 1\n\n", "-").unwrap().len(), 0);
}

#[test]
fn t_bad_file_comment() {
    let err = parse("uxf 1\n#comment\n").unwrap_err();
    assert_eq!(err.code, 160);
    assert_eq!(err.message, "invalid comment syntax: expected '<', got 'c'");
    let err = import_names("uxf 1\n  #x", "f.uxf").unwrap_err();
    assert_eq!(err.code, 160);
    assert_eq!(err.filename, "f.uxf");
}

#[test]
fn t_empty_import_file() {
    let ts = parse_import("uxf 1\n", "lib.uxf", &Vec::new()).unwrap();
    assert!(ts.is_empty());
}

#[test]
fn t_naturalize_special_reals() {
    for s in ["inf", "-inf", "+Infinity", "NaN", "nan"] {
        match Value::Str(s.to_string()).naturalize() {
            Value::Real(t) => assert_eq!(t, s),
            _ => panic!("expected a real for {s}"),
        }
    }
    match Value::Str("2.5".to_string()).naturalize() {
        Value::Real(t) => assert_eq!(t, "2.5"),
        _ => panic!("expected a real"),
    }
    match Value::Str("nanx".to_string()).naturalize() {
        Value::Str(t) => assert_eq!(t, "nanx"),
        _ => panic!("expected a str"),
    }
}

#[test]
fn t_comment_only_body_parses() {
    let u = parse("uxf 1\n#<hello &amp; bye>\n\n").unwrap().uxf;
    assert_eq!(u.comment(), "hello & bye");
    assert_eq!(u.value().as_list().unwrap().len(), 0);
    assert_eq!(u.to_string(), "uxf 1\n#<hello &amp; bye>\n[]\n");
}

#[test]
fn t_int_list_body_parses() {
    let u = parse("uxf 1\n[1 2 3]\n").unwrap().uxf;
    let l = u.value().as_list().unwrap();
    assert_eq!(l.len(), 3);
    assert_eq!(l.get(0).unwrap().as_int().unwrap(), 1);
    assert_eq!(l.get(2).unwrap().as_int().unwrap(), 3);
    assert_eq!(u.to_string(), "uxf 1\n[1\n2\n3]\n");
    let u = parse("uxf 1\n  [ 10\n20 ]  \n\n").unwrap().uxf;
    assert_eq!(u.value().as_list().unwrap().len(), 2);
    assert_eq!(u.value().as_list().unwrap().get(1).unwrap().as_int().unwrap(), 20);
    let u = parse("uxf 1\n[]").unwrap().uxf;
    assert_eq!(u.value().as_list().unwrap().len(), 0);
}

#[test]
fn law_int_list_survives_writing_example() {
    let mut u = Uxf::new("Counts", "");
    let mut l = List::default();
    l.push(0.into());
    l.push(42.into());
    l.push(9223372036854775807i64.into());
    l.push((-17i64).into());
    l.push(i64::MIN.into());
    u.set_value(l.into()).unwrap();
    let text = u.to_string();
    let back = parse(&text).unwrap();
    assert_eq!(back.uxf.custom(), "Counts");
    assert!(back.events.is_empty());
    let bl = back.uxf.value().as_list().unwrap();
    assert_eq!(bl.len(), 5);
    assert_eq!(bl.get(3).unwrap().as_int().unwrap(), -17);
    assert_eq!(bl.get(4).unwrap().as_int().unwrap(), i64::MIN);
    assert_eq!(bl.get(1).unwrap().as_int().unwrap(), 42);
    assert_eq!(bl.get(2).unwrap().as_int().unwrap(), i64::MAX);
    assert!(back.uxf.is_equivalent(&u, Compare::exact()));
}

#[test]
fn t_tokenize_plain_data() {
    let l = uxf::lexer::tokenize("uxf 1\n{1 [2 -3]?}\n", "-").unwrap();
    let kinds: Vec<TokenKind> = l.tokens.iter().map(|t| t.kind).collect();
    assert_eq!(
        kinds,
        vec![
            TokenKind::MapBegin,
            TokenKind::Int,
            TokenKind::ListBegin,
            TokenKind::Int,
            TokenKind::Int,
            TokenKind::ListEnd,
            TokenKind::Null,
            TokenKind::MapEnd,
            TokenKind::Eof,
        ]
    );
    assert_eq!(l.tokens[4].value.as_int().unwrap(), -3);
}

#[test]
fn t_nested_lists_parse() {
    let p = parse("uxf 1\n[[1 2] [] [? -3 [4]]]\n").unwrap();
    assert!(p.events.is_empty());
    let l = p.uxf.value().as_list().unwrap();
    assert_eq!(l.len(), 3);
    let a = l.get(0).unwrap().as_list().unwrap();
    assert_eq!(a.get(1).unwrap().as_int().unwrap(), 2);
    assert_eq!(l.get(1).unwrap().as_list().unwrap().len(), 0);
    let c = l.get(2).unwrap().as_list().unwrap();
    assert!(c.get(0).unwrap().is_null());
    assert_eq!(c.get(1).unwrap().as_int().unwrap(), -3);
    assert_eq!(c.get(2).unwrap().as_list().unwrap().get(0).unwrap().as_int().unwrap(), 4);
}

#[test]
fn t_nested_lists_written_read_back() {
    let text = "uxf 1\n[[1 2] [] [? -3 [4]]]\n";
    let p = parse(text).unwrap();
    let written = p.uxf.to_string();
    let q = parse(&written).unwrap();
    assert_eq!(q.uxf.to_string(), written);
    assert!(q.uxf.value() == p.uxf.value());
}

#[test]
fn t_nested_lists_with_strs() {
    let text = "uxf 1\n[<one> [<a&amp;b> ? 7] <&lt;x&gt;>]\n";
    let p = parse(text).unwrap();
    let l = p.uxf.value().as_list().unwrap();
    assert_eq!(l.len(), 3);
    assert_eq!(l.get(0).unwrap().as_str().unwrap(), "one");
    let inner = l.get(1).unwrap().as_list().unwrap();
    assert_eq!(inner.get(0).unwrap().as_str().unwrap(), "a&b");
    assert!(inner.get(1).unwrap().is_null());
    assert_eq!(inner.get(2).unwrap().as_int().unwrap(), 7);
    assert_eq!(l.get(2).unwrap().as_str().unwrap(), "<x>");
    let written = p.uxf.to_string();
    let q = parse(&written).unwrap();
    assert!(q.uxf.value() == p.uxf.value());
    assert_eq!(q.uxf.to_string(), written);
}

#[test]
fn t_plain_maps_parse() {
    let text = "uxf 1\n[{1 <one> <b> [2 ?] 1 <uno> -4 {}} {}]\n";
    let p = parse(text).unwrap();
    assert!(p.events.is_empty());
    let l = p.uxf.value().as_list().unwrap();
    assert_eq!(l.len(), 2);
    let m = l.get(0).unwrap().as_map().unwrap();
    assert_eq!(m.len(), 3);
    assert_eq!(m.get(&Key::Int(1)).unwrap().as_str().unwrap(), "uno");
    assert_eq!(m.get(&Key::Int(-4)).unwrap().as_map().unwrap().len(), 0);
    let b = m.get(&Key::Str("b".to_string())).unwrap().as_list().unwrap();
    assert_eq!(b.get(0).unwrap().as_int().unwrap(), 2);
    assert!(b.get(1).unwrap().is_null());
    assert!(l.get(1).unwrap().as_map().unwrap().is_empty());
    let top = parse("uxf 1\n{<k> 5}\n").unwrap();
    let tm = top.uxf.value().as_map().unwrap();
    assert_eq!(tm.get(&Key::Str("k".to_string())).unwrap().as_int().unwrap(), 5);
    let err = parse("uxf 1\n{[1] 2}\n").unwrap_err();
    assert_eq!(err.code, 600);
}

#[test]
fn t_plain_maps_written_read_back() {
    let text = "uxf 1 custom\n{<z> [1 {2 <two>}] -3 ? <a> <x&gt;y>}\n";
    let p = parse(text).unwrap();
    let written = p.uxf.to_string();
    let q = parse(&written).unwrap();
    assert!(q.uxf.value() == p.uxf.value());
    assert_eq!(q.uxf.to_string(), written);
    let m = q.uxf.value().as_map().unwrap();
    assert_eq!(m.len(), 3);
    assert_eq!(m.get(&Key::Str("a".to_string())).unwrap().as_str().unwrap(), "x>y");
    assert!(m.get(&Key::Int(-3)).unwrap().is_null());
}

#[test]
fn t_import_names_before_plain_data() {
    let names = import_names("uxf 1\n!a.uxf\n  ! b \n[1 {2 <x>}]\n", "-").unwrap();
    assert_eq!(names, vec!["a.uxf".to_string(), "b".to_string()]);
    let ts = parse_import("uxf 1\n[1 {2 <x>}]\n", "lib.uxf", &Vec::new()).unwrap();
    assert!(ts.is_empty());
}

#[test]
fn t_compare_default_is_exact() {
    assert_eq!(Compare::default(), Compare::exact());
    assert_eq!(Compare::default().bits, 0);
}

#[test]
fn t_commented_plain_data_written_read_back() {
    let text = "uxf 1\n#<about &amp; more>\n{<k> [1 <v>] 2 ?}\n";
    let p = parse(text).unwrap();
    assert_eq!(p.uxf.comment(), "about & more");
    let m = p.uxf.value().as_map().unwrap();
    assert_eq!(m.len(), 2);
    let written = p.uxf.to_string();
    let q = parse(&written).unwrap();
    assert_eq!(q.uxf.comment(), "about & more");
    assert!(q.uxf.value() == p.uxf.value());
    assert_eq!(q.uxf.to_string(), written);
    let names = import_names("uxf 1\n#<c>\n!x.uxf\n[]\n", "-").unwrap();
    assert_eq!(names, vec!["x.uxf".to_string()]);
}

#[test]
fn t_plain_reals_written_read_back() {
    let text = "uxf 1\n[1.5 -2.0e3 [0.25 7]]\n";
    let p = parse(text).unwrap();
    let l = p.uxf.value().as_list().unwrap();
    assert_eq!(l.len(), 3);
    let written = p.uxf.to_string();
    assert_eq!(written, "uxf 1\n[1.5\n-2.0e3\n[0.25\n7]]\n");
    let q = parse(&written).unwrap();
    assert!(q.uxf.value() == p.uxf.value());
}

#[test]
fn law_plain_data_imports_written() {
    let text = "uxf 1\n#<c>\n!fraction\n!complex\n{1 [<a> 2.5] 2 ?}\n";
    let parsed = parse_options(text, "-", ParserOptions::standard(), &Vec::new()).unwrap();
    let written = parsed.uxf.to_string();
    let names = import_names(&written, "-").unwrap();
    assert_eq!(names, vec!["fraction".to_string(), "complex".to_string()]);
    let lexed = uxf::lexer::tokenize(&written, "-").unwrap();
    assert_eq!(lexed.tokens.last().unwrap().kind, TokenKind::Eof);
}

#[test]
fn t_import_file_definitions() {
    let text = "uxf 1\n#<shapes>\n=Point x y\n=Pair first second\n=Fixed\n[]\n";
    let ts = parse_import(text, "lib.uxf", &Vec::new()).unwrap();
    assert_eq!(ts.len(), 3);
    assert_eq!(ts[0].ttype(), "Fixed");
    assert_eq!(ts[0].len(), 0);
    assert_eq!(ts[1].ttype(), "Pair");
    assert_eq!(ts[1].fields()[0].name(), "first");
    assert_eq!(ts[1].fields()[1].name(), "second");
    assert_eq!(ts[2].ttype(), "Point");
    assert_eq!(ts[2].len(), 2);
    let lexed = uxf::lexer::tokenize(text, "-").unwrap();
    let kinds: Vec<TokenKind> = lexed.tokens.iter().map(|t| t.kind).collect();
    assert_eq!(kinds[1], TokenKind::TClassBegin);
    assert_eq!(kinds[2], TokenKind::Field);
    assert_eq!(kinds[4], TokenKind::TClassEnd);
    let names = import_names(text, "-").unwrap();
    assert!(names.is_empty());
}

#[test]
fn t_definitions_and_plain_data_parse() {
    let p = parse("uxf 1\n=Point x y\n=Empty\n{<a> [1 2]}\n").unwrap();
    let m = p.uxf.value().as_map().unwrap();
    assert_eq!(m.len(), 1);
    let point = p.uxf.tclass("Point").unwrap();
    assert_eq!(point.len(), 2);
    assert_eq!(point.fields()[1].name(), "y");
    assert!(p.uxf.tclass("Empty").is_some());
    assert!(p.uxf.tclass("Other").is_none());
}

#[test]
fn law_plain_document_survives_writing() {
    let text = "uxf 1 demo\n#<doc>\n=Point x y\n=Fixed\n[{1 <a>} -2.5 ?]\n";
    let p = parse(text).unwrap();
    let written = p.uxf.to_string();
    let q = parse(&written).unwrap();
    assert_eq!(q.uxf.to_string(), written);
    assert!(q.uxf.value() == p.uxf.value());
    assert_eq!(q.uxf.comment(), "doc");
    assert_eq!(q.uxf.tclass("Point").unwrap().len(), 2);
    assert_eq!(q.uxf.tclass("Fixed").unwrap().len(), 0);
}
