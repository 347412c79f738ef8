use uxf::event::{Event, EventKind};
use uxf::field::make_fields;
use uxf::parser::{parse, parse_options, Imported, ParserOptions};
use uxf::tclass::TClass;
use uxf::uxf::Uxf;
use uxf::value::{List, Table, UxfMap, Value};

fn uxf_check_error(err: &str, code: i32, name: &str) {
    match code {
        120 => assert_eq!(err, "E120:-:1:invalid UXF file header"),
        130 => assert_eq!(err, "E130:-:1:not a UXF file"),
        151 => assert_eq!(err, "E151:-:1:failed to read UXF file version number"),
        160 => assert_eq!(
            err,
            format!("E160:-:2:invalid comment syntax: expected '<', got '{name}'")
        ),
        _ => panic!("unexpected error code {code} ({name:?})"),
    }
}

fn uxf_assert_event(event: &Event, kind: EventKind, code: u16, filename: &str, lino: usize, message: &str) {
    assert_eq!(event.kind, kind);
    assert_eq!(event.code, code);
    assert_eq!(event.filename, filename);
    assert_eq!(event.lino, lino);
    assert_eq!(event.message, message);
}

fn uxf_str(s: &str) -> Value {
    Value::Str(s.to_string())
}

#[test]
fn t_uxf_strings() {
    let mut uxo = Uxf::default();
    assert_eq!(uxo.to_string(), "uxf 1\n[]\n");
    uxo.set_custom("Geo 1.0.0");
    uxo.set_comment("A Geographical format");
    assert_eq!(uxo.to_string(), "uxf 1 Geo 1.0.0\n#<A Geographical format>\n[]\n");
    let mut uxo = Uxf::new("custom 1", "comment 1");
    assert_eq!(uxo.custom(), "custom 1");
    assert_eq!(uxo.comment(), "comment 1");
    let lst = uxo.value().as_list().unwrap();
    assert!(lst.vtype().is_empty() && lst.comment().is_empty() && lst.is_empty());
    assert_eq!(uxo.to_string(), "uxf 1 custom 1\n#<comment 1>\n[]\n");
    uxo.set_comment("New text");
    assert_eq!(uxo.custom(), "custom 1");
    assert_eq!(uxo.comment(), "New text");
    assert!(uxo.value().as_list().unwrap().is_empty());
    assert_eq!(uxo.to_string(), "uxf 1 custom 1\n#<New text>\n[]\n");
    uxo.set_custom("Dummy format");
    assert_eq!(uxo.custom(), "Dummy format");
    assert_eq!(uxo.comment(), "New text");
    assert!(uxo.value().as_list().unwrap().is_empty());
    assert_eq!(uxo.to_string(), "uxf 1 Dummy format\n#<New text>\n[]\n");
}

#[test]
fn t_uxf_set_value() {
    let tc1 = TClass::new_fieldless("ReadyState", "enum").unwrap();
    let t1 = Table::new(tc1, "");
    let t2 = Table::new_fieldless("WaitState", "enum").unwrap();
    let fields = make_fields(&[("x", "int"), ("y", "int")]).unwrap();
    let tc3 = TClass::new("Point", fields, "").unwrap();
    let mut t3 = Table::new(tc3, "");
    let _ = t3.append(vec![Value::Int(0), 0.into()]);
    let _ = t3.append(vec![Value::Int(-7), 11.into()]);
    let nulls = t3.tclass().record_of_nulls().unwrap();
    let _ = t3.append(nulls);
    let _ = t3.append(vec![Value::Int(19), (-23).into()]);
    let mut lst = List::default();
    lst.push(t1.into());
    lst.push(t2.into());
    lst.push(t3.into());
    assert_eq!(
        lst.to_string(),
        "[(ReadyState)\n(#<enum> WaitState)\n(Point 0 0\n-7 11\n? ?\n\
        19 -23)]"
    );
    let mut uxo = Uxf::default();
    assert_eq!(uxo.to_string(), "uxf 1\n[]\n");
    assert!(uxo.set_value(lst.into()).is_ok());
    assert_eq!(
        uxo.to_string(),
        "uxf 1\n\
        =Point x:int y:int\n\
        =#<enum> ReadyState\n\
        =WaitState\n\
        [(ReadyState)\n(#<enum> WaitState)\n(Point 0 0\n-7 11\n? ?\n\
        19 -23)]\n"
    );
}

#[test]
fn t_uxf_set_value_invalid() {
    let mut uxo = Uxf::default();
    assert_eq!(uxo.to_string(), "uxf 1\n[]\n");
    let err = uxo.set_value(0.into()).unwrap_err();
    assert_eq!(err.to_string(), "E100:-:0:Uxf value must be a List, Map, or Table, got int");
}

#[test]
fn t_uxf_on_event1() {
    let mut uxo = Uxf::new("MyUXF", "A comment");
    assert_eq!(uxo.to_string(), "uxf 1 MyUXF\n#<A comment>\n[]\n");
    let mut m = UxfMap::default();
    m.insert(1.into(), uxf_str("one"));
    m.insert(2.into(), uxf_str("two"));
    assert_eq!(m.to_string(), "{1 <one>\n2 <two>}");
    assert!(uxo.set_value(m.into()).is_ok());
    assert_eq!(uxo.to_string(), "uxf 1 MyUXF\n#<A comment>\n{1 <one>\n2 <two>}\n");
}

#[test]
fn t_uxf_on_event2() {
    let mut uxo = Uxf::default();
    assert_eq!(uxo.to_string(), "uxf 1\n[]\n");
    uxo.set_custom("MyUXF");
    uxo.set_comment("A comment");
    assert_eq!(uxo.to_string(), "uxf 1 MyUXF\n#<A comment>\n[]\n");
    let mut m = UxfMap::default();
    m.insert(1.into(), uxf_str("one"));
    m.insert(2.into(), uxf_str("two"));
    assert_eq!(m.to_string(), "{1 <one>\n2 <two>}");
    assert!(uxo.set_value(m.into()).is_ok());
    assert_eq!(uxo.to_string(), "uxf 1 MyUXF\n#<A comment>\n{1 <one>\n2 <two>}\n");
}

#[test]
fn t_uxf_parse120() {
    let err = parse("uxf1.0\n").unwrap_err();
    uxf_check_error(&err.to_string(), 120, "");
}

#[test]
fn t_uxf_parse130() {
    let err = parse("Uxf 1\n").unwrap_err();
    uxf_check_error(&err.to_string(), 130, "");
}

#[test]
fn t_uxf_parse141() {
    let parsed = parse_options("uxf 99\n[]", "-", ParserOptions::standard(), &Vec::new()).unwrap();
    assert!(!parsed.events.is_empty());
    assert_eq!(parsed.events.len(), 1);
    let event = &parsed.events[0];
    uxf_assert_event(event, EventKind::Warning, 141, "-", 1, "version 99 > current 1");
}

#[test]
fn t_uxf_parse151a() {
    let err = parse("uxf 1x\n").unwrap_err();
    uxf_check_error(&err.to_string(), 151, "");
}

#[test]
fn t_uxf_parse151b() {
    let err = parse("uxf 1.0\n").unwrap_err();
    uxf_check_error(&err.to_string(), 151, "");
}

#[test]
fn t_uxf_parse160() {
    let err = parse("uxf 1\n#comment\n").unwrap_err();
    uxf_check_error(&err.to_string(), 160, "c");
}

#[test]
fn t_uxf_parse_ok() {
    let uxo = parse("uxf 1\n[]").unwrap().uxf;
    assert_eq!(uxo.to_string(), "uxf 1\n[]\n");
    let uxo = parse("uxf 1 My <Custom> Format 5.8\n[]").unwrap().uxf;
    assert_eq!(uxo.to_string(), "uxf 1 My <Custom> Format 5.8\n[]\n");
    assert_eq!(uxo.custom(), "My <Custom> Format 5.8");
    let uxo = parse("uxf 1\n#<A &lt;Big&gt; comment!>\n[]").unwrap().uxf;
    assert_eq!(uxo.to_string(), "uxf 1\n#<A &lt;Big&gt; comment!>\n[]\n");
    assert_eq!(uxo.comment(), "A <Big> comment!");
    let uxo = parse("uxf 1\n{}").unwrap().uxf;
    assert_eq!(uxo.to_string(), "uxf 1\n{}\n");
    let uxo = parse("uxf 1\n[{} {} ? []]").unwrap().uxf;
    assert_eq!(uxo.to_string(), "uxf 1\n[{}\n{}\n?\n[]]\n");
    let uxo = parse("uxf 1\n[[? ?] {} ? [[] [] ?]]").unwrap().uxf;
    assert_eq!(uxo.to_string(), "uxf 1\n[[?\n?]\n{}\n?\n[[]\n[]\n?]]\n");
    let uxo = parse("uxf 1\n=Point x y\n[]").unwrap().uxf;
    assert_eq!(uxo.to_string(), "uxf 1\n=Point x y\n[]\n");
    let uxo = parse("uxf 1\n=Point x:real y:real\n[]").unwrap().uxf;
    assert_eq!(uxo.to_string(), "uxf 1\n=Point x:real y:real\n[]\n");
    let uxo = parse("uxf 1\n=Enum\n=Point x:real y:real\n[]").unwrap().uxf;
    assert_eq!(uxo.to_string(), "uxf 1\n=Enum\n=Point x:real y:real\n[]\n");
    let uxo = parse("uxf 1\n=Point x y\n(Point)").unwrap().uxf;
    assert_eq!(uxo.to_string(), "uxf 1\n=Point x y\n(Point)\n");
    let uxo = parse("uxf 1\n=Point x y\n[(Point 1 2)]").unwrap().uxf;
    assert_eq!(uxo.to_string(), "uxf 1\n=Point x y\n[(Point 1 2)]\n");
}

#[test]
fn t_uxf_parse_options_ok() {
    let text = "uxf 1\n=Point x y\n=Unused a b\n=Enum\n[(Point 1 2)]";
    let kept = parse_options(text, "-", ParserOptions::standard(), &Vec::new()).unwrap();
    assert_eq!(
        kept.uxf.to_string(),
        "uxf 1\n=Enum\n=Point x y\n=Unused a b\n[(Point 1 2)]\n"
    );
    assert_eq!(kept.events.len(), 1);
    uxf_assert_event(&kept.events[0], EventKind::Warning, 422, "-", 5, "unused ttype: Unused");
    let dropped = parse_options(text, "-", ParserOptions::drop_unused_ttypes(), &Vec::new()).unwrap();
    assert_eq!(dropped.uxf.to_string(), "uxf 1\n=Point x y\n[(Point 1 2)]\n");
    assert!(dropped.events.is_empty());
    let text = "uxf 1\n!complex\n=Point x y\n[(Complex 1.5 -2.0) (Point 1 2)]";
    let with_imports = parse_options(text, "-", ParserOptions::standard(), &Vec::new()).unwrap();
    assert_eq!(
        with_imports.uxf.to_string(),
        "uxf 1\n!complex\n=Point x y\n[(Complex 1.5 -2.0)\n(Point 1 2)]\n"
    );
    let replaced = parse_options(text, "-", ParserOptions::replace_imports(), &Vec::new()).unwrap();
    assert_eq!(
        replaced.uxf.to_string(),
        "uxf 1\n=Complex Real:real Imag:real\n=Point x y\n[(Complex 1.5 -2.0)\n(Point 1 2)]\n"
    );
    let standalone = parse_options(text, "-", ParserOptions::as_standalone(), &Vec::new()).unwrap();
    assert_eq!(standalone.uxf.to_string(), replaced.uxf.to_string());
    let imported = vec![(
        "shapes.uxi".to_string(),
        Imported::TClasses(vec![TClass::new_fieldless("Circle", "").unwrap()]),
    )];
    let with_file = parse_options("uxf 1\n!shapes.uxi\n[(Circle)]", "-", ParserOptions::standard(), &imported)
        .unwrap();
    assert_eq!(with_file.uxf.to_string(), "uxf 1\n!shapes.uxi\n[(Circle)]\n");
}
