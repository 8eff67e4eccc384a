use vm_library::arena::Arena;
use vm_library::codec::{
    decode, encode, from_json_str, is_value, to_json_string, ValueVisitor, MAX_DEPTH,
};
use vm_library::errors::VmError;
use vm_library::integer::Integer;
use vm_library::json::{parse, parse_u64, render, Json, Member};
use vm_library::value::{Union, Value};

fn number(n: i64) -> Value {
    Value::Int(Integer::from_i64(n))
}

fn list_value(arena: &mut Arena, items: Vec<Value>) -> Value {
    let mut l = im_rc::Vector::new();
    for v in items {
        l.push_back(arena.insert(v));
    }
    Value::List(l)
}

fn deep_sample(arena: &mut Arena) -> Value {
    let k1 = arena.insert(Value::String("a".to_string()));
    let v1 = arena.insert(number(1));
    let k2 = arena.insert(Value::String("b".to_string()));
    let inner = list_value(arena, vec![Value::Unit, Value::Bool(true), Value::Bytes(b"raw".to_vec())]);
    let v2 = arena.insert(inner);
    let map = arena.insert(Value::OrdMap(vec![(k1, v1), (k2, v2)]));
    let s1 = arena.insert(number(-5));
    let s2 = arena.insert(number(7));
    let set = arena.insert(Value::OrdSet(vec![s1, s2]));
    let none = arena.insert(Value::Option(None));
    let payload = arena.insert(number(12345678901234567));
    let some = arena.insert(Value::Option(Some(payload)));
    let right = arena.insert(Value::Union(Union::Right(some)));
    let first = arena.insert(Value::Pair { fst: map, snd: set });
    let second = arena.insert(Value::Pair { fst: none, snd: right });
    Value::Pair { fst: first, snd: second }
}

#[test]
fn serialization_deserialization_yields_same_structures() {
    let mut arena = Arena::new();
    let _refrer = arena.insert(Value::Int(Integer::from_i64(1)));
    let refre2 = arena.insert(Value::Int(Integer::from_i64(1)));
    let _refre3 = arena.insert(Value::Int(Integer::from_i64(1)));
    let refre4 = arena.insert(Value::Int(Integer::from_i64(1)));
    let expected = Value::Union(Union::Left(arena.insert(Value::Pair { fst: refre2, snd: refre4 })));

    let ser = &to_json_string(&arena, &expected).unwrap();
    let mut fresh = Arena::new();
    let x: Value = from_json_str(&mut fresh, ser).unwrap();
    // same structure
    assert_eq!(encode(&fresh, &x).unwrap(), encode(&arena, &expected).unwrap());
    let ser2 = &to_json_string(&fresh, &x).unwrap();
    // same serialized
    assert_eq!(ser, ser2);
    assert_eq!(ser, r#"["Union",["Left",["Pair",["Int","1"],["Int","1"]]]]"#);
}

#[test]
fn every_kind_of_value_has_its_tagged_tuple() {
    let mut arena = Arena::new();
    let cases: Vec<(Value, &str)> = vec![
        (Value::Unit, r#"["Unit"]"#),
        (Value::Bool(true), r#"["Bool",true]"#),
        (Value::Bool(false), r#"["Bool",false]"#),
        (number(-42), r#"["Int","-42"]"#),
        (Value::Bytes(b"hi".to_vec()), r#"["Bytes","hi"]"#),
        (Value::String("say \"hi\"".to_string()), r#"["String","say \"hi\""]"#),
        (Value::Option(None), r#"["Option",null]"#),
    ];
    for (value, wire) in cases {
        assert_eq!(to_json_string(&arena, &value).unwrap(), wire);
    }
    let a = arena.insert(number(1));
    let b = arena.insert(Value::Unit);
    assert_eq!(
        to_json_string(&arena, &Value::Pair { fst: a, snd: b }).unwrap(),
        r#"["Pair",["Int","1"],["Unit"]]"#
    );
    assert_eq!(
        to_json_string(&arena, &Value::Union(Union::Right(a))).unwrap(),
        r#"["Union",["Right",["Int","1"]]]"#
    );
    assert_eq!(
        to_json_string(&arena, &Value::Option(Some(b))).unwrap(),
        r#"["Option",["Unit"]]"#
    );
    assert_eq!(
        to_json_string(&arena, &Value::OrdMap(vec![(a, b), (b, a)])).unwrap(),
        r#"["Map",[[["Int","1"],["Unit"]],[["Unit"],["Int","1"]]]]"#
    );
    assert_eq!(
        to_json_string(&arena, &Value::OrdSet(vec![a, b])).unwrap(),
        r#"["Set",[["Int","1"],["Unit"]]]"#
    );
    let l = list_value(&mut arena, vec![number(1), number(2)]);
    assert_eq!(to_json_string(&arena, &l).unwrap(), r#"["List",[["Int","1"],["Int","2"]]]"#);
    let empty = list_value(&mut arena, vec![]);
    assert_eq!(to_json_string(&arena, &empty).unwrap(), r#"["List",[]]"#);
}

#[test]
fn nested_values_survive_the_wire() {
    let mut arena = Arena::new();
    let value = deep_sample(&mut arena);
    let document = encode(&arena, &value).unwrap();
    let mut fresh = Arena::new();
    fresh.insert(Value::Unit);
    fresh.insert(Value::Unit);
    let back = decode(&mut fresh, &document).unwrap();
    assert_eq!(encode(&fresh, &back).unwrap(), document);
    assert_eq!(to_json_string(&fresh, &back).unwrap(), to_json_string(&arena, &value).unwrap());
    // seventeen values below the top of the sample
    assert_eq!(fresh.len(), 2 + 17);
    // and once more, through the text
    let text = render(&document);
    let again = from_json_str(&mut fresh, &text).unwrap();
    assert_eq!(to_json_string(&fresh, &again).unwrap(), text);
}

#[test]
fn decode_keeps_only_handles_and_the_order_of_the_wire() {
    let mut arena = Arena::new();
    let v = from_json_str(&mut arena, r#"["Set",[["Int","3"],["Int","1"],["Int","2"]]]"#).unwrap();
    match &v {
        Value::OrdSet(items) => {
            let values: Vec<Value> = items.iter().map(|h| arena.get(*h).unwrap().clone()).collect();
            assert_eq!(values, vec![number(3), number(1), number(2)]);
        }
        other => panic!("{:?}", other),
    }
    assert_eq!(arena.len(), 3);
    let v = from_json_str(&mut arena, r#"["Pair",["Unit"],["Bool",false]]"#).unwrap();
    match v {
        Value::Pair { fst, snd } => {
            assert_eq!(arena.get(fst), Some(&Value::Unit));
            assert_eq!(arena.get(snd), Some(&Value::Bool(false)));
        }
        other => panic!("{:?}", other),
    }
    assert_eq!(arena.len(), 5);
    let v = ValueVisitor.visit_seq(&mut arena, &parse(r#"["Bytes","hé"]"#).unwrap()).unwrap();
    assert_eq!(v, Value::Bytes("hé".as_bytes().to_vec()));
    let v = Value::deserialize(&mut arena, &parse(r#"["Int"," +1_000 "]"#).unwrap()).unwrap();
    assert_eq!(v, number(1000));
    assert_eq!(v.serialize(&arena).unwrap(), parse(r#"["Int","1000"]"#).unwrap());
}

#[test]
fn malformed_documents_are_refused_and_insert_nothing() {
    let bad = [
        r#"[]"#,
        r#""Unit""#,
        r#"["Nope"]"#,
        r#"["Unit",1]"#,
        r#"["Bool"]"#,
        r#"["Bool","true"]"#,
        r#"["Int",5]"#,
        r#"["Int","five"]"#,
        r#"["Int",""]"#,
        r#"["Bytes",[1,2]]"#,
        r#"["String",null]"#,
        r#"["Union",["Middle",["Unit"]]]"#,
        r#"["Union",["Left"]]"#,
        r#"["Union",["Left",["Unit"],["Unit"]]]"#,
        r#"["Pair",["Unit"]]"#,
        r#"["Pair",[["Unit"],["Unit"]]]"#,
        r#"["Pair",["Unit"],["Unit"],["Unit"]]"#,
        r#"["Pair",["Unit"],["Nope"]]"#,
        r#"["List",["Unit"]]"#,
        r#"["List",[["Unit"],5]]"#,
        r#"["Map",[[["Unit"]]]]"#,
        r#"["Map",[["Unit"],["Unit"]]]"#,
        r#"["Set",{"a":1}]"#,
        r#"["Option"]"#,
        r#"["Option",5]"#,
        r#"{"Unit":1}"#,
        r#"not json"#,
        r#"["Unit""#,
    ];
    let mut arena = Arena::new();
    for text in bad {
        match from_json_str(&mut arena, text) {
            Err(VmError::DeserializeErr(message)) => assert_eq!(message, "unexpected sequence"),
            other => panic!("{}: {:?}", text, other),
        }
        if let Some(j) = parse(text) {
            assert!(!is_value(&j));
        }
        assert_eq!(arena.len(), 0);
    }
    assert!(is_value(&parse(r#"["Option",["Option",null]]"#).unwrap()));
}

#[test]
fn values_without_a_document_are_not_serialized() {
    let mut arena = Arena::new();
    let dangling = Value::Pair { fst: 777, snd: 778 };
    let closure = Value::Closure { opt_arg: None, call: 1 };
    let invalid = Value::Bytes(vec![0xff, 0xfe]);
    let inner = arena.insert(Value::Bytes(vec![0xc3]));
    let hidden = Value::Option(Some(inner));
    let c = arena.insert(Value::Closure { opt_arg: None, call: 1 });
    let nested = Value::Union(Union::Left(c));
    for v in [dangling, closure, invalid, hidden, nested, Value::Option(Some(5))] {
        match encode(&arena, &v) {
            Err(VmError::RuntimeErr(message)) => assert_eq!(message, "error serializing"),
            other => panic!("{:?}", other),
        }
        assert!(to_json_string(&arena, &v).is_err());
    }
}

#[test]
fn values_nested_deeper_than_the_wire_allows_are_not_serialized() {
    let mut arena = Arena::new();
    let mut top = Value::Unit;
    for _ in 0..MAX_DEPTH {
        let h = arena.insert(top);
        top = Value::Option(Some(h));
    }
    assert!(encode(&arena, &top).is_ok());
    let h = arena.insert(top);
    let deeper = Value::Option(Some(h));
    assert!(encode(&arena, &deeper).is_err());
}

#[test]
fn json_text_has_no_spaces_and_escapes_strings() {
    let document = Json::Array(vec![
        Json::Null,
        Json::Bool(false),
        Json::Number("12".to_string()),
        Json::String("a\"b\\c\n".to_string()),
        Json::Object(vec![
            Member { name: "k".to_string(), value: Json::Array(vec![]) },
            Member { name: "é".to_string(), value: Json::Object(vec![]) },
        ]),
    ]);
    assert_eq!(render(&document), r#"[null,false,12,"a\"b\\c\n",{"k":[],"é":{}}]"#);
    assert_eq!(parse(&render(&document)), Some(document));
    assert_eq!(render(&Json::String(String::new())), r#""""#);
    assert_eq!(render(&Json::String("quote".to_string())), r#""quote""#);
}

#[test]
fn json_parse_reads_documents() {
    assert_eq!(parse("null"), Some(Json::Null));
    assert_eq!(parse(" true "), Some(Json::Bool(true)));
    assert_eq!(parse("17"), Some(Json::Number("17".to_string())));
    assert_eq!(parse("-3"), Some(Json::Number("-3".to_string())));
    assert_eq!(parse(r#""A""#), Some(Json::String("A".to_string())));
    assert_eq!(
        parse(r#"[1, [2, {"a": null}]]"#),
        Some(Json::Array(vec![
            Json::Number("1".to_string()),
            Json::Array(vec![
                Json::Number("2".to_string()),
                Json::Object(vec![Member { name: "a".to_string(), value: Json::Null }]),
            ]),
        ]))
    );
    assert_eq!(parse(""), None);
    assert_eq!(parse("[1,"), None);
    assert_eq!(parse("{a:1}"), None);
}

#[test]
fn json_numbers_are_read_as_machine_integers() {
    assert_eq!(parse_u64("0"), Some(0));
    assert_eq!(parse_u64("18446744073709551615"), Some(u64::MAX));
    assert_eq!(parse_u64("18446744073709551616"), None);
    assert_eq!(parse_u64("99999999999999999999999"), None);
    assert_eq!(parse_u64(""), None);
    assert_eq!(parse_u64("-1"), None);
    assert_eq!(parse_u64("1.0"), None);
    assert_eq!(parse_u64("1e3"), None);
    assert_eq!(parse_u64("٣"), None);
    assert_eq!(parse_u64("007"), Some(7));
    assert_eq!(vm_library::json::number(300), Json::Number("300".to_string()));
}
