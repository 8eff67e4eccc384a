use vm_library::integer::Integer;
use vm_library::value::{Union, Value};

fn list(items: &[u64]) -> Value {
    let mut l = im_rc::Vector::new();
    for i in items {
        l.push_back(*i);
    }
    Value::List(l)
}

fn one_of_each_kind() -> Vec<Value> {
    vec![
        Value::Bytes(vec![1, 2]),
        Value::String("a".to_string()),
        Value::Int(Integer::from_i64(3)),
        Value::Union(Union::Left(4)),
        Value::Pair { fst: 1, snd: 2 },
        Value::Bool(false),
        Value::OrdMap(vec![(1, 2)]),
        Value::OrdSet(vec![1]),
        list(&[1]),
        Value::Unit,
        Value::Option(None),
        Value::Closure { opt_arg: None, call: 0 },
    ]
}

#[test]
fn value_order_goes_by_kind_first() {
    let kinds = one_of_each_kind();
    for i in 0..kinds.len() {
        for j in 0..kinds.len() {
            let expected = if i < j {
                -1
            } else if i == j {
                0
            } else {
                1
            };
            assert_eq!(kinds[i].order(&kinds[j]), expected, "{} against {}", i, j);
        }
    }
}

#[test]
fn value_order_within_a_kind() {
    assert_eq!(Value::Bytes(vec![1, 2]).order(&Value::Bytes(vec![1, 3])), -1);
    assert_eq!(Value::Bytes(vec![1, 2]).order(&Value::Bytes(vec![1, 2, 0])), -1);
    assert_eq!(Value::Bytes(vec![2]).order(&Value::Bytes(vec![1, 9])), 1);
    assert_eq!(Value::String("abc".into()).order(&Value::String("abd".into())), -1);
    assert_eq!(Value::String("b".into()).order(&Value::String("abc".into())), 1);
    assert_eq!(Value::String("é".into()).order(&Value::String("z".into())), 1);
    assert_eq!(
        Value::Int(Integer::from_i64(-5)).order(&Value::Int(Integer::from_i64(2))),
        -1
    );
    assert_eq!(Value::Union(Union::Left(9)).order(&Value::Union(Union::Right(1))), -1);
    assert_eq!(Value::Union(Union::Right(1)).order(&Value::Union(Union::Right(0))), 1);
    assert_eq!(
        Value::Pair { fst: 1, snd: 9 }.order(&Value::Pair { fst: 2, snd: 0 }),
        -1
    );
    assert_eq!(
        Value::Pair { fst: 1, snd: 9 }.order(&Value::Pair { fst: 1, snd: 10 }),
        -1
    );
    assert_eq!(Value::Bool(false).order(&Value::Bool(true)), -1);
    assert_eq!(Value::Bool(true).order(&Value::Bool(false)), 1);
    assert_eq!(
        Value::OrdMap(vec![(1, 5)]).order(&Value::OrdMap(vec![(1, 6)])),
        -1
    );
    assert_eq!(Value::OrdSet(vec![3, 4]).order(&Value::OrdSet(vec![3])), 1);
    assert_eq!(list(&[1, 2]).order(&list(&[1, 3])), -1);
    assert_eq!(list(&[]).order(&list(&[0])), -1);
    assert_eq!(Value::Option(None).order(&Value::Option(Some(0))), -1);
    assert_eq!(Value::Option(Some(2)).order(&Value::Option(Some(1))), 1);
    assert_eq!(
        Value::Closure { opt_arg: None, call: 5 }.order(&Value::Closure { opt_arg: Some(0), call: -5 }),
        -1
    );
    assert_eq!(
        Value::Closure { opt_arg: Some(1), call: -5 }.order(&Value::Closure { opt_arg: Some(1), call: 5 }),
        -1
    );
    assert_eq!(
        Value::Pair { fst: u64::MAX, snd: 0 }.order(&Value::Pair { fst: u64::MAX, snd: 1 }),
        -1
    );
}

#[test]
fn value_order_is_a_strict_total_order_on_samples() {
    let mut samples = one_of_each_kind();
    samples.push(Value::Int(Integer::from_i64(-3)));
    samples.push(Value::Bytes(vec![]));
    samples.push(Value::String("".to_string()));
    samples.push(Value::Option(Some(7)));
    samples.push(list(&[1, 2, 3]));
    samples.push(Value::OrdMap(vec![]));
    for a in &samples {
        assert_eq!(a.order(a), 0);
        for b in &samples {
            assert_eq!(a.order(b), -b.order(a));
            assert_eq!(a.same(b), a.order(b) == 0);
            assert_eq!(a.same(b), a == b);
            for c in &samples {
                if a.order(b) < 0 && b.order(c) < 0 {
                    assert!(a.order(c) < 0);
                }
            }
        }
    }
}

#[test]
fn value_duplicate_is_the_same_value() {
    for v in one_of_each_kind() {
        assert_eq!(v.duplicate(), v);
        assert_eq!(v.clone(), v);
        assert!(v.duplicate().same(&v));
    }
    let long = list(&[5, 4, 3, 2, 1]);
    assert_eq!(long.duplicate(), long);
}
