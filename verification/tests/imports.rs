use vm_library::arena::Arena;
use vm_library::conversions::{signed, to_u64};
use vm_library::env::{populate_predef, Context, Lifecycle};
use vm_library::errors::{FFIError, VmError};
use vm_library::imports;
use vm_library::imports::GuestCall;
use vm_library::integer::Integer;
use vm_library::value::{Union, Value};

fn ready(gas: u64) -> Context {
    let predef = populate_predef("sender".to_string(), "self".to_string(), "source".to_string());
    let mut env =
        Context::new(Arena::new(), predef, vec![Value::Bool(true), Value::String("c1".to_string())]);
    env.set_instance();
    env.set_pusher();
    env.set_gas_left(gas).unwrap();
    env
}

fn num(n: i64) -> Value {
    Value::Int(Integer::from_i64(n))
}

fn text(s: &str) -> Value {
    Value::String(s.to_string())
}

fn list_of(items: &[u64]) -> Value {
    let mut l = im_rc::Vector::new();
    for i in items {
        l.push_back(*i);
    }
    Value::List(l)
}

fn at(env: &Context, r: i64) -> Value {
    env.arena.get(to_u64(r)).unwrap().clone()
}

fn mismatch_of<T: std::fmt::Debug>(r: Result<T, VmError>) -> (Value, String) {
    match r {
        Err(VmError::FFIError { source: FFIError::ExternError { value, msg } }) => (value, msg),
        other => panic!("{:?}", other),
    }
}

fn runtime_text<T: std::fmt::Debug>(r: Result<T, VmError>) -> String {
    match r {
        Err(VmError::RuntimeErr(text)) => text,
        other => panic!("{:?}", other),
    }
}

#[test]
fn compare_stores_minus_one_zero_or_one() {
    let mut env = ready(1000);
    let r = imports::compare(&mut env, num(1), num(2)).unwrap();
    assert_eq!(at(&env, r), num(-1));
    let r = imports::compare(&mut env, text("b"), text("a")).unwrap();
    assert_eq!(at(&env, r), num(1));
    let r = imports::compare(&mut env, Value::Unit, Value::Unit).unwrap();
    assert_eq!(at(&env, r), num(0));
    assert_eq!(env.gas_left, 100);
}

#[test]
fn equal_agrees_with_compare_being_zero() {
    let samples = vec![num(1), num(2), text("a"), Value::Unit, Value::Pair { fst: 1, snd: 2 }];
    for a in &samples {
        for b in &samples {
            let mut env = ready(600);
            let c = imports::compare(&mut env, a.clone(), b.clone()).unwrap();
            let e = imports::equal(&mut env, a.clone(), b.clone()).unwrap();
            assert_eq!(at(&env, e), Value::Bool(at(&env, c) == num(0)));
        }
    }
}

#[test]
fn every_flat_priced_import_costs_300() {
    let mut env = ready(10_000);
    let mut left = 10_000;
    imports::compare(&mut env, num(1), num(1)).unwrap();
    left -= 300;
    assert_eq!(env.gas_left, left);
    imports::pair(&mut env, num(1), num(1)).unwrap();
    left -= 300;
    assert_eq!(env.gas_left, left);
    imports::car(&mut env, Value::Pair { fst: 1, snd: 2 }).unwrap();
    left -= 300;
    assert_eq!(env.gas_left, left);
    assert!(imports::car(&mut env, Value::Unit).is_err());
    left -= 300;
    assert_eq!(env.gas_left, left);
    assert!(imports::failwith(&mut env, text("x")).is_err());
    left -= 300;
    assert_eq!(env.gas_left, left);
    imports::get_n(&mut env, 0, Value::Unit).unwrap();
    assert_eq!(env.gas_left, left);
    imports::get_n(&mut env, 3, Value::Unit).unwrap_err();
    left -= 900;
    assert_eq!(env.gas_left, left);
    imports::nil(&mut env).unwrap();
    imports::cons(&mut env, num(1), list_of(&[])).unwrap();
    imports::transfer_tokens(&mut env, text("a"), num(0), Value::Unit).unwrap();
    assert_eq!(env.gas_left, left);
}

#[test]
fn out_of_gas_import_has_no_effect() {
    let mut env = ready(299);
    assert!(matches!(imports::pair(&mut env, num(1), num(2)), Err(VmError::OutOfGas)));
    assert_eq!(env.gas_left, 299);
    assert_eq!(env.arena.len(), 0);
    assert!(matches!(imports::unpair(&mut env, Value::Pair { fst: 1, snd: 2 }), Err(VmError::OutOfGas)));
    assert!(env.pushed.is_empty());
    assert!(matches!(imports::get_n(&mut env, 1, Value::Unit), Err(VmError::OutOfGas)));
    assert_eq!(env.gas_left, 299);
    let mut env = ready(600);
    imports::neq(&mut env, num(0)).unwrap();
    imports::neq(&mut env, num(1)).unwrap();
    assert!(matches!(imports::neq(&mut env, num(1)), Err(VmError::OutOfGas)));
    assert_eq!(env.gas_left, 0);
    assert_eq!(env.arena.len(), 2);
}

#[test]
fn imports_before_ready_are_lifecycle_errors() {
    let predef = populate_predef(String::new(), String::new(), String::new());
    let mut env = Context::new(Arena::new(), predef, vec![]);
    assert!(matches!(imports::compare(&mut env, num(1), num(1)), Err(VmError::InstantiationErr(_))));
    assert!(matches!(imports::dup_host(&mut env, 1), Err(VmError::InstantiationErr(_))));
    assert_eq!(env.arena.len(), 0);
    assert_eq!(env.state, Lifecycle::Uninitialized);
}

#[test]
fn or_and_not_work_on_truth_values() {
    let mut env = ready(10_000);
    let r = imports::or(&mut env, Value::Bool(false), Value::Bool(true)).unwrap();
    assert_eq!(at(&env, r), Value::Bool(true));
    let r = imports::or(&mut env, Value::Bool(false), Value::Bool(false)).unwrap();
    assert_eq!(at(&env, r), Value::Bool(false));
    let r = imports::and(&mut env, Value::Bool(true), Value::Bool(false)).unwrap();
    assert_eq!(at(&env, r), Value::Bool(false));
    let r = imports::and(&mut env, Value::Bool(true), Value::Bool(true)).unwrap();
    assert_eq!(at(&env, r), Value::Bool(true));
    let r = imports::not(&mut env, Value::Bool(true)).unwrap();
    assert_eq!(at(&env, r), Value::Bool(false));
    assert_eq!(
        mismatch_of(imports::or(&mut env, Value::Bool(true), num(1))),
        (Value::Bool(true), "type mismatch, expected Two Bools".to_string())
    );
    assert_eq!(
        mismatch_of(imports::and(&mut env, num(7), Value::Bool(true))),
        (num(7), "type mismatch, expected Two Bools".to_string())
    );
    assert_eq!(
        mismatch_of(imports::not(&mut env, num(7))),
        (num(7), "type mismatch, expected Pair".to_string())
    );
}

#[test]
fn neq_and_eq_read_zero_and_one() {
    let mut env = ready(10_000);
    let r = imports::neq(&mut env, num(0)).unwrap();
    assert_eq!(at(&env, r), Value::Bool(false));
    let r = imports::neq(&mut env, num(1)).unwrap();
    assert_eq!(at(&env, r), Value::Bool(true));
    let r = imports::eq(&mut env, num(0)).unwrap();
    assert_eq!(at(&env, r), Value::Bool(false));
    let r = imports::eq(&mut env, num(1)).unwrap();
    assert_eq!(at(&env, r), Value::Bool(true));
    assert_eq!(mismatch_of(imports::neq(&mut env, num(-1))).0, num(-1));
    assert_eq!(mismatch_of(imports::eq(&mut env, num(2))).0, num(2));
    assert_eq!(mismatch_of(imports::eq(&mut env, Value::Unit)).0, Value::Unit);
}

#[test]
fn pair_car_cdr_and_unpair() {
    let mut env = ready(10_000);
    let r = imports::pair(&mut env, num(1), text("two")).unwrap();
    let (fst, snd) = match at(&env, r) {
        Value::Pair { fst, snd } => (fst, snd),
        other => panic!("{:?}", other),
    };
    assert_eq!(env.arena.get(fst), Some(&num(1)));
    assert_eq!(env.arena.get(snd), Some(&text("two")));
    assert_eq!(env.arena.len(), 3);
    let whole = at(&env, r);
    assert_eq!(imports::car(&mut env, whole.clone()).unwrap(), signed(fst));
    assert_eq!(imports::cdr(&mut env, whole.clone()).unwrap(), signed(snd));
    imports::unpair(&mut env, whole).unwrap();
    assert_eq!(env.take_pushed(), vec![signed(snd), signed(fst)]);
    assert_eq!(env.arena.len(), 3);
    assert_eq!(
        mismatch_of(imports::unpair(&mut env, num(1))),
        (num(1), "type mismatch, expected Pair".to_string())
    );
    assert_eq!(mismatch_of(imports::car(&mut env, Value::Unit)).0, Value::Unit);
    assert_eq!(mismatch_of(imports::cdr(&mut env, Value::Unit)).0, Value::Unit);
    assert!(env.pushed.is_empty());
}

#[test]
fn z_add_and_z_sub_are_exact() {
    let mut env = ready(10_000);
    let big = Value::Int(Integer::from_decimal("340282366920938463463374607431768211456").unwrap());
    let r = imports::z_add(&mut env, big.clone(), num(-1)).unwrap();
    assert_eq!(
        at(&env, r),
        Value::Int(Integer::from_decimal("340282366920938463463374607431768211455").unwrap())
    );
    let r = imports::z_sub(&mut env, num(3), num(5)).unwrap();
    assert_eq!(at(&env, r), num(-2));
    let r = imports::z_add(&mut env, num(3), num(5)).unwrap();
    assert_eq!(at(&env, r), num(8));
}

#[test]
fn z_add_reports_the_operand_that_is_no_integer() {
    let mut env = ready(10_000);
    assert_eq!(
        mismatch_of(imports::z_add(&mut env, num(1), text("x"))),
        (text("x"), "type mismatch, expected Int".to_string())
    );
    assert_eq!(mismatch_of(imports::z_add(&mut env, text("y"), num(1))).0, text("y"));
    assert_eq!(mismatch_of(imports::z_sub(&mut env, text("a"), text("b"))).0, text("a"));
    assert_eq!(mismatch_of(imports::z_sub(&mut env, num(1), Value::Unit)).0, Value::Unit);
    assert_eq!(env.arena.len(), 0);
}

#[test]
fn is_left_tells_the_sides_apart() {
    let mut env = ready(10_000);
    assert_eq!(imports::is_left(&mut env, Value::Union(Union::Left(5))).unwrap(), 1);
    assert_eq!(env.take_pushed(), vec![5]);
    assert_eq!(imports::is_left(&mut env, Value::Union(Union::Right(6))).unwrap(), 0);
    assert_eq!(env.take_pushed(), vec![6]);
    assert_eq!(
        mismatch_of(imports::is_left(&mut env, num(1))),
        (num(1), "type mismatch, expected Union".to_string())
    );
}

#[test]
fn deref_bool_and_if_none() {
    let mut env = ready(10_000);
    assert_eq!(imports::deref_bool(&mut env, Value::Bool(true)).unwrap(), 1);
    assert_eq!(imports::deref_bool(&mut env, Value::Bool(false)).unwrap(), 0);
    assert_eq!(
        mismatch_of(imports::deref_bool(&mut env, num(1))).1,
        "type mismatch, expected Bool"
    );
    assert_eq!(imports::if_none(&mut env, Value::Option(None)).unwrap(), 1);
    assert!(env.pushed.is_empty());
    assert_eq!(imports::if_none(&mut env, Value::Option(Some(9))).unwrap(), 0);
    assert_eq!(env.take_pushed(), vec![9]);
    assert_eq!(
        mismatch_of(imports::if_none(&mut env, num(1))).1,
        "type mismatch, expected Option"
    );
}

#[test]
fn failwith_always_fails() {
    let mut env = ready(10_000);
    assert_eq!(runtime_text(imports::failwith(&mut env, text("boom"))), "boom");
    assert_eq!(
        mismatch_of(imports::failwith(&mut env, num(1))),
        (num(1), "type mismatch, expected String".to_string())
    );
    assert_eq!(env.arena.len(), 0);
}

#[test]
fn if_cons_takes_lists_of_one_or_two_apart() {
    let mut env = ready(10_000);
    assert_eq!(imports::if_cons(&mut env, list_of(&[7])).unwrap(), 1);
    assert_eq!(env.take_pushed(), vec![7]);
    assert_eq!(imports::if_cons(&mut env, list_of(&[7, 8])).unwrap(), 1);
    let pushed = env.take_pushed();
    assert_eq!(pushed.len(), 2);
    assert_eq!(pushed[0], 8);
    assert_eq!(at(&env, pushed[1]), list_of(&[]));
    assert_eq!(imports::if_cons(&mut env, list_of(&[])).unwrap(), 0);
    assert_eq!(imports::if_cons(&mut env, list_of(&[1, 2, 3])).unwrap(), 0);
    assert_eq!(imports::if_cons(&mut env, num(1)).unwrap(), 0);
    assert!(env.pushed.is_empty());
}

#[test]
fn is_nat_wraps_non_negative_integers() {
    let mut env = ready(10_000);
    let r = imports::is_nat(&mut env, num(5)).unwrap();
    match at(&env, r) {
        Value::Option(Some(h)) => assert_eq!(env.arena.get(h), Some(&num(5))),
        other => panic!("{:?}", other),
    }
    let r = imports::is_nat(&mut env, num(0)).unwrap();
    assert!(matches!(at(&env, r), Value::Option(Some(_))));
    let r = imports::is_nat(&mut env, num(-1)).unwrap();
    assert_eq!(at(&env, r), Value::Option(None));
    assert_eq!(
        mismatch_of(imports::is_nat(&mut env, text("x"))).1,
        "type mismatch, expected Nat"
    );
}

#[test]
fn abs_lt_and_gt() {
    let mut env = ready(10_000);
    let r = imports::abs(&mut env, num(-5)).unwrap();
    assert_eq!(at(&env, r), num(5));
    assert_eq!(mismatch_of(imports::abs(&mut env, Value::Unit)).1, "type mismatch, expected Nat");
    let r = imports::lt(&mut env, num(-1)).unwrap();
    assert_eq!(at(&env, r), Value::Bool(true));
    let r = imports::lt(&mut env, num(0)).unwrap();
    assert_eq!(at(&env, r), Value::Bool(false));
    let r = imports::gt(&mut env, num(1)).unwrap();
    assert_eq!(at(&env, r), Value::Bool(true));
    let r = imports::gt(&mut env, num(0)).unwrap();
    assert_eq!(at(&env, r), Value::Bool(false));
    let r = imports::lt(&mut env, text("before every integer")).unwrap();
    assert_eq!(at(&env, r), Value::Bool(true));
    let r = imports::gt(&mut env, Value::Unit).unwrap();
    assert_eq!(at(&env, r), Value::Bool(true));
}

#[test]
fn closure_some_left_and_right_wrap() {
    let mut env = ready(10_000);
    let r = imports::closure(&mut env, 12).unwrap();
    assert_eq!(at(&env, r), Value::Closure { opt_arg: None, call: 12 });
    let r = imports::some(&mut env, num(1)).unwrap();
    match at(&env, r) {
        Value::Option(Some(h)) => assert_eq!(env.arena.get(h), Some(&num(1))),
        other => panic!("{:?}", other),
    }
    let r = imports::left(&mut env, num(2)).unwrap();
    match at(&env, r) {
        Value::Union(Union::Left(h)) => assert_eq!(env.arena.get(h), Some(&num(2))),
        other => panic!("{:?}", other),
    }
    let r = imports::right(&mut env, num(3)).unwrap();
    match at(&env, r) {
        Value::Union(Union::Right(h)) => assert_eq!(env.arena.get(h), Some(&num(3))),
        other => panic!("{:?}", other),
    }
}

fn chain(env: &mut Context, depth: usize) -> Value {
    // (0, (1, (2, ... (depth - 1, end))))
    let mut tail = text("end");
    for i in (0..depth).rev() {
        let fst = env.bump(num(i as i64));
        let snd = env.bump(tail);
        tail = Value::Pair { fst, snd };
    }
    tail
}

fn walk_by_hand(env: &Context, value: &Value, idx: u32) -> Value {
    let mut current = value.clone();
    let mut k = idx;
    while k >= 2 {
        current = match current {
            Value::Pair { snd, .. } => env.arena.get(snd).unwrap().clone(),
            other => panic!("{:?}", other),
        };
        k -= 2;
    }
    if k == 1 {
        current = match current {
            Value::Pair { fst, .. } => env.arena.get(fst).unwrap().clone(),
            other => panic!("{:?}", other),
        };
    }
    current
}

#[test]
fn get_n_agrees_with_a_walk_by_hand() {
    let depth = 6;
    for k in 0..=(2 * depth as u32) {
        let mut env = ready(u64::MAX);
        let top = chain(&mut env, depth);
        let expected = walk_by_hand(&env, &top, k);
        let r = imports::get_n(&mut env, k, top).unwrap();
        assert_eq!(at(&env, r), expected, "index {}", k);
        assert_eq!(env.gas_left, u64::MAX - 300 * k as u64);
    }
    let mut env = ready(u64::MAX);
    let top = chain(&mut env, 3);
    let r = imports::get_n(&mut env, 1, top.clone()).unwrap();
    assert_eq!(at(&env, r), num(0));
    let mut env = ready(u64::MAX);
    let top = chain(&mut env, 3);
    let r = imports::get_n(&mut env, 5, top).unwrap();
    assert_eq!(at(&env, r), num(2));
    let mut env = ready(u64::MAX);
    let top = chain(&mut env, 3);
    let r = imports::get_n(&mut env, 6, top).unwrap();
    assert_eq!(at(&env, r), text("end"));
}

#[test]
fn get_n_on_what_is_no_pair_is_a_type_mismatch() {
    let mut env = ready(u64::MAX);
    assert_eq!(
        mismatch_of(imports::get_n(&mut env, 1, num(5))),
        (num(5), "type mismatch, expected Pair".to_string())
    );
    let top = chain(&mut env, 2);
    assert_eq!(mismatch_of(imports::get_n(&mut env, 7, top)).0, text("end"));
    let r = imports::get_n(&mut env, 0, num(5)).unwrap();
    assert_eq!(at(&env, r), num(5));
    assert_eq!(
        runtime_text(imports::get_n(&mut env, 2, Value::Pair { fst: 12345, snd: 54321 })),
        "Value doesnt exist"
    );
}

fn empty_map() -> Value {
    Value::OrdMap(vec![])
}

fn put(env: &mut Context, map: Value, key: Value, value: Value) -> Value {
    let h = env.bump(value);
    let r = imports::update(env, map, key, Value::Option(Some(h))).unwrap();
    at(env, r)
}

fn cut(env: &mut Context, map: Value, key: Value) -> Value {
    let r = imports::update(env, map, key, Value::Option(None)).unwrap();
    at(env, r)
}

fn look(env: &mut Context, map: &Value, key: Value) -> Option<Value> {
    let r = imports::map_get(env, map.clone(), key).unwrap();
    match at(env, r) {
        Value::Option(Some(h)) => Some(env.arena.get(h).unwrap().clone()),
        Value::Option(None) => None,
        other => panic!("{:?}", other),
    }
}

#[test]
fn map_get_after_update_finds_what_was_put() {
    let mut env = ready(u64::MAX);
    let m = put(&mut env, empty_map(), num(5), text("five"));
    assert_eq!(look(&mut env, &m, num(5)), Some(text("five")));
    let m = put(&mut env, m, num(5), text("cinq"));
    assert_eq!(look(&mut env, &m, num(5)), Some(text("cinq")));
    match &m {
        Value::OrdMap(entries) => assert_eq!(entries.len(), 1),
        other => panic!("{:?}", other),
    }
}

#[test]
fn map_get_after_removal_finds_nothing() {
    let mut env = ready(u64::MAX);
    let m = put(&mut env, empty_map(), num(5), text("five"));
    let m = put(&mut env, m, num(6), text("six"));
    let m = cut(&mut env, m, num(5));
    assert_eq!(look(&mut env, &m, num(5)), None);
    assert_eq!(look(&mut env, &m, num(6)), Some(text("six")));
    let m = cut(&mut env, m, num(77));
    assert_eq!(look(&mut env, &m, num(6)), Some(text("six")));
}

#[test]
fn map_updates_agree_with_a_reference_map() {
    let mut env = ready(u64::MAX);
    let mut reference: std::collections::BTreeMap<i64, i64> = std::collections::BTreeMap::new();
    let mut m = empty_map();
    let keys = [5i64, 3, 9, 3, 1, 7, 5, 8, 2, 9, 0, 4, 6, 1];
    for (step, k) in keys.iter().enumerate() {
        if step % 3 == 2 {
            reference.remove(k);
            m = cut(&mut env, m, num(*k));
        } else {
            reference.insert(*k, step as i64);
            m = put(&mut env, m, num(*k), num(step as i64));
        }
        for probe in -1..11 {
            assert_eq!(
                look(&mut env, &m, num(probe)),
                reference.get(&probe).map(|v| num(*v)),
                "step {} key {}",
                step,
                probe
            );
        }
        let entries = match &m {
            Value::OrdMap(entries) => entries.clone(),
            other => panic!("{:?}", other),
        };
        let in_order: Vec<Value> =
            entries.iter().map(|(k, _)| env.arena.get(*k).unwrap().clone()).collect();
        let expected: Vec<Value> = reference.keys().map(|k| num(*k)).collect();
        assert_eq!(in_order, expected);
    }
}

#[test]
fn update_does_not_change_the_map_handed_in() {
    let mut env = ready(u64::MAX);
    let m = put(&mut env, empty_map(), num(1), text("one"));
    let before = m.clone();
    let m2 = put(&mut env, m.clone(), num(2), text("two"));
    assert_eq!(m, before);
    assert_ne!(m2, before);
    assert_eq!(look(&mut env, &m, num(2)), None);
    assert_eq!(look(&mut env, &m2, num(2)), Some(text("two")));
}

#[test]
fn mem_looks_into_maps_and_sets() {
    let mut env = ready(u64::MAX);
    let m = put(&mut env, empty_map(), text("k"), num(1));
    let r = imports::mem(&mut env, m.clone(), text("k")).unwrap();
    assert_eq!(at(&env, r), Value::Bool(true));
    let r = imports::mem(&mut env, m, text("other")).unwrap();
    assert_eq!(at(&env, r), Value::Bool(false));
    let a = env.bump(num(1));
    let b = env.bump(num(3));
    let set = Value::OrdSet(vec![a, b]);
    let r = imports::mem(&mut env, set.clone(), num(3)).unwrap();
    assert_eq!(at(&env, r), Value::Bool(true));
    let r = imports::mem(&mut env, set, num(2)).unwrap();
    assert_eq!(at(&env, r), Value::Bool(false));
    assert_eq!(
        mismatch_of(imports::mem(&mut env, num(1), num(1))),
        (num(1), "type mismatch, expected Map/Set with a Key".to_string())
    );
}

#[test]
fn map_imports_report_mismatches_and_missing_values() {
    let mut env = ready(u64::MAX);
    assert_eq!(
        mismatch_of(imports::map_get(&mut env, num(1), num(1))),
        (num(1), "type mismatch, expected Map with a Key".to_string())
    );
    assert_eq!(
        mismatch_of(imports::update(&mut env, num(1), num(1), Value::Option(None))),
        (num(1), "type mismatch, expected Map with a Option Value".to_string())
    );
    assert_eq!(
        mismatch_of(imports::update(&mut env, empty_map(), num(1), num(2))).0,
        empty_map()
    );
    assert_eq!(
        mismatch_of(imports::get_and_update(&mut env, Value::Unit, num(1), Value::Option(None))).0,
        Value::Unit
    );
    assert_eq!(
        runtime_text(imports::update(&mut env, empty_map(), num(1), Value::Option(Some(99)))),
        "Value doesnt exist"
    );
    let dangling = Value::OrdMap(vec![(4242, 4243)]);
    assert_eq!(
        runtime_text(imports::map_get(&mut env, dangling.clone(), num(1))),
        "Value doesnt exist"
    );
    assert_eq!(runtime_text(imports::mem(&mut env, dangling, num(1))), "Value doesnt exist");
}

#[test]
fn get_and_update_pushes_the_map_and_what_it_took_out() {
    let mut env = ready(u64::MAX);
    let m = put(&mut env, empty_map(), num(1), text("one"));
    env.take_pushed();
    imports::get_and_update(&mut env, m.clone(), num(1), Value::Option(None)).unwrap();
    let pushed = env.take_pushed();
    assert_eq!(pushed.len(), 2);
    assert_eq!(at(&env, pushed[0]), empty_map());
    match at(&env, pushed[1]) {
        Value::Option(Some(h)) => assert_eq!(env.arena.get(h), Some(&text("one"))),
        other => panic!("{:?}", other),
    }
    let h = env.bump(text("uno"));
    imports::get_and_update(&mut env, m, num(1), Value::Option(Some(h))).unwrap();
    let pushed = env.take_pushed();
    let updated = at(&env, pushed[0]);
    assert_eq!(look(&mut env, &updated, num(1)), Some(text("uno")));
    assert_eq!(at(&env, pushed[1]), Value::Option(None));
    imports::get_and_update(&mut env, empty_map(), num(1), Value::Option(None)).unwrap();
    let pushed = env.take_pushed();
    assert_eq!(at(&env, pushed[0]), empty_map());
    assert_eq!(at(&env, pushed[1]), Value::Option(None));
}

#[test]
fn cons_puts_an_item_first() {
    let mut env = ready(0);
    let r = imports::cons(&mut env, num(1), list_of(&[8, 9])).unwrap();
    match at(&env, r) {
        Value::List(items) => {
            assert_eq!(items.len(), 3);
            assert_eq!(env.arena.get(items[0]), Some(&num(1)));
            assert_eq!(items[1], 8);
            assert_eq!(items[2], 9);
        }
        other => panic!("{:?}", other),
    }
    assert_eq!(runtime_text(imports::cons(&mut env, num(1), num(2))), "illegal argument");
}

#[test]
fn transfer_tokens_asks_for_amount_zero() {
    let mut env = ready(0);
    let r = imports::transfer_tokens(&mut env, text("dest"), num(0), text("payload")).unwrap();
    match at(&env, r) {
        Value::Pair { fst, snd } => {
            assert_eq!(env.arena.get(fst), Some(&text("dest")));
            assert_eq!(env.arena.get(snd), Some(&text("payload")));
        }
        other => panic!("{:?}", other),
    }
    assert_eq!(
        runtime_text(imports::transfer_tokens(&mut env, text("d"), num(1), text("p"))),
        "illegal argument"
    );
    assert_eq!(
        runtime_text(imports::transfer_tokens(&mut env, text("d"), text("0"), text("p"))),
        "illegal argument"
    );
    assert_eq!(env.arena.len(), 3);
}

#[test]
fn predefined_constants_are_stored_on_demand() {
    let mut env = ready(0);
    let r = imports::nil(&mut env).unwrap();
    assert_eq!(at(&env, r), list_of(&[]));
    let r = imports::unit(&mut env).unwrap();
    assert_eq!(at(&env, r), Value::Unit);
    let r = imports::empty_map(&mut env).unwrap();
    assert_eq!(at(&env, r), Value::OrdMap(vec![]));
    let r = imports::empty_set(&mut env).unwrap();
    assert_eq!(at(&env, r), Value::OrdSet(vec![]));
    let r = imports::zero(&mut env).unwrap();
    assert_eq!(at(&env, r), num(0));
    let r = imports::none(&mut env).unwrap();
    assert_eq!(at(&env, r), Value::Option(None));
    let r = imports::sender(&mut env).unwrap();
    assert_eq!(at(&env, r), text("sender"));
    let r = imports::source(&mut env).unwrap();
    assert_eq!(at(&env, r), text("source"));
    let r = imports::self_(&mut env).unwrap();
    assert_eq!(at(&env, r), text("self"));
    assert_eq!(env.arena.len(), 9);
}

#[test]
fn const_reads_the_table_of_constants() {
    let mut env = ready(0);
    let r = imports::const_(&mut env, 0).unwrap();
    assert_eq!(at(&env, r), Value::Bool(true));
    let r = imports::const_(&mut env, 1).unwrap();
    assert_eq!(at(&env, r), text("c1"));
    assert_eq!(runtime_text(imports::const_(&mut env, 2)), "cant happen");
    assert_eq!(runtime_text(imports::const_(&mut env, -1)), "cant happen");
}

#[test]
fn apply_binds_arguments() {
    let mut env = ready(0);
    let r = imports::apply(&mut env, num(1), Value::Closure { opt_arg: None, call: 4 }).unwrap();
    let bound = match at(&env, r) {
        Value::Closure { opt_arg: Some(h), call: 4 } => h,
        other => panic!("{:?}", other),
    };
    assert_eq!(env.arena.get(bound), Some(&num(1)));
    let once = at(&env, r);
    let r = imports::apply(&mut env, num(2), once).unwrap();
    match at(&env, r) {
        Value::Closure { opt_arg: Some(p), call: 4 } => match env.arena.get(p) {
            Some(Value::Pair { fst, snd }) => {
                assert_eq!(env.arena.get(*fst), Some(&num(2)));
                assert_eq!(*snd, bound);
            }
            other => panic!("{:?}", other),
        },
        other => panic!("{:?}", other),
    }
    assert_eq!(
        mismatch_of(imports::apply(&mut env, num(1), num(2))),
        (num(2), "type mismatch, expected Lambda".to_string())
    );
}

#[test]
fn exec_says_which_call_to_make() {
    let mut env = ready(0);
    let call = imports::exec(&mut env, num(1), Value::Closure { opt_arg: None, call: 4 }).unwrap();
    assert_eq!(call.selector, 4);
    assert_eq!(at(&env, call.arg), num(1));
    let bound = env.bump(text("bound"));
    let call =
        imports::exec(&mut env, num(2), Value::Closure { opt_arg: Some(bound), call: 5 }).unwrap();
    assert_eq!(call.selector, 5);
    match at(&env, call.arg) {
        Value::Pair { fst, snd } => {
            assert_eq!(env.arena.get(fst), Some(&num(2)));
            assert_eq!(snd, bound);
        }
        other => panic!("{:?}", other),
    }
    assert_eq!(mismatch_of(imports::exec(&mut env, num(1), Value::Unit)).0, Value::Unit);
}

#[test]
fn iter_and_map_visit_the_last_item_first() {
    let mut env = ready(0);
    let calls = imports::iter(&env, list_of(&[1, 2, 3]), 7).unwrap();
    assert_eq!(
        calls,
        vec![
            GuestCall { arg: 3, selector: 7 },
            GuestCall { arg: 2, selector: 7 },
            GuestCall { arg: 1, selector: 7 }
        ]
    );
    assert_eq!(imports::map(&env, list_of(&[]), 7).unwrap(), vec![]);
    assert_eq!(
        mismatch_of(imports::iter(&env, num(1), 7)).1,
        "type mismatch, expected Map with a Option Value"
    );
    assert_eq!(mismatch_of(imports::map(&env, num(1), 7)).0, num(1));
    let a = env.bump(num(10));
    let b = env.bump(num(20));
    let c = env.bump(num(30));
    let calls = imports::map(&env, list_of(&[a, b, c]), 1).unwrap();
    // the guest doubles each item: results come in the order of the calls
    let mut results = vec![];
    for call in &calls {
        let doubled = match at(&env, call.arg) {
            Value::Int(n) => Value::Int(n.add(&n)),
            other => panic!("{:?}", other),
        };
        results.push(signed(env.bump(doubled)));
    }
    let r = imports::map_results(&mut env, results).unwrap();
    match at(&env, r) {
        Value::List(items) => {
            let values: Vec<Value> =
                items.iter().map(|h| env.arena.get(*h).unwrap().clone()).collect();
            assert_eq!(values, vec![num(20), num(40), num(60)]);
        }
        other => panic!("{:?}", other),
    }
    assert_eq!(runtime_text(imports::map_results(&mut env, vec![424242])), "Value doesnt exist");
}

#[test]
fn dup_host_and_address_copy_values() {
    let mut env = ready(0);
    let h = env.bump(text("v"));
    imports::dup_host(&mut env, signed(h)).unwrap();
    let pushed = env.take_pushed();
    assert_eq!(pushed.len(), 1);
    assert_ne!(to_u64(pushed[0]), h);
    assert_eq!(at(&env, pushed[0]), text("v"));
    assert_eq!(env.arena.get(h), Some(&text("v")));
    let r = imports::address(&mut env, signed(h)).unwrap();
    assert_ne!(to_u64(r), h);
    assert_eq!(at(&env, r), text("v"));
    assert_eq!(runtime_text(imports::dup_host(&mut env, 999)), "Value doesnt exist");
    assert_eq!(runtime_text(imports::address(&mut env, 999)), "Value doesnt exist");
}

#[test]
fn adapters_take_arguments_out_of_the_arena() {
    let mut env = ready(0);
    let a = signed(env.bump(num(1)));
    let b = signed(env.bump(num(2)));
    let c = signed(env.bump(num(3)));
    assert_eq!(imports::call1(&mut env, a).unwrap(), num(1));
    assert_eq!(runtime_text(imports::call1(&mut env, a)), "Value doesnt exist");
    let a = signed(env.bump(num(1)));
    assert_eq!(imports::call2(&mut env, a, b).unwrap(), (num(1), num(2)));
    assert_eq!(env.arena.len(), 1);
    let a = signed(env.bump(num(1)));
    let b = signed(env.bump(num(2)));
    assert_eq!(imports::call3(&mut env, a, b, c).unwrap(), (num(1), num(2), num(3)));
    assert_eq!(env.arena.len(), 0);
    let a = signed(env.bump(num(1)));
    assert_eq!(runtime_text(imports::call2(&mut env, a, a)), "illegal argument");
    assert_eq!(env.arena.len(), 0);
    let a = signed(env.bump(num(1)));
    assert_eq!(runtime_text(imports::call2(&mut env, 999, a)), "illegal argument");
    assert_eq!(env.arena.len(), 0);
    let a = signed(env.bump(num(1)));
    assert_eq!(imports::call2_extra(&mut env, 4, a).unwrap(), (4, num(1)));
    assert_eq!(runtime_text(imports::call2_extra(&mut env, 4, a)), "illegal argument");
    let a = signed(env.bump(num(1)));
    assert_eq!(imports::call2_mapping(&mut env, a, -3).unwrap(), (num(1), -3));
    assert_eq!(runtime_text(imports::call2_mapping(&mut env, a, -3)), "illegal argument");
    assert_eq!(imports::call2_default(7, -1), (7, u64::MAX));
    assert_eq!(runtime_text(imports::call2_default_value(&mut env, 7, 1)), "Value doesnt exist");
    assert_eq!(runtime_text(imports::call3(&mut env, 1, 2, 3)), "illegal argument");
}
