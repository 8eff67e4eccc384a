use vm_library::arena::Arena;
use vm_library::env::{populate_predef, push_constants, Context, Lifecycle};
use vm_library::errors::VmError;
use vm_library::integer::Integer;
use vm_library::value::Value;

fn fresh_context() -> Context {
    let predef = populate_predef("sender".to_string(), "self".to_string(), "source".to_string());
    Context::new(Arena::new(), predef, vec![])
}

fn ready_context(gas: u64) -> Context {
    let mut env = fresh_context();
    env.set_instance();
    env.set_pusher();
    env.set_gas_left(gas).unwrap();
    env
}

#[test]
fn context_starts_uninitialized() {
    let env = fresh_context();
    assert_eq!(env.state, Lifecycle::Uninitialized);
    assert_eq!(env.gas_left, 0);
    assert!(env.pushed.is_empty());
    assert!(matches!(env.with_instance(), Err(VmError::InstantiationErr(_))));
}

#[test]
fn context_walks_through_its_life_cycle_in_order() {
    let mut env = fresh_context();
    env.set_pusher();
    assert_eq!(env.state, Lifecycle::Uninitialized);
    assert!(env.set_gas_left(5).is_err());
    assert_eq!(env.state, Lifecycle::Uninitialized);
    env.set_instance();
    assert_eq!(env.state, Lifecycle::InstanceBound);
    assert!(env.with_instance().is_ok());
    assert!(env.set_gas_left(5).is_err());
    env.set_pusher();
    assert_eq!(env.state, Lifecycle::CallbacksBound);
    env.set_instance();
    assert_eq!(env.state, Lifecycle::CallbacksBound);
    env.set_gas_left(5).unwrap();
    assert_eq!(env.state, Lifecycle::Ready);
    assert_eq!(env.get_gas_left().unwrap(), 5);
    env.set_gas_left(9).unwrap();
    assert_eq!(env.get_gas_left().unwrap(), 9);
    env.consume();
    assert_eq!(env.state, Lifecycle::Consumed);
    env.set_instance();
    assert_eq!(env.state, Lifecycle::Consumed);
    assert!(env.set_gas_left(1).is_err());
    assert!(env.with_instance().is_err());
}

#[test]
fn context_refuses_gas_and_pushes_before_it_is_ready() {
    let mut env = fresh_context();
    match env.update_gas(1) {
        Err(VmError::InstantiationErr(text)) => assert_eq!(text, "instance missing, lifecycle error"),
        other => panic!("{:?}", other),
    }
    match env.push_value(1) {
        Err(VmError::InstantiationErr(text)) => assert_eq!(text, "pusher missing, lifecycle error"),
        other => panic!("{:?}", other),
    }
    match env.get_gas_left() {
        Err(VmError::InstantiationErr(text)) => assert_eq!(text, "instance missing, lifecycle error"),
        other => panic!("{:?}", other),
    }
    env.set_instance();
    env.set_pusher();
    assert!(env.update_gas(0).is_err());
    assert!(env.pushed.is_empty());
}

#[test]
fn gas_after_debits_is_initial_less_their_sum() {
    let mut env = ready_context(1000);
    let costs = [300u64, 0, 1, 299, 150];
    let mut sum = 0;
    for c in costs {
        env.update_gas(c).unwrap();
        sum += c;
        assert_eq!(env.get_gas_left().unwrap(), 1000 - sum);
    }
    assert_eq!(env.get_gas_left().unwrap(), 250);
}

#[test]
fn gas_debit_beyond_what_is_left_fails_and_changes_nothing() {
    let mut env = ready_context(500);
    env.update_gas(300).unwrap();
    assert!(matches!(env.update_gas(201), Err(VmError::OutOfGas)));
    assert_eq!(env.get_gas_left().unwrap(), 200);
    env.update_gas(200).unwrap();
    assert_eq!(env.get_gas_left().unwrap(), 0);
    assert!(matches!(env.update_gas(1), Err(VmError::OutOfGas)));
    env.update_gas(0).unwrap();
}

#[test]
fn pushed_values_are_handed_out_oldest_first() {
    let mut env = ready_context(0);
    env.push_value(3).unwrap();
    env.push_value(-1).unwrap();
    env.push_value(7).unwrap();
    assert_eq!(env.take_pushed(), vec![3, -1, 7]);
    assert_eq!(env.take_pushed(), Vec::<i64>::new());
}

#[test]
fn bump_and_get_move_values_through_the_arena() {
    let mut env = fresh_context();
    let h = env.bump(Value::Bool(true));
    let k = env.bump_raw(Value::Unit);
    assert_ne!(h, k);
    assert_eq!(env.get_ref(h).unwrap(), &Value::Bool(true));
    assert_eq!(env.get(h).unwrap(), Value::Bool(true));
    match env.get(h) {
        Err(VmError::RuntimeErr(text)) => assert_eq!(text, "Value doesnt exist"),
        other => panic!("{:?}", other),
    }
    assert!(env.get_ref(h).is_err());
    assert_eq!(env.get(k).unwrap(), Value::Unit);
}

#[test]
fn predef_holds_the_named_constants() {
    let predef = populate_predef("alice".to_string(), "contract".to_string(), "bob".to_string());
    assert_eq!(predef.nil, Value::List(im_rc::Vector::new()));
    assert_eq!(predef.unit, Value::Unit);
    assert_eq!(predef.empty_set, Value::OrdSet(vec![]));
    assert_eq!(predef.empty_map, Value::OrdMap(vec![]));
    assert_eq!(predef.zero, Value::Int(Integer::zero()));
    assert_eq!(predef.sender, Value::String("alice".to_string()));
    assert_eq!(predef.self_, Value::String("contract".to_string()));
    assert_eq!(predef.source, Value::String("bob".to_string()));
    assert_eq!(predef.none, Value::Option(None));
}

#[test]
fn constants_are_inserted_at_their_index() {
    let table = push_constants(vec![
        (0, Value::Bool(true)),
        (1, Value::Unit),
        (0, Value::Bool(false)),
        (3, Value::Option(None)),
    ])
    .unwrap();
    assert_eq!(
        table,
        vec![Value::Bool(false), Value::Bool(true), Value::Unit, Value::Option(None)]
    );
    assert_eq!(push_constants(vec![]).unwrap(), Vec::<Value>::new());
}

#[test]
fn constants_out_of_place_are_refused() {
    match push_constants(vec![(1, Value::Unit)]) {
        Err(VmError::GenericErr(text)) => assert_eq!(text, "constant index out of bounds"),
        other => panic!("{:?}", other),
    }
    assert!(push_constants(vec![(0, Value::Unit), (-1, Value::Unit)]).is_err());
    assert!(push_constants(vec![(0, Value::Unit), (2, Value::Unit)]).is_err());
}

#[test]
fn error_messages_name_what_went_wrong() {
    assert_eq!(VmError::OutOfGas.message(), "Ran out of gas during contract execution");
    assert_eq!(VmError::RuntimeErr("boom".to_string()).message(), "Error executing: boom");
    assert_eq!(VmError::Panic("p".to_string()).message(), "Panic: p");
    assert_eq!(VmError::CompileErr("c".to_string()).message(), "Error compiling Wasm: c");
    assert_eq!(VmError::GenericErr("g".to_string()).message(), "Generic error: g");
    assert_eq!(
        VmError::InstantiationErr("i".to_string()).message(),
        "Error instantiating a Wasm module: i"
    );
    assert_eq!(VmError::ExternErr("e".to_string()).message(), "Error resolving Wasm function: e");
    assert_eq!(VmError::DeserializeErr("d".to_string()).message(), "Error deserializing: d");
    assert_eq!(
        VmError::ResultMismatch { function_name: "main".to_string(), expected: 1, actual: 20 }
            .message(),
        "Unexpected number of result values when calling 'main'. Expected: 1, actual: 20."
    );
    assert_eq!(
        vm_library::errors::type_mismatch(Value::Unit, "type mismatch, expected Pair").message(),
        "Error in host/sandbox ffi: type mismatch, expected Pair"
    );
}
