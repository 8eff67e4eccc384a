use vm_library::arena::Arena;
use vm_library::contract_address::ContractAddress;
use vm_library::conversions::signed;
use vm_library::env::Lifecycle;
use vm_library::errors::VmError;
use vm_library::imports;
use vm_library::incoming::InvokeManaged;
use vm_library::instance::{conclude, invoke_managed};
use vm_library::integer::Integer;
use vm_library::json::{parse, render, Json};
use vm_library::outgoing::{Init, Outgoing, OutgoingManaged, SetOwned};
use vm_library::run_loop::{
    follow_on, new_contract, read_operation, report_failure, run_loop, Action, ExecutionState,
    Phase,
};
use vm_library::state::{ContractType, State};
use vm_library::ticket::TicketId;
use vm_library::value::{Union, Value};
use vm_library::vm_client::{ClientMessage, Operation, Transaction};
use vm_library::vm_server::ServerMessage;

fn whole(n: i64) -> Value {
    Value::Int(Integer::from_i64(n))
}

fn address(name: &str) -> ContractAddress {
    ContractAddress::new(name.to_string())
}

fn contract(name: &str, storage: &[u8]) -> ContractType {
    new_contract(name.to_string(), "tz1origin".to_string(), storage.to_vec(), vec![1, 2, 3], vec![])
}

fn invocation(arg: Value, storage: Value) -> InvokeManaged {
    InvokeManaged {
        arg,
        initial_storage: storage,
        constants: vec![],
        tickets: vec![],
        source: "tz1source".to_string(),
        sender: "tz1sender".to_string(),
        self_addr: "DK1self".to_string(),
        gas_limit: 10_000,
    }
}

fn payload(outgoing: Outgoing) -> OutgoingManaged {
    match outgoing {
        Outgoing::OutgoingManaged { payload } => *payload,
    }
}

#[test]
fn identity_contract_returns_its_argument() {
    // a contract whose entry point returns the pair that it is called with
    let mut arena = Arena::new();
    let fst = arena.insert(whole(5));
    let snd = arena.insert(whole(0));
    let mut ready = invoke_managed(arena, invocation(Value::Pair { fst, snd }, Value::Unit)).unwrap();
    ready.env.set_instance();
    ready.env.set_pusher();
    ready.env.set_gas_left(ready.gas_limit).unwrap();
    // main(arg) = car(arg): the argument of the invocation, itself a pair
    let called_with = imports::call1(&mut ready.env, ready.main_arg).unwrap();
    let result = imports::car(&mut ready.env, called_with).unwrap();
    let out = payload(conclude(&mut ready.env, result).unwrap());
    assert_eq!(out.new_storage, whole(0));
    assert_eq!(out.operations, whole(5));
    assert_eq!(out.remaining_gas, 10_000 - 300);
    assert_eq!(ready.env.state, Lifecycle::Consumed);
}

#[test]
fn arithmetic_contract_adds_on_the_right() {
    // storage' = storage - n for Left(n), storage + n for Right(n)
    for (side_is_left, n, start, expected) in
        [(false, 3, 0, 3), (true, 3, 0, -3), (false, 10, 32, 42), (true, 2, 1, -1)]
    {
        let mut arena = Arena::new();
        let n_handle = arena.insert(whole(n));
        let arg = if side_is_left {
            Value::Union(Union::Left(n_handle))
        } else {
            Value::Union(Union::Right(n_handle))
        };
        let mut ready = invoke_managed(arena, invocation(arg, whole(start))).unwrap();
        let env = &mut ready.env;
        env.set_instance();
        env.set_pusher();
        env.set_gas_left(10_000).unwrap();
        // the guest: unpair the argument, branch on the side, add or subtract
        let called_with = imports::call1(env, ready.main_arg).unwrap();
        imports::unpair(env, called_with).unwrap();
        let stack = env.take_pushed();
        let (storage, param) = (stack[0], stack[1]);
        let choice = imports::call1(env, param).unwrap();
        let left = imports::is_left(env, choice).unwrap();
        let amount = env.take_pushed()[0];
        assert_eq!(left, if side_is_left { 1 } else { 0 });
        let (a, b) = imports::call2(env, storage, amount).unwrap();
        let sum = if left == 1 {
            imports::z_sub(env, a, b).unwrap()
        } else {
            imports::z_add(env, a, b).unwrap()
        };
        let ops = imports::nil(env).unwrap();
        let (o, s) = imports::call2(env, ops, sum).unwrap();
        let result = imports::pair(env, o, s).unwrap();
        let out = payload(conclude(env, result).unwrap());
        assert_eq!(out.new_storage, whole(expected));
        assert_eq!(out.operations, Value::List(im_rc::Vector::new()));
        assert_eq!(out.remaining_gas, 10_000 - 4 * 300);
    }
}

#[test]
fn invocation_stores_argument_and_storage_as_a_pair() {
    let ready = invoke_managed(Arena::new(), {
        let mut t = invocation(whole(1), whole(2));
        t.constants = vec![(0, Value::Bool(true))];
        t
    })
    .unwrap();
    assert_eq!(ready.env.state, Lifecycle::Uninitialized);
    assert_eq!(ready.gas_limit, 10_000);
    assert_eq!(ready.env.constants, vec![Value::Bool(true)]);
    assert_eq!(ready.env.predef.sender, Value::String("tz1sender".to_string()));
    assert_eq!(ready.env.predef.source, Value::String("tz1source".to_string()));
    assert_eq!(ready.env.predef.self_, Value::String("DK1self".to_string()));
    match ready.env.arena.get(vm_library::conversions::to_u64(ready.main_arg)) {
        Some(Value::Pair { fst, snd }) => {
            assert_eq!(ready.env.arena.get(*fst), Some(&whole(1)));
            assert_eq!(ready.env.arena.get(*snd), Some(&whole(2)));
        }
        other => panic!("{:?}", other),
    }
    let mut t = invocation(whole(1), whole(2));
    t.constants = vec![(5, Value::Unit)];
    assert!(matches!(invoke_managed(Arena::new(), t), Err(VmError::GenericErr(_))));
}

#[test]
fn results_that_are_no_pair_are_refused() {
    let mut ready = invoke_managed(Arena::new(), invocation(whole(1), whole(2))).unwrap();
    match conclude(&mut ready.env, 123456) {
        Err(VmError::RuntimeErr(text)) => assert_eq!(text, "Runtime Error, result not available"),
        other => panic!("{:?}", other),
    }
    let h = ready.env.bump(whole(5));
    match conclude(&mut ready.env, signed(h)) {
        Err(VmError::RuntimeErr(text)) => {
            assert_eq!(text, "Type mismatch in final result, result not available")
        }
        other => panic!("{:?}", other),
    }
    let h = ready.env.bump(Value::Pair { fst: 99, snd: 98 });
    match conclude(&mut ready.env, signed(h)) {
        Err(VmError::RuntimeErr(text)) => assert_eq!(text, "Value doesnt exist"),
        other => panic!("{:?}", other),
    }
    assert_eq!(ready.env.state, Lifecycle::Uninitialized);
}

#[test]
fn state_holds_one_record_for_each_address() {
    let mut state = State::new();
    assert!(state.set(address("a"), contract("a", b"1")).is_none());
    assert!(state.set(address("b"), contract("b", b"2")).is_none());
    let old = state.set(address("a"), contract("a", b"3")).unwrap();
    assert_eq!(old.storage, b"1");
    assert!(state.contains(&address("a")));
    assert!(!state.contains(&address("c")));
    assert_eq!(state.to_init().len(), 2);
    let taken = state.get(&address("a")).unwrap();
    assert_eq!(taken.storage, b"3");
    assert_eq!(taken.originated_by, "tz1origin");
    assert_eq!(taken.serialized_module, vec![1, 2, 3]);
    assert!(taken.eq(&contract("a", b"other storage")));
    assert!(!taken.eq(&contract("b", b"3")));
    assert!(state.get(&address("a")).is_none());
    assert!(state.contains(&address("b")));
    state.from_init(vec![
        (address("x"), contract("x", b"1")),
        (address("y"), contract("y", b"2")),
        (address("x"), contract("x", b"3")),
    ]);
    assert!(!state.contains(&address("b")));
    assert_eq!(state.get(&address("x")).unwrap().storage, b"3");
    assert_eq!(state.get(&address("y")).unwrap().storage, b"2");
    let mut c = contract("z", b"old");
    c.set_storage(b"new".to_vec());
    assert_eq!(c.storage, b"new");
    assert_eq!(c.self_, address("z"));
}

#[test]
fn invoking_an_absent_contract_fails_and_leaves_the_state_alone() {
    let mut state = State::new();
    state.set(address("there"), contract("there", b"s"));
    let mut exec = ExecutionState::new(state);
    let missing = address("hello");
    match exec.stage_invoke(&missing) {
        Err((ServerMessage::Error(text), VmError::RuntimeErr(error))) => {
            assert_eq!(text, "contract doesnt exist \"DK1LNB6ywMbVCXXpaJZTfoefVvLj7msByGSg\"");
            assert_eq!(error, "Error_ocured");
        }
        other => panic!("{:?}", other),
    }
    assert!(exec.to_revert.is_empty());
    assert!(exec.state.contains(&address("there")));
    assert!(!exec.state.contains(&missing));
    assert_eq!(exec.state.to_init().len(), 1);
    assert_eq!(exec.state.get(&address("there")).unwrap().storage, b"s");
}

#[test]
fn a_failed_invocation_is_reverted_and_reported() {
    let mut state = State::new();
    state.set(address("c"), contract("c", b"before"));
    let mut exec = ExecutionState::new(state);
    let staged = exec.stage_invoke(&address("c")).unwrap();
    assert_eq!(staged.storage, b"before");
    assert!(!exec.state.contains(&address("c")));
    assert_eq!(exec.to_revert.len(), 1);
    // the contract calls failwith("boom")
    let mut ready = invoke_managed(Arena::new(), invocation(whole(1), whole(2))).unwrap();
    ready.env.set_instance();
    ready.env.set_pusher();
    ready.env.set_gas_left(1000).unwrap();
    let error = imports::failwith(&mut ready.env, Value::String("boom".to_string())).unwrap_err();
    let (message, ends_with) = report_failure(&error);
    assert_eq!(render(&message.serialize()), r#"["Error","Error executing: boom"]"#);
    assert!(render(&message.serialize()).contains("boom"));
    assert!(matches!(ends_with, VmError::RuntimeErr(text) if text == "Error_ocured"));
    exec.revert();
    assert!(exec.to_revert.is_empty());
    assert_eq!(exec.state.get(&address("c")).unwrap().storage, b"before");
}

#[test]
fn a_successful_invocation_is_stored_and_committed() {
    let mut state = State::new();
    state.set(address("c"), contract("c", b"before"));
    let mut exec = ExecutionState::new(state);
    let mut staged = exec.stage_invoke(&address("c")).unwrap();
    staged.set_storage(b"after".to_vec());
    let message = exec.store_contract(address("c"), staged, "record".to_string());
    assert_eq!(
        render(&message.serialize()),
        format!(r#"["Set",{{"key":"{}","value":"record"}}]"#, address("c").to_text())
    );
    exec.commit();
    exec.revert();
    assert_eq!(exec.state.get(&address("c")).unwrap().storage, b"after");
}

#[test]
fn revert_puts_back_the_record_staged_last() {
    let mut state = State::new();
    state.set(address("c"), contract("c", b"v1"));
    state.set(address("d"), contract("d", b"w1"));
    let mut exec = ExecutionState::new(state);
    let mut c = exec.stage_invoke(&address("c")).unwrap();
    c.set_storage(b"v2".to_vec());
    exec.store_contract(address("c"), c, String::new());
    let mut c = exec.stage_invoke(&address("c")).unwrap();
    c.set_storage(b"v3".to_vec());
    exec.store_contract(address("c"), c, String::new());
    assert_eq!(exec.to_revert.len(), 2);
    exec.revert();
    assert_eq!(exec.state.get(&address("c")).unwrap().storage, b"v2");
    assert_eq!(exec.state.get(&address("d")).unwrap().storage, b"w1");
}

#[test]
fn the_dispatcher_starts_with_the_contract_table() {
    match run_loop(Phase::Starting, ClientMessage::GetInitialState) {
        (Phase::Starting, Action::Send(reply)) => {
            assert_eq!(render(&reply.serialize()), r#"["Init",[]]"#)
        }
        other => panic!("{:?}", other),
    }
    let init = Init(vec![SetOwned { key: address("a"), value: "r".to_string() }]);
    match run_loop(Phase::Starting, ClientMessage::SetInitialState(init)) {
        (Phase::Running, Action::Load(init)) => assert_eq!(init.0.len(), 1),
        other => panic!("{:?}", other),
    }
    assert!(matches!(
        run_loop(Phase::Starting, ClientMessage::Get(address("a"))),
        (Phase::Starting, Action::Unsupported)
    ));
    assert!(matches!(
        run_loop(Phase::Running, ClientMessage::GetInitialState),
        (Phase::Running, Action::Unsupported)
    ));
    let t = Transaction {
        source: "s".to_string(),
        sender: None,
        operation: "{}".to_string(),
        operation_raw_hash: "h".to_string(),
        tickets: vec![],
    };
    match run_loop(Phase::Running, ClientMessage::Transaction(t)) {
        (Phase::Running, Action::Handle(t)) => assert_eq!(t.source, "s"),
        other => panic!("{:?}", other),
    }
    let t = Transaction {
        source: "s".to_string(),
        sender: None,
        operation: "{}".to_string(),
        operation_raw_hash: "h".to_string(),
        tickets: vec![],
    };
    assert!(matches!(
        run_loop(Phase::Starting, ClientMessage::Transaction(t)),
        (Phase::Starting, Action::Unsupported)
    ));
}

#[test]
fn operations_that_cannot_be_read_are_reported() {
    let mut t = Transaction {
        source: "s".to_string(),
        sender: None,
        operation: r#"{"type_":"Transfer","content":{"address":"tz1","tickets":[]}}"#.to_string(),
        operation_raw_hash: "h".to_string(),
        tickets: vec![],
    };
    assert!(matches!(read_operation(&t), Ok(Operation::Transfer { .. })));
    for bad in ["", "{", r#"{"type_":"Nope","content":{}}"#, "[]"] {
        t.operation = bad.to_string();
        match read_operation(&t) {
            Err((ServerMessage::Error(text), VmError::DeserializeErr(error))) => {
                assert_eq!(text, "bad operation");
                assert_eq!(error, "Bad transaction");
            }
            other => panic!("{:?}", other),
        }
    }
}

#[test]
fn operations_returned_become_transactions() {
    let mut arena = Arena::new();
    let to_contract = arena.insert(Value::String(address("target").to_text()));
    let argument = arena.insert(whole(7));
    let first = arena.insert(Value::Pair { fst: to_contract, snd: argument });
    let to_wallet = arena.insert(Value::String("tz1wallet".to_string()));
    let unit = arena.insert(Value::Unit);
    let second = arena.insert(Value::Pair { fst: to_wallet, snd: unit });
    let mut items = im_rc::Vector::new();
    items.push_back(first);
    items.push_back(second);
    let ops = Value::List(items);
    let tickets = vec![(TicketId { id: Json::String("t".to_string()) }, 2)];
    let transactions = follow_on(
        &arena,
        &ops,
        &"tz1source".to_string(),
        &address("me"),
        &"hash".to_string(),
        500,
        tickets,
    )
    .unwrap();
    assert_eq!(transactions.len(), 2);
    assert_eq!(transactions[0].source, "tz1source");
    assert_eq!(transactions[0].sender, Some(address("me").to_text()));
    assert_eq!(transactions[0].operation_raw_hash, "hash");
    assert_eq!(transactions[0].tickets.len(), 1);
    assert_eq!(
        transactions[0].operation,
        format!(
            r#"{{"type_":"Invoke","content":{{"address":"{}","argument":["Int","7"],"gas_limit":500}}}}"#,
            address("target").to_text()
        )
    );
    assert_eq!(
        transactions[1].operation,
        r#"{"type_":"Transfer","content":{"address":"tz1wallet","tickets":[]}}"#
    );
    assert!(transactions[1].tickets.is_empty());
    assert!(matches!(read_operation(&transactions[0]), Ok(Operation::Invoke { gas_limit: 500, .. })));
    assert!(parse(&transactions[1].operation).is_some());
}

#[test]
fn a_transfer_that_comes_first_carries_the_tickets() {
    let mut arena = Arena::new();
    let to_wallet = arena.insert(Value::String("tz1wallet".to_string()));
    let unit = arena.insert(Value::Unit);
    let only = arena.insert(Value::Pair { fst: to_wallet, snd: unit });
    let mut items = im_rc::Vector::new();
    items.push_back(only);
    let tickets = vec![(TicketId { id: Json::String("t".to_string()) }, 2)];
    let transactions = follow_on(
        &arena,
        &Value::List(items),
        &"s".to_string(),
        &address("me"),
        &"h".to_string(),
        1,
        tickets,
    )
    .unwrap();
    assert_eq!(
        transactions[0].operation,
        r#"{"type_":"Transfer","content":{"address":"tz1wallet","tickets":[["t",2]]}}"#
    );
    assert_eq!(transactions[0].tickets.len(), 1);
}

#[test]
fn what_is_no_list_of_operations_gives_no_transactions_or_an_error() {
    let mut arena = Arena::new();
    let source = "s".to_string();
    let hash = "h".to_string();
    let me = address("me");
    assert!(follow_on(&arena, &Value::Unit, &source, &me, &hash, 1, vec![]).unwrap().is_empty());
    assert!(follow_on(&arena, &Value::List(im_rc::Vector::new()), &source, &me, &hash, 1, vec![])
        .unwrap()
        .is_empty());
    let no_pair = arena.insert(whole(1));
    let number = arena.insert(whole(2));
    let unit = arena.insert(Value::Unit);
    let bad_destination = arena.insert(Value::Pair { fst: number, snd: unit });
    let closure = arena.insert(Value::Closure { opt_arg: None, call: 1 });
    let text = arena.insert(Value::String("tz1".to_string()));
    let bad_payload = arena.insert(Value::Pair { fst: text, snd: closure });
    let dangling = arena.insert(Value::Pair { fst: text, snd: 424242 });
    for item in [no_pair, bad_destination, bad_payload, dangling, 999_999] {
        let mut items = im_rc::Vector::new();
        items.push_back(item);
        match follow_on(&arena, &Value::List(items), &source, &me, &hash, 1, vec![]) {
            Err(VmError::RuntimeErr(text)) => {
                assert_eq!(text, "bad transaction format from additional operations")
            }
            other => panic!("{:?}", other),
        }
    }
}
