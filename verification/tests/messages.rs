use vm_library::contract_address::ContractAddress;
use vm_library::json::{parse, render, Json};
use vm_library::outgoing::{InitVec, SetOwned};
use vm_library::ticket::{decode_tickets, encode_tickets, Ticket, TicketId};
use vm_library::vm_client::{def, ClientMessage, Operation, Transaction};
use vm_library::vm_server::{ServerMessage, TicketDeposit};

fn hello() -> ContractAddress {
    ContractAddress::new("hello".to_string())
}

const HELLO: &str = "DK1LNB6ywMbVCXXpaJZTfoefVvLj7msByGSg";

#[test]
fn server_messages_are_tagged_tuples() {
    assert_eq!(render(&ServerMessage::Stop.serialize()), r#"["Stop"]"#);
    assert_eq!(
        render(&ServerMessage::Error("boom".to_string()).serialize()),
        r#"["Error","boom"]"#
    );
    assert_eq!(
        render(&ServerMessage::TakeTickets(hello()).serialize()),
        format!(r#"["Take_tickets","{}"]"#, HELLO)
    );
    assert_eq!(
        render(&ServerMessage::SetOwned(SetOwned { key: hello(), value: "record".to_string() }).serialize()),
        format!(r#"["Set",{{"key":"{}","value":"record"}}]"#, HELLO)
    );
    assert_eq!(render(&ServerMessage::Init(InitVec(vec![])).serialize()), r#"["Init",[]]"#);
    assert_eq!(
        render(
            &ServerMessage::Init(InitVec(vec![
                SetOwned { key: hello(), value: "a".to_string() },
                SetOwned { key: ContractAddress::from_bytes(vec![0; 20]), value: "b".to_string() },
            ]))
            .serialize()
        ),
        format!(
            r#"["Init",[{{"key":"{}","value":"a"}},{{"key":"DK13qREbr3VjNbBcJfto3Y37hzFB6iyAUTMq","value":"b"}}]]"#,
            HELLO
        )
    );
    assert_eq!(
        render(
            &ServerMessage::DepositTickets(TicketDeposit {
                address: "tz1abc".to_string(),
                tickets: vec![(TicketId { id: Json::String("t".to_string()) }, 5)],
            })
            .serialize()
        ),
        r#"["Deposit_tickets",{"address":"tz1abc","tickets":[["t",5]]}]"#
    );
}

#[test]
fn client_messages_are_read_from_tagged_tuples() {
    match ClientMessage::deserialize(&parse(r#"["Get_Initial_State"]"#).unwrap()) {
        Some(ClientMessage::GetInitialState) => {}
        other => panic!("{:?}", other),
    }
    match ClientMessage::deserialize(&parse(&format!(r#"["Get","{}"]"#, HELLO)).unwrap()) {
        Some(ClientMessage::Get(address)) => assert_eq!(address, hello()),
        other => panic!("{:?}", other),
    }
    match ClientMessage::deserialize(
        &parse(&format!(r#"["Set",{{"value":"v","key":"{}","more":1}}]"#, HELLO)).unwrap(),
    ) {
        Some(ClientMessage::SetOwned(entry)) => {
            assert_eq!(entry.key, hello());
            assert_eq!(entry.value, "v");
        }
        other => panic!("{:?}", other),
    }
    match ClientMessage::deserialize(
        &parse(r#"["Give_Tickets",[[{"ticketer":"x","data":"y"},3],["plain",0]]]"#).unwrap(),
    ) {
        Some(ClientMessage::GiveTickets(tickets)) => {
            assert_eq!(tickets.len(), 2);
            assert_eq!(tickets[0].0.id, parse(r#"{"data":"y","ticketer":"x"}"#).unwrap());
            assert_eq!(tickets[0].1, 3);
            assert_eq!(tickets[1], (TicketId { id: Json::String("plain".to_string()) }, 0));
        }
        other => panic!("{:?}", other),
    }
    match ClientMessage::deserialize(
        &parse(&format!(r#"["Set_Initial_State",{{"{}":"record text"}}]"#, HELLO)).unwrap(),
    ) {
        Some(ClientMessage::SetInitialState(init)) => {
            assert_eq!(init.0.len(), 1);
            assert_eq!(init.0[0].key, hello());
            assert_eq!(init.0[0].value, "record text");
        }
        other => panic!("{:?}", other),
    }
    let text = r#"["Transaction",{"source":"tz1","operation":"{}","operation_raw_hash":"h","tickets":[["t",4294967295]]}]"#;
    match ClientMessage::deserialize(&parse(text).unwrap()) {
        Some(ClientMessage::Transaction(t)) => {
            assert_eq!(t.source, "tz1");
            assert_eq!(t.sender, None);
            assert_eq!(t.operation, "{}");
            assert_eq!(t.operation_raw_hash, "h");
            assert_eq!(t.tickets, vec![(TicketId { id: Json::String("t".to_string()) }, 4294967295)]);
        }
        other => panic!("{:?}", other),
    }
}

#[test]
fn client_messages_of_the_wrong_form_are_refused() {
    let bad = [
        r#"[]"#,
        r#"["Stop"]"#,
        r#"["Get_Initial_State",1]"#,
        r#"["Get"]"#,
        r#"["Get",5]"#,
        r#"["Get","not an address"]"#,
        r#"["Set",{"key":"zz","value":"v"}]"#,
        r#"["Set",{"key":"DK1LNB6ywMbVCXXpaJZTfoefVvLj7msByGSg"}]"#,
        r#"["Give_Tickets",[["t",-1]]]"#,
        r#"["Give_Tickets",[["t",4294967296]]]"#,
        r#"["Give_Tickets",[["t"]]]"#,
        r#"["Give_Tickets",{}]"#,
        r#"["Set_Initial_State",{"nope":"record"}]"#,
        r#"["Set_Initial_State",{"DK1LNB6ywMbVCXXpaJZTfoefVvLj7msByGSg":5}]"#,
        r#"["Set_Initial_State",[]]"#,
        r#"["Transaction",{"source":"tz1","operation":"{}","tickets":[]}]"#,
        r#"["Transaction",{"source":1,"operation":"{}","operation_raw_hash":"h","tickets":[]}]"#,
        r#"["Transaction",[]]"#,
        r#"{"Transaction":{}}"#,
    ];
    for text in bad {
        assert!(ClientMessage::deserialize(&parse(text).unwrap()).is_none(), "{}", text);
    }
}

#[test]
fn operations_are_read_by_kind() {
    let text = format!(
        r#"{{"type_":"Invoke","content":{{"address":"{}","argument":["Int","5"],"gas_limit":1000}}}}"#,
        HELLO
    );
    match Operation::deserialize(&parse(&text).unwrap()) {
        Some(Operation::Invoke { address, argument, gas_limit }) => {
            assert_eq!(address, hello());
            assert_eq!(argument, parse(r#"["Int","5"]"#).unwrap());
            assert_eq!(gas_limit, 1000);
        }
        other => panic!("{:?}", other),
    }
    let text = format!(
        r#"{{"type_":"Invoke","content":{{"address":"{}","argument":["Unit"]}}}}"#,
        HELLO
    );
    match Operation::deserialize(&parse(&text).unwrap()) {
        Some(Operation::Invoke { gas_limit, .. }) => {
            assert_eq!(gas_limit, u64::MAX);
            assert_eq!(gas_limit, def());
        }
        other => panic!("{:?}", other),
    }
    let text = r#"{"type_":"Originate","content":{"module":"(module)","constants":[[0,["Unit"]],[1,["Int","2"]]],"initial_storage":["Int","0"]}}"#;
    match Operation::deserialize(&parse(text).unwrap()) {
        Some(Operation::Originate { module, constants, initial_storage }) => {
            assert_eq!(module, "(module)");
            assert_eq!(
                constants,
                vec![(0, parse(r#"["Unit"]"#).unwrap()), (1, parse(r#"["Int","2"]"#).unwrap())]
            );
            assert_eq!(initial_storage, parse(r#"["Int","0"]"#).unwrap());
        }
        other => panic!("{:?}", other),
    }
    let text = r#"{"type_":"Transfer","content":{"address":"tz1abc","tickets":[["t",1]]}}"#;
    match Operation::deserialize(&parse(text).unwrap()) {
        Some(Operation::Transfer { address, tickets }) => {
            assert_eq!(address, "tz1abc");
            assert_eq!(tickets.len(), 1);
        }
        other => panic!("{:?}", other),
    }
}

#[test]
fn operations_of_the_wrong_form_are_refused() {
    let bad = [
        r#"{}"#,
        r#"[]"#,
        r#"{"type_":"Invoke"}"#,
        r#"{"type_":"Burn","content":{}}"#,
        r#"{"type_":"Invoke","content":{"address":"nope","argument":["Unit"]}}"#,
        r#"{"type_":"Invoke","content":{"address":"DK1LNB6ywMbVCXXpaJZTfoefVvLj7msByGSg","argument":["Nope"]}}"#,
        r#"{"type_":"Invoke","content":{"address":"DK1LNB6ywMbVCXXpaJZTfoefVvLj7msByGSg","argument":["Unit"],"gas_limit":"1"}}"#,
        r#"{"type_":"Invoke","content":{"address":"DK1LNB6ywMbVCXXpaJZTfoefVvLj7msByGSg","argument":["Unit"],"gas_limit":-1}}"#,
        r#"{"type_":"Invoke","content":{"address":"DK1LNB6ywMbVCXXpaJZTfoefVvLj7msByGSg"}}"#,
        r#"{"type_":"Originate","content":{"module":"m","constants":[[0,["Nope"]]],"initial_storage":["Unit"]}}"#,
        r#"{"type_":"Originate","content":{"module":"m","constants":[[2147483648,["Unit"]]],"initial_storage":["Unit"]}}"#,
        r#"{"type_":"Originate","content":{"module":"m","constants":[],"initial_storage":["Nope"]}}"#,
        r#"{"type_":"Originate","content":{"module":5,"constants":[],"initial_storage":["Unit"]}}"#,
        r#"{"type_":"Transfer","content":{"address":"tz1","tickets":[["t",4294967296]]}}"#,
        r#"{"type_":"Transfer","content":{"address":5,"tickets":[]}}"#,
    ];
    for text in bad {
        assert!(Operation::deserialize(&parse(text).unwrap()).is_none(), "{}", text);
    }
}

#[test]
fn operations_written_are_read_back() {
    let ops = vec![
        Operation::Invoke {
            address: hello(),
            argument: parse(r#"["Pair",["Int","1"],["Unit"]]"#).unwrap(),
            gas_limit: 77,
        },
        Operation::Originate {
            module: "(module)".to_string(),
            constants: vec![(3, parse(r#"["Bool",true]"#).unwrap())],
            initial_storage: parse(r#"["Unit"]"#).unwrap(),
        },
        Operation::Transfer {
            address: "tz1abc".to_string(),
            tickets: vec![(TicketId { id: Json::Null }, 9)],
        },
    ];
    assert_eq!(
        render(&ops[0].serialize()),
        format!(
            r#"{{"type_":"Invoke","content":{{"address":"{}","argument":["Pair",["Int","1"],["Unit"]],"gas_limit":77}}}}"#,
            HELLO
        )
    );
    assert_eq!(
        render(&ops[1].serialize()),
        r#"{"type_":"Originate","content":{"module":"(module)","constants":[[3,["Bool",true]]],"initial_storage":["Unit"]}}"#
    );
    assert_eq!(
        render(&ops[2].serialize()),
        r#"{"type_":"Transfer","content":{"address":"tz1abc","tickets":[[null,9]]}}"#
    );
    for op in &ops {
        let back = Operation::deserialize(&parse(&render(&op.serialize())).unwrap()).unwrap();
        assert_eq!(render(&back.serialize()), render(&op.serialize()));
    }
}

#[test]
fn tickets_are_written_as_pairs_of_name_and_amount() {
    let tickets = vec![
        (TicketId { id: parse(r#"{"a":[1,2]}"#).unwrap() }, 0),
        (TicketId { id: Json::String("x".to_string()) }, u64::MAX),
    ];
    let wire = encode_tickets(&tickets);
    assert_eq!(render(&wire), r#"[[{"a":[1,2]},0],["x",18446744073709551615]]"#);
    assert_eq!(decode_tickets(&wire, u64::MAX), Some(tickets));
    assert_eq!(decode_tickets(&wire, u64::MAX - 1), None);
    assert_eq!(decode_tickets(&parse("[]").unwrap(), 0), Some(vec![]));
}

#[test]
fn a_ticket_is_plain_data() {
    let a = Ticket { owner: "o".to_string(), issuer: "i".to_string(), data: "d".to_string(), amount: 1 };
    let b = Ticket { owner: "o".to_string(), issuer: "i".to_string(), data: "d".to_string(), amount: 2 };
    assert!(a < b);
    assert_ne!(a, b);
    let t = Transaction {
        source: "s".to_string(),
        sender: None,
        operation: "{}".to_string(),
        operation_raw_hash: "h".to_string(),
        tickets: vec![],
    };
    assert_eq!(t.source, "s");
}
