//! The messages that the host sends to the engine.

use vstd::prelude::*;

use crate::codec::{is_value, same_text, tree_of};
use crate::contract_address::{decoded_address, ContractAddress};
use crate::contract_address::address_text;
use crate::integer::decimal_text;
use crate::json::{
    array, as_items, as_text, duplicate, fields_view, items_view, lemma_object_view,
    member, member_of, named, number, object, parse_u64, text_of, u64_of, Json, JsonView, Member,
    MemberView,
};
use crate::ticket::{encode_tickets, tickets_wire};
use crate::outgoing::{sets_view, Init, SetOwned, SetView};
use crate::ticket::{decode_tickets, tickets_of, tickets_view, Tickets};

verus! {

/// The gas limit of an invocation that names none.
pub fn def() -> (limit: u64)
    ensures
        limit == u64::MAX,
{
    u64::MAX
}

/// What a transaction asks for. Values stand here as their documents: they
/// become values in the arena of the invocation that uses them.
#[derive(Debug)]
pub enum Operation {
    Originate { module: String, constants: Vec<(i32, Json)>, initial_storage: Json },
    Invoke { address: ContractAddress, argument: Json, gas_limit: u64 },
    Transfer { address: String, tickets: Tickets },
}

/// What an operation says.
pub enum OperationView {
    Originate { module: Seq<char>, constants: Seq<(i32, JsonView)>, initial_storage: JsonView },
    Invoke { address: Seq<u8>, argument: JsonView, gas_limit: u64 },
    Transfer { address: Seq<char>, tickets: Seq<(JsonView, u64)> },
}

/// What a constant pool holds.
pub open spec fn constants_view(constants: Seq<(i32, Json)>) -> Seq<(i32, JsonView)> {
    Seq::new(constants.len(), |i: int| (constants[i].0, constants[i].1@))
}

impl View for Operation {
    type V = OperationView;

    open spec fn view(&self) -> OperationView {
        match self {
            Operation::Originate { module, constants, initial_storage } => OperationView::Originate {
                module: module@,
                constants: constants_view(constants@),
                initial_storage: initial_storage@,
            },
            Operation::Invoke { address, argument, gas_limit } => OperationView::Invoke {
                address: address@,
                argument: argument@,
                gas_limit: *gas_limit,
            },
            Operation::Transfer { address, tickets } => OperationView::Transfer {
                address: address@,
                tickets: tickets_view(tickets@),
            },
        }
    }
}

/// A transaction from the host.
#[derive(Debug)]
pub struct Transaction {
    pub source: String,
    /// Who sends the transaction, where it is not the source: the contract
    /// that a follow-on transaction comes from.
    pub sender: Option<String>,
    /// The JSON text of the operation.
    pub operation: String,
    pub operation_raw_hash: String,
    pub tickets: Tickets,
}

/// What a transaction says.
pub struct TransactionView {
    pub source: Seq<char>,
    pub sender: Option<Seq<char>>,
    pub operation: Seq<char>,
    pub operation_raw_hash: Seq<char>,
    pub tickets: Seq<(JsonView, u64)>,
}

impl View for Transaction {
    type V = TransactionView;

    open spec fn view(&self) -> TransactionView {
        TransactionView {
            source: self.source@,
            sender: match self.sender {
                Some(s) => Some(s@),
                None => None,
            },
            operation: self.operation@,
            operation_raw_hash: self.operation_raw_hash@,
            tickets: tickets_view(self.tickets@),
        }
    }
}

/// A message from the host to the engine.
#[derive(Debug)]
pub enum ClientMessage {
    Transaction(Transaction),
    SetOwned(SetOwned),
    GetInitialState,
    SetInitialState(Init),
    Get(ContractAddress),
    GiveTickets(Tickets),
}

/// What a message from the host says.
pub enum ClientView {
    Transaction(TransactionView),
    SetOwned(SetView),
    GetInitialState,
    SetInitialState(Seq<SetView>),
    Get(Seq<u8>),
    GiveTickets(Seq<(JsonView, u64)>),
}

impl View for ClientMessage {
    type V = ClientView;

    open spec fn view(&self) -> ClientView {
        match self {
            ClientMessage::Transaction(t) => ClientView::Transaction(t@),
            ClientMessage::SetOwned(entry) => ClientView::SetOwned(entry@),
            ClientMessage::GetInitialState => ClientView::GetInitialState,
            ClientMessage::SetInitialState(init) => ClientView::SetInitialState(sets_view(init.0@)),
            ClientMessage::Get(address) => ClientView::Get(address@),
            ClientMessage::GiveTickets(tickets) => ClientView::GiveTickets(tickets_view(tickets@)),
        }
    }
}

/// The text of the member of an object with the given name, if the member
/// is a string.
pub open spec fn text_member(j: JsonView, name: Seq<char>) -> Option<Seq<char>> {
    match member_of(j, name) {
        Some(found) => text_of(found),
        None => None,
    }
}

/// The text of the member of an object with the given name.
fn member_text<'a>(j: &'a Json, name: &str) -> (r: Option<&'a String>)
    ensures
        match text_member(j@, name@) {
            Some(s) => r.is_some() && r.unwrap()@ == s,
            None => r.is_none(),
        },
{
    match member(j, name) {
        Some(found) => as_text(found),
        None => None,
    }
}

/// The address that a text stands for.
pub open spec fn address_of(text: Seq<char>) -> Option<Seq<u8>> {
    match decoded_address(text) {
        Ok(bytes) => Some(bytes),
        Err(_) => None,
    }
}

fn read_address(text: &str) -> (r: Option<ContractAddress>)
    ensures
        match address_of(text@) {
            Some(bytes) => r.is_some() && r.unwrap()@ == bytes,
            None => r.is_none(),
        },
{
    match ContractAddress::from_text(text) {
        Ok(address) => Some(address),
        Err(_) => None,
    }
}

/// The transaction that a document is read as: an object with the texts
/// `source`, `operation` and `operation_raw_hash` and the tickets `tickets`,
/// each with an amount of at most 32 bits.
pub open spec fn transaction_of(j: JsonView) -> Option<TransactionView> {
    match (
        text_member(j, "source"@),
        text_member(j, "operation"@),
        text_member(j, "operation_raw_hash"@),
        member_of(j, "tickets"@),
    ) {
        (Some(source), Some(operation), Some(hash), Some(tickets)) => match tickets_of(
            tickets,
            u32::MAX as u64,
        ) {
            Some(tickets) => Some(
                TransactionView {
                    source,
                    sender: None,
                    operation,
                    operation_raw_hash: hash,
                    tickets,
                },
            ),
            None => None,
        },
        _ => None,
    }
}

/// Reads a transaction.
pub fn decode_transaction(j: &Json) -> (r: Option<Transaction>)
    ensures
        match transaction_of(j@) {
            Some(t) => r.is_some() && r.unwrap()@ == t,
            None => r.is_none(),
        },
{
    let source = member_text(j, "source")?;
    let operation = member_text(j, "operation")?;
    let hash = member_text(j, "operation_raw_hash")?;
    let tickets = decode_tickets(member(j, "tickets")?, u32::MAX as u64)?;
    Some(
        Transaction {
            source: source.clone(),
            sender: None,
            operation: operation.clone(),
            operation_raw_hash: hash.clone(),
            tickets,
        },
    )
}

/// The table entry that a document is read as: an object with the text of
/// an address as `key` and a text as `value`.
pub open spec fn set_of(j: JsonView) -> Option<SetView> {
    match (text_member(j, "key"@), text_member(j, "value"@)) {
        (Some(key), Some(value)) => match address_of(key) {
            Some(bytes) => Some(SetView { key: bytes, value }),
            None => None,
        },
        _ => None,
    }
}

/// Reads an entry of the contract table.
pub fn decode_set(j: &Json) -> (r: Option<SetOwned>)
    ensures
        match set_of(j@) {
            Some(entry) => r.is_some() && r.unwrap()@ == entry,
            None => r.is_none(),
        },
{
    let key = read_address(member_text(j, "key")?.as_str())?;
    let value = member_text(j, "value")?;
    Some(SetOwned { key, value: value.clone() })
}

/// The table entries that the first `n` members of an object are read as:
/// each member the text of an address as its name and a text as its value.
pub open spec fn init_from(fields: Seq<MemberView>, n: nat) -> Option<Seq<SetView>>
    decreases n,
{
    if n == 0 || n > fields.len() {
        Some(Seq::empty())
    } else {
        match (
            init_from(fields, (n - 1) as nat),
            address_of(fields[n - 1].name),
            text_of(fields[n - 1].value),
        ) {
            (Some(before), Some(key), Some(value)) => Some(before.push(SetView { key, value })),
            _ => None,
        }
    }
}

/// The contract table that a document is read as.
pub open spec fn init_of(j: JsonView) -> Option<Seq<SetView>> {
    match j {
        JsonView::Object(fields) => init_from(fields, fields.len()),
        _ => None,
    }
}

pub proof fn lemma_init_fails(fields: Seq<MemberView>, n: nat)
    requires
        n <= fields.len(),
        init_from(fields, n).is_none(),
    ensures
        init_from(fields, fields.len()).is_none(),
    decreases fields.len() - n,
{
    if n < fields.len() {
        lemma_init_fails(fields, n + 1);
    }
}

/// Reads a contract table.
pub fn decode_init(j: &Json) -> (r: Option<Init>)
    ensures
        match init_of(j@) {
            Some(entries) => r.is_some() && sets_view(r.unwrap().0@) == entries,
            None => r.is_none(),
        },
{
    let fields = match j {
        Json::Object(fields) => fields,
        _ => {
            return None;
        },
    };
    proof {
        lemma_object_view(*fields);
    }
    let ghost wire = fields_view(fields@);
    let mut entries: Vec<SetOwned> = Vec::new();
    let mut i: usize = 0;
    assert(sets_view(entries@) =~= Seq::<SetView>::empty());
    while i < fields.len()
        invariant
            i <= fields.len(),
            wire == fields_view(fields@),
            j@ == JsonView::Object(wire),
            init_from(wire, i as nat) == Some(sets_view(entries@)),
        decreases fields.len() - i,
    {
        let ghost before = sets_view(entries@);
        let key = match read_address(fields[i].name.as_str()) {
            Some(key) => key,
            None => {
                proof {
                    lemma_init_fails(wire, i as nat + 1);
                }
                return None;
            },
        };
        let value = match as_text(&fields[i].value) {
            Some(value) => value.clone(),
            None => {
                proof {
                    lemma_init_fails(wire, i as nat + 1);
                }
                return None;
            },
        };
        let ghost entry = SetView { key: key@, value: value@ };
        entries.push(SetOwned { key, value });
        i = i + 1;
        assert(sets_view(entries@) =~= before.push(entry));
    }
    Some(Init(entries))
}

/// The message that a document is read as: a tagged tuple of one of the
/// tags `Transaction`, `Set`, `Get_Initial_State`, `Set_Initial_State`,
/// `Get` and `Give_Tickets`, with what the tag asks for behind it.
pub open spec fn client_message_of(j: JsonView) -> Option<ClientView> {
    if !(j is Array) || j->Array_0.len() == 0 || !(j->Array_0[0] is String) {
        None
    } else {
        let items = j->Array_0;
        let tag = items[0]->String_0;
        if tag == "Get_Initial_State"@ {
            if items.len() == 1 {
                Some(ClientView::GetInitialState)
            } else {
                None
            }
        } else if items.len() != 2 {
            None
        } else if tag == "Set"@ {
            match set_of(items[1]) {
                Some(entry) => Some(ClientView::SetOwned(entry)),
                None => None,
            }
        } else if tag == "Give_Tickets"@ {
            match tickets_of(items[1], u32::MAX as u64) {
                Some(tickets) => Some(ClientView::GiveTickets(tickets)),
                None => None,
            }
        } else if tag == "Transaction"@ {
            match transaction_of(items[1]) {
                Some(t) => Some(ClientView::Transaction(t)),
                None => None,
            }
        } else if tag == "Get"@ {
            match text_of(items[1]) {
                Some(text) => match address_of(text) {
                    Some(bytes) => Some(ClientView::Get(bytes)),
                    None => None,
                },
                None => None,
            }
        } else if tag == "Set_Initial_State"@ {
            match init_of(items[1]) {
                Some(entries) => Some(ClientView::SetInitialState(entries)),
                None => None,
            }
        } else {
            None
        }
    }
}

impl ClientMessage {
    /// Reads a message from the host.
    pub fn deserialize(j: &Json) -> (r: Option<ClientMessage>)
        ensures
            match client_message_of(j@) {
                Some(m) => r.is_some() && r.unwrap()@ == m,
                None => r.is_none(),
            },
    {
        let items = as_items(j)?;
        if items.len() == 0 {
            return None;
        }
        let tag = as_text(&items[0])?.as_str();
        assert(j@->Array_0[0] == JsonView::String(tag@));
        if same_text(tag, "Get_Initial_State") {
            if items.len() == 1 {
                return Some(ClientMessage::GetInitialState);
            }
            return None;
        }
        if items.len() != 2 {
            return None;
        }
        let payload = &items[1];
        assert(j@->Array_0[1] == payload@);
        if same_text(tag, "Set") {
            Some(ClientMessage::SetOwned(decode_set(payload)?))
        } else if same_text(tag, "Give_Tickets") {
            Some(ClientMessage::GiveTickets(decode_tickets(payload, u32::MAX as u64)?))
        } else if same_text(tag, "Transaction") {
            Some(ClientMessage::Transaction(decode_transaction(payload)?))
        } else if same_text(tag, "Get") {
            Some(ClientMessage::Get(read_address(as_text(payload)?.as_str())?))
        } else if same_text(tag, "Set_Initial_State") {
            Some(ClientMessage::SetInitialState(decode_init(payload)?))
        } else {
            None
        }
    }
}

/// The constants that the first `n` documents of a sequence are read as:
/// each an array of an index of at most 31 bits and a document that is read
/// as a value.
pub open spec fn constants_from(items: Seq<JsonView>, n: nat) -> Option<Seq<(i32, JsonView)>>
    decreases n,
{
    if n == 0 || n > items.len() {
        Some(Seq::empty())
    } else {
        match (constants_from(items, (n - 1) as nat), constant_of(items[n - 1])) {
            (Some(before), Some(last)) => Some(before.push(last)),
            _ => None,
        }
    }
}

/// The constant that a document is read as.
pub open spec fn constant_of(j: JsonView) -> Option<(i32, JsonView)> {
    match j {
        JsonView::Array(pair) => if pair.len() == 2 && tree_of(pair[1]).is_some() {
            match pair[0] {
                JsonView::Number(text) => match u64_of(text) {
                    Some(index) => if index <= i32::MAX as u64 {
                        Some((index as i32, pair[1]))
                    } else {
                        None
                    },
                    None => None,
                },
                _ => None,
            }
        } else {
            None
        },
        _ => None,
    }
}

pub proof fn lemma_constants_fail(items: Seq<JsonView>, n: nat)
    requires
        n <= items.len(),
        constants_from(items, n).is_none(),
    ensures
        constants_from(items, items.len()).is_none(),
    decreases items.len() - n,
{
    if n < items.len() {
        lemma_constants_fail(items, n + 1);
    }
}

/// The constant pool that a document is read as.
pub open spec fn constants_of(j: JsonView) -> Option<Seq<(i32, JsonView)>> {
    match j {
        JsonView::Array(items) => constants_from(items, items.len()),
        _ => None,
    }
}

/// Reads a constant pool.
pub fn decode_constants(j: &Json) -> (r: Option<Vec<(i32, Json)>>)
    ensures
        match constants_of(j@) {
            Some(constants) => r.is_some() && constants_view(r.unwrap()@) == constants,
            None => r.is_none(),
        },
{
    let items = as_items(j)?;
    let ghost wire = items_view(items@);
    let mut constants: Vec<(i32, Json)> = Vec::new();
    let mut i: usize = 0;
    assert(constants_view(constants@) =~= Seq::<(i32, JsonView)>::empty());
    while i < items.len()
        invariant
            i <= items.len(),
            wire == items_view(items@),
            j@ == JsonView::Array(wire),
            constants_from(wire, i as nat) == Some(constants_view(constants@)),
        decreases items.len() - i,
    {
        let ghost before = constants_view(constants@);
        let pair = match as_items(&items[i]) {
            Some(pair) => pair,
            None => {
                proof {
                    lemma_constants_fail(wire, i as nat + 1);
                }
                return None;
            },
        };
        if pair.len() != 2 || !is_value(&pair[1]) {
            proof {
                lemma_constants_fail(wire, i as nat + 1);
            }
            return None;
        }
        let index = match &pair[0] {
            Json::Number(text) => match parse_u64(text.as_str()) {
                Some(index) => index,
                None => {
                    proof {
                        lemma_constants_fail(wire, i as nat + 1);
                    }
                    return None;
                },
            },
            _ => {
                proof {
                    lemma_constants_fail(wire, i as nat + 1);
                }
                return None;
            },
        };
        if index > i32::MAX as u64 {
            proof {
                lemma_constants_fail(wire, i as nat + 1);
            }
            return None;
        }
        constants.push((index as i32, duplicate(&pair[1])));
        i = i + 1;
        assert(constants_view(constants@) =~= before.push((index as i32, pair@[1]@)));
    }
    Some(constants)
}

/// The gas limit that the content of an invocation names: that of its
/// member `gas_limit`, or the greatest there is where it has no such
/// member.
pub open spec fn gas_limit_of(content: JsonView) -> Option<u64> {
    match member_of(content, "gas_limit"@) {
        None => Some(u64::MAX),
        Some(JsonView::Number(text)) => u64_of(text),
        Some(_) => None,
    }
}

/// The operation that a document is read as: an object with the kind of
/// the operation as `type_` and what the kind asks for as `content`.
pub open spec fn operation_of(j: JsonView) -> Option<OperationView> {
    match (text_member(j, "type_"@), member_of(j, "content"@)) {
        (Some(kind), Some(content)) => if kind == "Originate"@ {
            match (
                text_member(content, "module"@),
                member_of(content, "constants"@),
                member_of(content, "initial_storage"@),
            ) {
                (Some(module), Some(constants), Some(storage)) => match constants_of(constants) {
                    Some(constants) => if tree_of(storage).is_some() {
                        Some(
                            OperationView::Originate {
                                module,
                                constants,
                                initial_storage: storage,
                            },
                        )
                    } else {
                        None
                    },
                    None => None,
                },
                _ => None,
            }
        } else if kind == "Invoke"@ {
            match (
                text_member(content, "address"@),
                member_of(content, "argument"@),
                gas_limit_of(content),
            ) {
                (Some(address), Some(argument), Some(gas_limit)) => match address_of(address) {
                    Some(bytes) => if tree_of(argument).is_some() {
                        Some(OperationView::Invoke { address: bytes, argument, gas_limit })
                    } else {
                        None
                    },
                    None => None,
                },
                _ => None,
            }
        } else if kind == "Transfer"@ {
            match (text_member(content, "address"@), member_of(content, "tickets"@)) {
                (Some(address), Some(tickets)) => match tickets_of(tickets, u32::MAX as u64) {
                    Some(tickets) => Some(OperationView::Transfer { address, tickets }),
                    None => None,
                },
                _ => None,
            }
        } else {
            None
        },
        _ => None,
    }
}

impl Operation {
    /// Reads an operation.
    pub fn deserialize(j: &Json) -> (r: Option<Operation>)
        ensures
            match operation_of(j@) {
                Some(op) => r.is_some() && r.unwrap()@ == op,
                None => r.is_none(),
            },
    {
        let kind = member_text(j, "type_")?.as_str();
        let content = member(j, "content")?;
        if same_text(kind, "Originate") {
            let module = member_text(content, "module")?;
            let constants = decode_constants(member(content, "constants")?)?;
            let storage = member(content, "initial_storage")?;
            if !is_value(storage) {
                return None;
            }
            Some(
                Operation::Originate {
                    module: module.clone(),
                    constants,
                    initial_storage: duplicate(storage),
                },
            )
        } else if same_text(kind, "Invoke") {
            let address = member_text(content, "address")?;
            let argument = member(content, "argument")?;
            let gas_limit = match member(content, "gas_limit") {
                None => def(),
                Some(Json::Number(text)) => parse_u64(text.as_str())?,
                Some(_) => {
                    return None;
                },
            };
            let address = read_address(address.as_str())?;
            if !is_value(argument) {
                return None;
            }
            Some(Operation::Invoke { address, argument: duplicate(argument), gas_limit })
        } else if same_text(kind, "Transfer") {
            let address = member_text(content, "address")?;
            let tickets = decode_tickets(member(content, "tickets")?, u32::MAX as u64)?;
            Some(Operation::Transfer { address: address.clone(), tickets })
        } else {
            None
        }
    }
}


/// The documents of a constant pool: each constant an array of its index
/// and its document.
pub open spec fn constants_wire(constants: Seq<(i32, JsonView)>) -> Seq<JsonView> {
    Seq::new(
        constants.len(),
        |i: int|
            JsonView::Array(
                seq![JsonView::Number(decimal_text(constants[i].0 as int)), constants[i].1],
            ),
    )
}

/// The document of an operation: an object of its kind as `type_` and what
/// it asks for as `content`.
pub open spec fn operation_wire(op: OperationView) -> JsonView {
    match op {
        OperationView::Originate { module, constants, initial_storage } => kind_and_content(
            "Originate"@,
            seq![
                MemberView { name: "module"@, value: JsonView::String(module) },
                MemberView {
                    name: "constants"@,
                    value: JsonView::Array(constants_wire(constants)),
                },
                MemberView { name: "initial_storage"@, value: initial_storage },
            ],
        ),
        OperationView::Invoke { address, argument, gas_limit } => kind_and_content(
            "Invoke"@,
            seq![
                MemberView { name: "address"@, value: JsonView::String(address_text(address)) },
                MemberView { name: "argument"@, value: argument },
                MemberView {
                    name: "gas_limit"@,
                    value: JsonView::Number(decimal_text(gas_limit as int)),
                },
            ],
        ),
        OperationView::Transfer { address, tickets } => kind_and_content(
            "Transfer"@,
            seq![
                MemberView { name: "address"@, value: JsonView::String(address) },
                MemberView { name: "tickets"@, value: JsonView::Array(tickets_wire(tickets)) },
            ],
        ),
    }
}

/// An object of a kind as `type_` and an object of the given members as
/// `content`.
pub open spec fn kind_and_content(kind: Seq<char>, content: Seq<MemberView>) -> JsonView {
    JsonView::Object(
        seq![
            MemberView { name: "type_"@, value: JsonView::String(kind) },
            MemberView { name: "content"@, value: JsonView::Object(content) },
        ],
    )
}

/// An object of a kind and a content.
fn wrap_content(kind: &str, content: Vec<Member>) -> (r: Json)
    ensures
        r@ == kind_and_content(kind@, fields_view(content@)),
{
    let mut members: Vec<Member> = Vec::new();
    members.push(named("type_", Json::String(kind.to_string())));
    members.push(named("content", object(content)));
    assert(fields_view(members@) =~= kind_and_content(kind@, fields_view(content@))->Object_0);
    object(members)
}

impl Operation {
    /// Writes the operation as a document.
    pub fn serialize(&self) -> (r: Json)
        ensures
            r@ == operation_wire(self@),
    {
        let mut content: Vec<Member> = Vec::new();
        match self {
            Operation::Originate { module, constants, initial_storage } => {
                let mut items: Vec<Json> = Vec::new();
                let mut i: usize = 0;
                while i < constants.len()
                    invariant
                        i <= constants.len(),
                        items@.len() == i,
                        forall|k: int|
                            0 <= k < i ==> (#[trigger] items@[k])@ == constants_wire(
                                constants_view(constants@),
                            )[k],
                    decreases constants.len() - i,
                {
                    let mut pair: Vec<Json> = Vec::new();
                    let index = constants[i].0;
                    pair.push(Json::Number(crate::integer::Integer::from_i64(index as i64).to_decimal()));
                    pair.push(duplicate(&constants[i].1));
                    assert(items_view(pair@) =~= seq![
                        JsonView::Number(decimal_text(index as int)),
                        constants@[i as int].1@,
                    ]);
                    items.push(array(pair));
                    i = i + 1;
                }
                assert(items_view(items@) =~= constants_wire(constants_view(constants@)));
                content.push(named("module", Json::String(module.clone())));
                content.push(named("constants", array(items)));
                content.push(named("initial_storage", duplicate(initial_storage)));
                assert(fields_view(content@) =~= seq![
                    MemberView { name: "module"@, value: JsonView::String(module@) },
                    MemberView {
                        name: "constants"@,
                        value: JsonView::Array(constants_wire(constants_view(constants@))),
                    },
                    MemberView { name: "initial_storage"@, value: initial_storage@ },
                ]);
                wrap_content("Originate", content)
            },
            Operation::Invoke { address, argument, gas_limit } => {
                content.push(named("address", Json::String(address.to_text())));
                content.push(named("argument", duplicate(argument)));
                content.push(named("gas_limit", number(*gas_limit)));
                assert(fields_view(content@) =~= seq![
                    MemberView {
                        name: "address"@,
                        value: JsonView::String(address_text(address@)),
                    },
                    MemberView { name: "argument"@, value: argument@ },
                    MemberView {
                        name: "gas_limit"@,
                        value: JsonView::Number(decimal_text(*gas_limit as int)),
                    },
                ]);
                wrap_content("Invoke", content)
            },
            Operation::Transfer { address, tickets } => {
                content.push(named("address", Json::String(address.clone())));
                content.push(named("tickets", encode_tickets(tickets)));
                assert(fields_view(content@) =~= seq![
                    MemberView { name: "address"@, value: JsonView::String(address@) },
                    MemberView {
                        name: "tickets"@,
                        value: JsonView::Array(tickets_wire(tickets_view(tickets@))),
                    },
                ]);
                wrap_content("Transfer", content)
            },
        }
    }
}

} // verus!
