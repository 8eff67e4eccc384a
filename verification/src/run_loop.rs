//! The decisions of the transaction dispatcher.
//!
//! Reading and writing messages, compiling modules and running them is done
//! around this library. What is decided in between is decided here: which
//! message is answered how, how the contract table changes with an
//! invocation, what is put back when a transaction fails, and which
//! transactions follow from what a contract returned.

use vstd::prelude::*;
use vstd::string::StringExecFns;

use crate::arena::Arena;
use crate::codec::{encode, encoded, MAX_DEPTH};
use crate::contract_address::{address_text, ContractAddress};
use crate::env::resolved;
use crate::errors::{error_text, runtime_error, ErrorView, VMResult, VmError};
use crate::json::{json_quoted, json_text, json_tree, parse, render, JsonView};
use crate::list::{list_get, list_items, list_len};
use crate::outgoing::{Init, InitVec, SetOwned, SetView};
use crate::state::{entries_view, held, ContractType, ContractView, State};
use crate::ticket::{copy_tickets, tickets_view, Tickets};
use crate::value::{Value, ValueView};
use crate::vm_client::{
    address_of, operation_of, operation_wire, ClientMessage, ClientView, Operation, OperationView,
    Transaction, TransactionView,
};
use crate::vm_server::{ServerMessage, ServerView};

verus! {

/// The text of a contract address.
pub fn contract_addr_to_string(c: &ContractAddress) -> (text: String)
    ensures
        text@ == address_text(c@),
{
    c.to_text()
}

/// Where the dispatcher stands.
#[derive(Debug, Clone, Copy, PartialEq, Eq, Structural)]
pub enum Phase {
    /// The contract table has not come yet.
    Starting,
    /// Transactions are taken.
    Running,
}

/// What the dispatcher does about a message.
#[derive(Debug)]
pub enum Action {
    /// Send the message to the host.
    Send(ServerMessage),
    /// Load the contract table.
    Load(Init),
    /// Handle the transaction.
    Handle(Transaction),
    /// The message has no place here.
    Unsupported,
}

/// What the dispatcher does about a message, and where it stands then.
/// While it starts, it answers a request for the contract table with an
/// empty table and loads the table that it is sent, which gets it running.
/// While it runs, it handles transactions. No other message has a place.
pub fn run_loop(phase: Phase, msg: ClientMessage) -> (r: (Phase, Action))
    ensures
        match (phase, msg@) {
            (Phase::Starting, ClientView::SetInitialState(entries)) => (r.1 matches Action::Load(
                init,
            ) && crate::outgoing::sets_view(init.0@) == entries) && r.0 == Phase::Running,
            (Phase::Starting, ClientView::GetInitialState) => (r.1 matches Action::Send(reply)
                && reply@ == ServerView::Init(Seq::empty())) && r.0 == Phase::Starting,
            (Phase::Running, ClientView::Transaction(t)) => (r.1 matches Action::Handle(taken)
                && taken@ == t) && r.0 == Phase::Running,
            _ => r.0 == phase && r.1 is Unsupported,
        },
{
    match phase {
        Phase::Starting => match msg {
            ClientMessage::SetInitialState(init) => (Phase::Running, Action::Load(init)),
            ClientMessage::GetInitialState => {
                let reply = ServerMessage::Init(InitVec(Vec::new()));
                assert(reply@->Init_0 =~= Seq::<SetView>::empty());
                (Phase::Starting, Action::Send(reply))
            },
            _ => (Phase::Starting, Action::Unsupported),
        },
        Phase::Running => match msg {
            ClientMessage::Transaction(t) => (Phase::Running, Action::Handle(t)),
            _ => (Phase::Running, Action::Unsupported),
        },
    }
}

/// The text of the error with which a failed transaction ends.
pub open spec fn error_occurred() -> Seq<char> {
    "Error_ocured"@
}

/// The message for a transaction whose operation cannot be read.
pub open spec fn bad_operation() -> Seq<char> {
    "bad operation"@
}

/// The text of the error for a transaction whose operation cannot be read.
pub open spec fn bad_transaction() -> Seq<char> {
    "Bad transaction"@
}

/// The operation that the text of a transaction's operation stands for.
pub open spec fn operation_in(text: Seq<char>) -> Option<OperationView> {
    match json_tree(text) {
        Some(j) => operation_of(j),
        None => None,
    }
}

/// Reads the operation of a transaction. Where it cannot be read, the host
/// is to be told so and the transaction fails.
pub fn read_operation(transaction: &Transaction) -> (r: Result<Operation, (ServerMessage, VmError)>)
    ensures
        match operation_in(transaction.operation@) {
            Some(op) => r matches Ok(read) && read@ == op,
            None => r matches Err(failure) && failure.0@ == ServerView::Error(bad_operation())
                && failure.1@ == ErrorView::DeserializeErr(bad_transaction()),
        },
{
    let parsed = match parse(transaction.operation.as_str()) {
        Some(j) => Operation::deserialize(&j),
        None => None,
    };
    match parsed {
        Some(op) => Ok(op),
        None => Err(
            (
                ServerMessage::Error("bad operation".to_string()),
                VmError::DeserializeErr("Bad transaction".to_string()),
            ),
        ),
    }
}

/// What the host is told about a failed invocation, and the error with
/// which the transaction ends.
pub fn report_failure(error: &VmError) -> (r: (ServerMessage, VmError))
    ensures
        r.0@ == ServerView::Error(error_text(error@)),
        r.1@ == ErrorView::RuntimeErr(error_occurred()),
{
    (ServerMessage::Error(error.message()), runtime_error("Error_ocured"))
}

/// The text that tells the host that there is no contract at an address.
pub open spec fn no_contract(address: Seq<u8>) -> Seq<char> {
    "contract doesnt exist "@ + json_quoted(address_text(address))
}

/// The contract table and what is to be put back into it if the
/// transaction at hand fails.
#[derive(Debug)]
pub struct ExecutionState {
    pub state: State,
    pub to_revert: Vec<(ContractAddress, ContractType)>,
}

impl ExecutionState {
    /// The record under an address once what is staged is put back: the
    /// record staged last for the address, or else the record in the table.
    pub open spec fn reverted(&self, key: Seq<u8>) -> Option<ContractView> {
        match held(entries_view(self.to_revert@), self.to_revert@.len(), key) {
            Some(staged) => Some(staged),
            None => self.state.holds(key),
        }
    }

    /// A dispatcher state around a contract table, with nothing staged.
    pub fn new(state: State) -> (r: ExecutionState)
        ensures
            r.state == state,
            r.to_revert@.len() == 0,
    {
        ExecutionState { state, to_revert: Vec::new() }
    }

    /// Puts back every record that is staged, in the order of staging, and
    /// forgets what was staged.
    pub fn revert(&mut self)
        ensures
            final(self).to_revert@.len() == 0,
            forall|key: Seq<u8>| final(self).state.holds(key) == old(self).reverted(key),
    {
        let mut staged: Vec<(ContractAddress, ContractType)> = Vec::new();
        std::mem::swap(&mut staged, &mut self.to_revert);
        let ghost first = self.state;
        assert(forall|key: Seq<u8>| first.holds(key) == old(self).state.holds(key));
        self.state.from_init_over(staged);
    }

    /// Forgets what was staged: the transaction at hand went through.
    pub fn commit(&mut self)
        ensures
            final(self).to_revert@.len() == 0,
            final(self).state == old(self).state,
    {
        self.to_revert = Vec::new();
    }

    /// Takes the record of the contract to invoke out of the table and
    /// stages a copy of it. Where the table has none, nothing changes, the
    /// host is to be told so and the transaction fails.
    pub fn stage_invoke(&mut self, address: &ContractAddress) -> (r: Result<
        ContractType,
        (ServerMessage, VmError),
    >)
        ensures
            match old(self).state.holds(address@) {
                Some(contract) => {
                    &&& r matches Ok(taken) && taken@ == contract
                    &&& entries_view(final(self).to_revert@) == entries_view(
                        old(self).to_revert@,
                    ).push((address@, contract))
                    &&& forall|key: Seq<u8>|
                        final(self).state.holds(key) == if key == address@ {
                            None
                        } else {
                            old(self).state.holds(key)
                        }
                },
                None => {
                    &&& r matches Err(failure) && failure.0@ == ServerView::Error(
                        no_contract(address@),
                    ) && failure.1@ == ErrorView::RuntimeErr(error_occurred())
                    &&& entries_view(final(self).to_revert@) == entries_view(old(self).to_revert@)
                    &&& forall|key: Seq<u8>|
                        final(self).state.holds(key) == old(self).state.holds(key)
                },
            },
    {
        match self.state.get(address) {
            Some(contract) => {
                let ghost before = entries_view(self.to_revert@);
                let key = ContractAddress::from_bytes(crate::value::copy_vec(address.as_vec()));
                self.to_revert.push((key, contract.clone()));
                assert(entries_view(self.to_revert@) =~= before.push((address@, contract@)));
                Ok(contract)
            },
            None => {
                let quoted = render(&crate::json::Json::String(address.to_text()));
                let text = String::from_str("contract doesnt exist ").concat(quoted.as_str());
                Err((ServerMessage::Error(text), runtime_error("Error_ocured")))
            },
        }
    }

    /// Puts the record of a contract into the table and makes the message
    /// that tells the host to store its text.
    pub fn store_contract(
        &mut self,
        address: ContractAddress,
        contract: ContractType,
        record: String,
    ) -> (r: ServerMessage)
        ensures
            r@ == ServerView::SetOwned(SetView { key: address@, value: record@ }),
            final(self).to_revert == old(self).to_revert,
            forall|key: Seq<u8>|
                final(self).state.holds(key) == if key == address@ {
                    Some(contract@)
                } else {
                    old(self).state.holds(key)
                },
    {
        let key = ContractAddress::from_bytes(crate::value::copy_vec(address.as_vec()));
        self.state.set(key, contract);
        ServerMessage::SetOwned(SetOwned { key: address, value: record })
    }
}

/// The record of a contract that is originated from the operation with the
/// given hash: its address is that of the hash.
pub fn new_contract(
    operation_hash: String,
    originated_by: String,
    storage: Vec<u8>,
    serialized_module: Vec<u8>,
    constants: Vec<u8>,
) -> (r: ContractType)
    ensures
        r@ == (ContractView {
            self_: crate::contract_address::blake2b_160(
                vstd::utf8::encode_utf8(operation_hash@),
            ),
            originated_by: originated_by@,
            storage: storage@,
            serialized_module: serialized_module@,
            constants: constants@,
        }),
{
    ContractType {
        self_: ContractAddress::new(operation_hash),
        originated_by,
        storage,
        serialized_module,
        constants,
    }
}

/// The text of the error for operations that a contract returned and that
/// are no operations.
pub open spec fn bad_follow_on() -> Seq<char> {
    "bad transaction format from additional operations"@
}

/// The operation that follows from one item of what a contract returned.
/// The item has to resolve to a pair of a destination, which is a text, and
/// a payload that has a document. To a destination that is the text of a
/// contract address goes an invocation with the payload as argument and
/// the gas that is left as limit; to any other goes a transfer of the
/// tickets.
pub open spec fn follow_op(
    store: Map<u64, ValueView>,
    item: u64,
    gas: u64,
    tickets: Seq<(JsonView, u64)>,
) -> Option<OperationView> {
    match resolved(store, item) {
        Some(ValueView::Pair { fst, snd }) => match (resolved(store, fst), resolved(store, snd)) {
            (Some(ValueView::String(destination)), Some(payload)) => match encoded(
                store,
                payload,
                MAX_DEPTH as nat,
            ) {
                Some(argument) => match address_of(destination) {
                    Some(address) => Some(
                        OperationView::Invoke { address, argument, gas_limit: gas },
                    ),
                    None => Some(OperationView::Transfer { address: destination, tickets }),
                },
                None => None,
            },
            _ => None,
        },
        _ => None,
    }
}

/// The transaction that carries an operation that follows from what the
/// contract at `sender` returned.
pub open spec fn follow_transaction(
    op: OperationView,
    source: Seq<char>,
    sender: Seq<char>,
    hash: Seq<char>,
    tickets: Seq<(JsonView, u64)>,
) -> TransactionView {
    TransactionView {
        source,
        sender: Some(sender),
        operation: json_text(operation_wire(op)),
        operation_raw_hash: hash,
        tickets,
    }
}

/// The tickets that go with the follow-on transaction at a place: all of
/// them with the first, none with the others.
pub open spec fn tickets_at(at: int, tickets: Seq<(JsonView, u64)>) -> Seq<(JsonView, u64)> {
    if at == 0 {
        tickets
    } else {
        Seq::empty()
    }
}

/// The transactions that follow from the first `n` items of what a
/// contract returned, if all of these are operations.
pub open spec fn follow_all(
    store: Map<u64, ValueView>,
    items: Seq<u64>,
    n: nat,
    source: Seq<char>,
    sender: Seq<char>,
    hash: Seq<char>,
    gas: u64,
    tickets: Seq<(JsonView, u64)>,
) -> Option<Seq<TransactionView>>
    decreases n,
{
    if n == 0 || n > items.len() {
        Some(Seq::empty())
    } else {
        let mine = tickets_at(n - 1, tickets);
        match (
            follow_all(store, items, (n - 1) as nat, source, sender, hash, gas, tickets),
            follow_op(store, items[n - 1], gas, mine),
        ) {
            (Some(before), Some(op)) => Some(
                before.push(follow_transaction(op, source, sender, hash, mine)),
            ),
            _ => None,
        }
    }
}

/// What the transactions of a vector say.
pub open spec fn transactions_view(transactions: Seq<Transaction>) -> Seq<TransactionView> {
    Seq::new(transactions.len(), |i: int| transactions[i]@)
}

pub proof fn lemma_follow_fails(
    store: Map<u64, ValueView>,
    items: Seq<u64>,
    n: nat,
    source: Seq<char>,
    sender: Seq<char>,
    hash: Seq<char>,
    gas: u64,
    tickets: Seq<(JsonView, u64)>,
)
    requires
        n <= items.len(),
        follow_all(store, items, n, source, sender, hash, gas, tickets).is_none(),
    ensures
        follow_all(store, items, items.len(), source, sender, hash, gas, tickets).is_none(),
    decreases items.len() - n,
{
    if n < items.len() {
        lemma_follow_fails(store, items, n + 1, source, sender, hash, gas, tickets);
    }
}

/// The operation that follows from one item of what a contract returned.
fn follow_one(arena: &Arena, item: u64, gas: u64, tickets: Tickets) -> (r: Option<Operation>)
    ensures
        match follow_op(arena@, item, gas, tickets_view(tickets@)) {
            Some(op) => r.is_some() && r.unwrap()@ == op,
            None => r.is_none(),
        },
{
    let (fst, snd) = match arena.get(item) {
        Some(Value::Pair { fst, snd }) => (*fst, *snd),
        _ => {
            return None;
        },
    };
    let destination = match arena.get(fst) {
        Some(Value::String(text)) => text,
        _ => {
            return None;
        },
    };
    let payload = arena.get(snd)?;
    let argument = match encode(arena, payload) {
        Ok(j) => j,
        Err(_) => {
            return None;
        },
    };
    match ContractAddress::from_text(destination.as_str()) {
        Ok(address) => Some(Operation::Invoke { address, argument, gas_limit: gas }),
        Err(_) => Some(Operation::Transfer { address: destination.clone(), tickets }),
    }
}

/// The transactions that follow from what a contract returned, in the
/// order of the list. Anything but a list stands for no operations. The
/// tickets go with the first transaction.
pub fn follow_on(
    arena: &Arena,
    ops: &Value,
    source: &String,
    sender: &ContractAddress,
    operation_raw_hash: &String,
    remaining_gas: u64,
    tickets: Tickets,
) -> (r: VMResult<Vec<Transaction>>)
    ensures
        match ops@ {
            ValueView::List(items) => match follow_all(
                arena@,
                items,
                items.len(),
                source@,
                address_text(sender@),
                operation_raw_hash@,
                remaining_gas,
                tickets_view(tickets@),
            ) {
                Some(transactions) => r.is_ok() && transactions_view(r.unwrap()@) == transactions,
                None => r.is_err() && r.unwrap_err()@ == ErrorView::RuntimeErr(bad_follow_on()),
            },
            _ => r.is_ok() && r.unwrap()@.len() == 0,
        },
{
    let mut transactions: Vec<Transaction> = Vec::new();
    let list = match ops {
        Value::List(list) => list,
        _ => {
            return Ok(transactions);
        },
    };
    let ghost items = list_items(*list);
    let ghost all = tickets_view(tickets@);
    let ghost sender_text = address_text(sender@);
    let n = list_len(list);
    let mut i: usize = 0;
    assert(transactions_view(transactions@) =~= Seq::<TransactionView>::empty());
    while i < n
        invariant
            i <= n,
            n == items.len(),
            items == list_items(*list),
            ops@ == ValueView::List(items),
            all == tickets_view(tickets@),
            sender_text == address_text(sender@),
            follow_all(
                arena@,
                items,
                i as nat,
                source@,
                sender_text,
                operation_raw_hash@,
                remaining_gas,
                all,
            ) == Some(transactions_view(transactions@)),
        decreases n - i,
    {
        let ghost before = transactions_view(transactions@);
        let item = match list_get(list, i) {
            Some(item) => item,
            None => {
                return Err(runtime_error("bad transaction format from additional operations"));
            },
        };
        let mine: Tickets = if i == 0 {
            copy_tickets(&tickets)
        } else {
            Vec::new()
        };
        let also: Tickets = if i == 0 {
            copy_tickets(&tickets)
        } else {
            Vec::new()
        };
        proof {
            assert(tickets_view(mine@) =~= tickets_at(i as int, all));
            assert(tickets_view(also@) =~= tickets_at(i as int, all));
        }
        let op = match follow_one(arena, item, remaining_gas, mine) {
            Some(op) => op,
            None => {
                proof {
                    lemma_follow_fails(
                        arena@,
                        items,
                        i as nat + 1,
                        source@,
                        sender_text,
                        operation_raw_hash@,
                        remaining_gas,
                        all,
                    );
                }
                return Err(runtime_error("bad transaction format from additional operations"));
            },
        };
        let transaction = Transaction {
            source: source.clone(),
            sender: Some(sender.to_text()),
            operation: render(&op.serialize()),
            operation_raw_hash: operation_raw_hash.clone(),
            tickets: also,
        };
        let ghost shown = transaction@;
        transactions.push(transaction);
        i = i + 1;
        assert(transactions_view(transactions@) =~= before.push(shown));
    }
    Ok(transactions)
}

} // verus!
