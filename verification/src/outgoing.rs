//! What the engine hands out: entries of the contract table for the host,
//! and the result of an invocation.

use vstd::prelude::*;

use crate::contract_address::{address_text, ContractAddress};
use crate::json::{
    array, fields_view, items_view, named, object, Json, JsonView, Member, MemberView,
};
use crate::ticket::Ticket;
use crate::value::Value;

verus! {

/// An entry of the contract table as the host stores it: the address of a
/// contract and the text of its record.
#[derive(Debug)]
pub struct SetOwned {
    pub key: ContractAddress,
    pub value: String,
}

/// What an entry of the contract table is.
pub struct SetView {
    pub key: Seq<u8>,
    pub value: Seq<char>,
}

impl View for SetOwned {
    type V = SetView;

    open spec fn view(&self) -> SetView {
        SetView { key: self.key@, value: self.value@ }
    }
}

/// The contract table with which the host starts the engine.
#[derive(Debug)]
pub struct Init(pub Vec<SetOwned>);

/// The contract table that the engine reports to the host.
#[derive(Debug)]
pub struct InitVec(pub Vec<SetOwned>);

/// What the entries of a table are.
pub open spec fn sets_view(entries: Seq<SetOwned>) -> Seq<SetView> {
    Seq::new(entries.len(), |i: int| entries[i]@)
}

/// The document of an entry: an object of the text of the address and the
/// text of the record.
pub open spec fn set_wire(entry: SetView) -> JsonView {
    JsonView::Object(
        seq![
            MemberView { name: "key"@, value: JsonView::String(address_text(entry.key)) },
            MemberView { name: "value"@, value: JsonView::String(entry.value) },
        ],
    )
}

/// The documents of the entries of a table.
pub open spec fn sets_wire(entries: Seq<SetView>) -> Seq<JsonView> {
    Seq::new(entries.len(), |i: int| set_wire(entries[i]))
}

/// Writes an entry of the contract table.
pub fn encode_set(entry: &SetOwned) -> (r: Json)
    ensures
        r@ == set_wire(entry@),
{
    let mut members: Vec<Member> = Vec::new();
    members.push(named("key", Json::String(entry.key.to_text())));
    members.push(named("value", Json::String(entry.value.clone())));
    assert(fields_view(members@) =~= set_wire(entry@)->Object_0);
    object(members)
}

/// Writes the entries of a contract table.
pub fn encode_sets(entries: &Vec<SetOwned>) -> (r: Json)
    ensures
        r@ == JsonView::Array(sets_wire(sets_view(entries@))),
{
    let mut items: Vec<Json> = Vec::new();
    let mut i: usize = 0;
    while i < entries.len()
        invariant
            i <= entries.len(),
            items@.len() == i,
            forall|k: int| 0 <= k < i ==> (#[trigger] items@[k])@ == set_wire(entries@[k]@),
        decreases entries.len() - i,
    {
        items.push(encode_set(&entries[i]));
        i = i + 1;
    }
    assert(items_view(items@) =~= sets_wire(sets_view(entries@)));
    array(items)
}

/// The result of an invocation: what the contract's entry point returned,
/// taken out of the arena, and the gas that is left.
#[derive(Debug)]
pub struct OutgoingManaged {
    pub new_storage: Value,
    pub operations: Value,
    pub contract_tickets: Vec<Ticket>,
    pub remaining_gas: u64,
}

/// What an invocation hands out.
#[derive(Debug)]
pub enum Outgoing {
    OutgoingManaged { payload: Box<OutgoingManaged> },
}

} // verus!
