//! The messages that the engine sends to the host.

use vstd::prelude::*;

use crate::codec::{one, tag, tagged};
use crate::contract_address::{address_text, ContractAddress};
use crate::json::{
    fields_view, items_view, named, object, Json, JsonView, Member, MemberView,
};
use crate::outgoing::{encode_set, encode_sets, set_wire, sets_view, sets_wire, InitVec, SetOwned, SetView};
use crate::ticket::{encode_tickets, tickets_view, tickets_wire, Tickets};

verus! {

/// Tickets to deposit at an address.
#[derive(Debug)]
pub struct TicketDeposit {
    pub address: String,
    pub tickets: Tickets,
}

/// A message from the engine to the host.
#[derive(Debug)]
pub enum ServerMessage {
    Init(InitVec),
    Stop,
    SetOwned(SetOwned),
    TakeTickets(ContractAddress),
    DepositTickets(TicketDeposit),
    Error(String),
}

/// What a message to the host says.
pub enum ServerView {
    Init(Seq<SetView>),
    Stop,
    SetOwned(SetView),
    TakeTickets(Seq<u8>),
    DepositTickets { address: Seq<char>, tickets: Seq<(JsonView, u64)> },
    Error(Seq<char>),
}

impl View for ServerMessage {
    type V = ServerView;

    open spec fn view(&self) -> ServerView {
        match self {
            ServerMessage::Init(entries) => ServerView::Init(sets_view(entries.0@)),
            ServerMessage::Stop => ServerView::Stop,
            ServerMessage::SetOwned(entry) => ServerView::SetOwned(entry@),
            ServerMessage::TakeTickets(address) => ServerView::TakeTickets(address@),
            ServerMessage::DepositTickets(deposit) => ServerView::DepositTickets {
                address: deposit.address@,
                tickets: tickets_view(deposit.tickets@),
            },
            ServerMessage::Error(text) => ServerView::Error(text@),
        }
    }
}

/// The document of a message to the host: a tagged tuple.
pub open spec fn server_wire(m: ServerView) -> JsonView {
    match m {
        ServerView::Init(entries) => tagged("Init"@, seq![JsonView::Array(sets_wire(entries))]),
        ServerView::Stop => tagged("Stop"@, Seq::empty()),
        ServerView::SetOwned(entry) => tagged("Set"@, seq![set_wire(entry)]),
        ServerView::TakeTickets(address) => tagged(
            "Take_tickets"@,
            seq![JsonView::String(address_text(address))],
        ),
        ServerView::DepositTickets { address, tickets } => tagged(
            "Deposit_tickets"@,
            seq![
                JsonView::Object(
                    seq![
                        MemberView { name: "address"@, value: JsonView::String(address) },
                        MemberView {
                            name: "tickets"@,
                            value: JsonView::Array(tickets_wire(tickets)),
                        },
                    ],
                ),
            ],
        ),
        ServerView::Error(text) => tagged("Error"@, seq![JsonView::String(text)]),
    }
}

impl ServerMessage {
    /// Writes the message as a document.
    pub fn serialize(&self) -> (r: Json)
        ensures
            r@ == server_wire(self@),
    {
        match self {
            ServerMessage::Init(entries) => tag("Init", one(encode_sets(&entries.0))),
            ServerMessage::Stop => {
                let r = tag("Stop", Vec::new());
                assert(items_view(Seq::<Json>::empty()) =~= Seq::<JsonView>::empty());
                r
            },
            ServerMessage::SetOwned(entry) => tag("Set", one(encode_set(entry))),
            ServerMessage::TakeTickets(address) => tag(
                "Take_tickets",
                one(Json::String(address.to_text())),
            ),
            ServerMessage::DepositTickets(deposit) => {
                let mut members: Vec<Member> = Vec::new();
                members.push(named("address", Json::String(deposit.address.clone())));
                members.push(named("tickets", encode_tickets(&deposit.tickets)));
                assert(fields_view(members@) =~= seq![
                    MemberView { name: "address"@, value: JsonView::String(deposit.address@) },
                    MemberView {
                        name: "tickets"@,
                        value: JsonView::Array(tickets_wire(tickets_view(deposit.tickets@))),
                    },
                ]);
                tag("Deposit_tickets", one(object(members)))
            },
            ServerMessage::Error(text) => tag("Error", one(Json::String(text.clone()))),
        }
    }
}

} // verus!
