//! Tickets.

use vstd::prelude::*;

use crate::json::{
    as_items, duplicate, items_view, lemma_array_view, number, parse_u64, u64_of, Json,
    JsonView,
};
use crate::integer::decimal_text;

verus! {

/// What names a ticket. The library hands it on as the host wrote it.
#[derive(Debug, PartialEq, Eq)]
pub struct TicketId {
    pub id: Json,
}

/// A ticket: an amount of something that an issuer made out to an owner.
#[derive(Debug, PartialEq, Eq, PartialOrd, Ord)]
pub struct Ticket {
    pub owner: String,
    pub issuer: String,
    pub data: String,
    pub amount: usize,
}

/// Tickets by name, each with an amount.
pub type Tickets = Vec<(TicketId, u64)>;

/// What a list of tickets holds.
pub open spec fn tickets_view(tickets: Seq<(TicketId, u64)>) -> Seq<(JsonView, u64)> {
    Seq::new(tickets.len(), |i: int| (tickets[i].0.id@, tickets[i].1))
}

/// The tickets that the first `n` documents of a sequence are read as: each
/// document an array of a name and an amount, the amount a number that is no
/// greater than `most`.
pub open spec fn tickets_from(items: Seq<JsonView>, n: nat, most: u64) -> Option<
    Seq<(JsonView, u64)>,
>
    decreases n,
{
    if n == 0 || n > items.len() {
        Some(Seq::empty())
    } else {
        match (tickets_from(items, (n - 1) as nat, most), ticket_of(items[n - 1], most)) {
            (Some(before), Some(last)) => Some(before.push(last)),
            _ => None,
        }
    }
}

/// The ticket entry that a document is read as.
pub open spec fn ticket_of(j: JsonView, most: u64) -> Option<(JsonView, u64)> {
    match j {
        JsonView::Array(pair) => if pair.len() == 2 {
            match pair[1] {
                JsonView::Number(text) => match u64_of(text) {
                    Some(amount) => if amount <= most {
                        Some((pair[0], amount))
                    } else {
                        None
                    },
                    None => None,
                },
                _ => None,
            }
        } else {
            None
        },
        _ => None,
    }
}

/// The tickets that a document is read as.
pub open spec fn tickets_of(j: JsonView, most: u64) -> Option<Seq<(JsonView, u64)>> {
    match j {
        JsonView::Array(items) => tickets_from(items, items.len(), most),
        _ => None,
    }
}

/// Reads a list of tickets.
pub fn decode_tickets(j: &Json, most: u64) -> (r: Option<Tickets>)
    ensures
        match tickets_of(j@, most) {
            Some(tickets) => r.is_some() && tickets_view(r.unwrap()@) == tickets,
            None => r.is_none(),
        },
{
    let items = match as_items(j) {
        Some(items) => items,
        None => {
            return None;
        },
    };
    let ghost wire = items_view(items@);
    let mut tickets: Tickets = Vec::new();
    let mut i: usize = 0;
    assert(tickets_view(tickets@) =~= Seq::<(JsonView, u64)>::empty());
    while i < items.len()
        invariant
            i <= items.len(),
            wire == items_view(items@),
            j@ == JsonView::Array(wire),
            tickets_from(wire, i as nat, most) == Some(tickets_view(tickets@)),
        decreases items.len() - i,
    {
        let ghost before = tickets_view(tickets@);
        let pair = match as_items(&items[i]) {
            Some(pair) => pair,
            None => {
                proof {
                    lemma_tickets_fail(wire, i as nat + 1, most);
                }
                return None;
            },
        };
        if pair.len() != 2 {
            proof {
                lemma_tickets_fail(wire, i as nat + 1, most);
            }
            return None;
        }
        let amount = match &pair[1] {
            Json::Number(text) => match parse_u64(text.as_str()) {
                Some(amount) => amount,
                None => {
                    proof {
                        lemma_tickets_fail(wire, i as nat + 1, most);
                    }
                    return None;
                },
            },
            _ => {
                proof {
                    lemma_tickets_fail(wire, i as nat + 1, most);
                }
                return None;
            },
        };
        if amount > most {
            proof {
                lemma_tickets_fail(wire, i as nat + 1, most);
            }
            return None;
        }
        tickets.push((TicketId { id: duplicate(&pair[0]) }, amount));
        i = i + 1;
        assert(tickets_view(tickets@) =~= before.push((pair@[0]@, amount)));
    }
    Some(tickets)
}

/// Once some of the documents are read as no tickets, neither are all of
/// them.
pub proof fn lemma_tickets_fail(items: Seq<JsonView>, n: nat, most: u64)
    requires
        n <= items.len(),
        tickets_from(items, n, most).is_none(),
    ensures
        tickets_from(items, items.len(), most).is_none(),
    decreases items.len() - n,
{
    if n < items.len() {
        lemma_tickets_fail(items, n + 1, most);
    }
}

/// The documents that tickets are written as: each an array of its name
/// and its amount.
pub open spec fn tickets_wire(tickets: Seq<(JsonView, u64)>) -> Seq<JsonView> {
    Seq::new(
        tickets.len(),
        |i: int|
            JsonView::Array(seq![tickets[i].0, JsonView::Number(decimal_text(tickets[i].1 as int))]),
    )
}

/// Writes a list of tickets.
pub fn encode_tickets(tickets: &Tickets) -> (r: Json)
    ensures
        r@ == JsonView::Array(tickets_wire(tickets_view(tickets@))),
{
    let mut items: Vec<Json> = Vec::new();
    let mut i: usize = 0;
    while i < tickets.len()
        invariant
            i <= tickets.len(),
            items@.len() == i,
            forall|k: int|
                0 <= k < i ==> (#[trigger] items@[k])@ == tickets_wire(tickets_view(tickets@))[k],
        decreases tickets.len() - i,
    {
        let mut pair: Vec<Json> = Vec::new();
        pair.push(duplicate(&tickets[i].0.id));
        pair.push(number(tickets[i].1));
        proof {
            lemma_array_view(pair);
            assert(items_view(pair@) =~= seq![
                tickets@[i as int].0.id@,
                JsonView::Number(decimal_text(tickets@[i as int].1 as int)),
            ]);
        }
        items.push(Json::Array(pair));
        i = i + 1;
    }
    proof {
        lemma_array_view(items);
        assert(items_view(items@) =~= tickets_wire(tickets_view(tickets@)));
    }
    Json::Array(items)
}

/// A copy of a list of tickets.
pub fn copy_tickets(tickets: &Tickets) -> (r: Tickets)
    ensures
        tickets_view(r@) == tickets_view(tickets@),
{
    let mut copy: Tickets = Vec::new();
    let mut i: usize = 0;
    while i < tickets.len()
        invariant
            i <= tickets.len(),
            copy@.len() == i,
            forall|k: int|
                0 <= k < i ==> copy@[k].0.id@ == tickets@[k].0.id@ && copy@[k].1 == tickets@[k].1,
        decreases tickets.len() - i,
    {
        copy.push((TicketId { id: duplicate(&tickets[i].0.id) }, tickets[i].1));
        i = i + 1;
    }
    assert(tickets_view(copy@) =~= tickets_view(tickets@));
    copy
}

} // verus!
