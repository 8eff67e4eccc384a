//! One invocation of a contract.
//!
//! The sandbox runs outside this library. An invocation therefore has two
//! halves here. [`invoke_managed`] sets the context up and says with what to
//! call the contract's entry point; once the entry point has returned,
//! [`conclude`] takes what it returned out of the arena.

use vstd::prelude::*;

use crate::arena::Arena;
use crate::conversions::{signed, to_u64};
use crate::env::{
    constant_out_of_place, is_fresh, pool_view, populate_predef, push_constants, resolved,
    table_of, value_missing, Context, ContextView, Lifecycle, PredefView,
};
use crate::errors::{runtime_error, ErrorView, VMResult};
use crate::imports::{handle_of, stored_pair, without};
use crate::incoming::InvokeManaged;
use crate::outgoing::{Outgoing, OutgoingManaged};
use crate::value::{Value, ValueView};

verus! {

/// An invocation that is set up: its context and the argument for the
/// contract's entry point.
#[derive(Debug)]
pub struct Invocation {
    pub env: Context,
    pub main_arg: i64,
    pub gas_limit: u64,
}

/// What the predefined values of an invocation are.
pub open spec fn predef_of(t: InvokeManaged) -> PredefView {
    PredefView {
        nil: ValueView::List(Seq::<u64>::empty()),
        unit: ValueView::Unit,
        empty_set: ValueView::OrdSet(Seq::<u64>::empty()),
        empty_map: ValueView::OrdMap(Seq::<(u64, u64)>::empty()),
        zero: ValueView::Int(0),
        sender: ValueView::String(t.sender@),
        source: ValueView::String(t.source@),
        self_: ValueView::String(t.self_addr@),
        none: ValueView::Option(None),
    }
}

/// Sets an invocation up. The predefined values and the table of constants
/// are filled, and a context is made around the arena that has nothing
/// bound yet. The argument, the storage and the pair of the two are stored:
/// the entry point is to be called with the handle of the pair. There is no
/// invocation where the constant pool fills no table; the arena is then
/// dropped.
pub fn invoke_managed(arena: Arena, t: InvokeManaged) -> (r: VMResult<Invocation>)
    requires
        arena.has_room(3),
    ensures
        match table_of(pool_view(t.constants@)) {
            None => r.is_err() && r.unwrap_err()@ == ErrorView::GenericErr(
                constant_out_of_place(),
            ),
            Some(table) => r.is_ok() && r.unwrap().gas_limit == t.gas_limit && stored_pair(
                (ContextView {
                    store: arena@,
                    predef: predef_of(t),
                    constants: table,
                    state: Lifecycle::Uninitialized,
                    gas: 0,
                    pushed: Seq::empty(),
                }),
                r.unwrap().env@,
                r.unwrap().main_arg,
                t.arg@,
                t.initial_storage@,
            ),
        },
{
    let InvokeManaged {
        arg,
        initial_storage,
        constants,
        tickets,
        source,
        sender,
        self_addr,
        gas_limit,
    } = t;
    let table = push_constants(constants)?;
    let predef = populate_predef(sender, self_addr, source);
    let mut env = Context::new(arena, predef, table);
    let ghost start = env@;
    let fst = env.bump_raw(arg);
    let snd = env.bump_raw(initial_storage);
    let pair = env.bump(Value::Pair { fst, snd });
    let main_arg = signed(pair);
    proof {
        assert(start.constants =~= table_of(pool_view(t.constants@)).unwrap());
        assert(is_fresh(start.store.insert(fst, t.arg@), snd));
    }
    Ok(Invocation { env, main_arg, gas_limit })
}

/// The text of the error for a result that the arena does not hold.
pub open spec fn result_missing() -> Seq<char> {
    "Runtime Error, result not available"@
}

/// The text of the error for a result that is no pair.
pub open spec fn result_mismatch() -> Seq<char> {
    "Type mismatch in final result, result not available"@
}

/// What an invocation comes to, given what its entry point returned.
pub enum Conclusion {
    /// The result resolves to nothing.
    NoResult,
    /// The result is no pair.
    NotAPair,
    /// A part of the result resolves to nothing. The store is as the
    /// attempt leaves it.
    NoPart(Map<u64, ValueView>),
    /// The operations and the new storage, with the store that they were
    /// taken out of.
    Done(ValueView, ValueView, Map<u64, ValueView>),
}

/// What an invocation comes to. The result has to resolve to a pair of the
/// operations and the new storage. The storage is taken out of the store
/// first, then the operations.
pub open spec fn conclusion(store: Map<u64, ValueView>, result: i64) -> Conclusion {
    match resolved(store, handle_of(result)) {
        None => Conclusion::NoResult,
        Some(ValueView::Pair { fst, snd }) => match resolved(store, snd) {
            None => Conclusion::NoPart(store),
            Some(storage) => {
                let rest = without(store, snd);
                match resolved(rest, fst) {
                    None => Conclusion::NoPart(rest),
                    Some(operations) => Conclusion::Done(operations, storage, without(rest, fst)),
                }
            },
        },
        Some(_) => Conclusion::NotAPair,
    }
}

/// Concludes an invocation whose entry point returned `result`: takes the
/// operations and the new storage out of the arena and marks the invocation
/// as over. Where there is no such result, only the arena may have changed.
pub fn conclude(env: &mut Context, result: i64) -> (r: VMResult<Outgoing>)
    ensures
        match conclusion(old(env)@.store, result) {
            Conclusion::NoResult => r.is_err() && r.unwrap_err()@ == ErrorView::RuntimeErr(
                result_missing(),
            ) && final(env)@ == old(env)@,
            Conclusion::NotAPair => r.is_err() && r.unwrap_err()@ == ErrorView::RuntimeErr(
                result_mismatch(),
            ) && final(env)@ == old(env)@,
            Conclusion::NoPart(store) => r.is_err() && r.unwrap_err()@ == ErrorView::RuntimeErr(
                value_missing(),
            ) && final(env)@ == (ContextView { store, ..old(env)@ }),
            Conclusion::Done(operations, storage, store) => r.is_ok() && final(env)@ == (
            ContextView { store, state: Lifecycle::Consumed, ..old(env)@ }) && match r.unwrap() {
                Outgoing::OutgoingManaged { payload } => payload.new_storage@ == storage
                    && payload.operations@ == operations && payload.remaining_gas == old(
                    env,
                ).gas_left && payload.contract_tickets@.len() == 0,
            },
        },
{
    let (fst, snd) = match env.arena.get(to_u64(result)) {
        None => {
            return Err(runtime_error("Runtime Error, result not available"));
        },
        Some(Value::Pair { fst, snd }) => (*fst, *snd),
        Some(_) => {
            return Err(runtime_error("Type mismatch in final result, result not available"));
        },
    };
    let new_storage = env.get(snd)?;
    let operations = env.get(fst)?;
    let remaining_gas = env.gas_left;
    env.consume();
    Ok(
        Outgoing::OutgoingManaged {
            payload: Box::new(
                OutgoingManaged {
                    new_storage,
                    operations,
                    contract_tickets: Vec::new(),
                    remaining_gas,
                },
            ),
        },
    )
}

} // verus!
