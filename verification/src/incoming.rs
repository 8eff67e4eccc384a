//! What an invocation takes in.

use vstd::prelude::*;

use crate::ticket::Ticket;
use crate::value::Value;

verus! {

/// All that one invocation of a contract needs besides the contract's
/// module: the argument and the storage, whose parts are in the arena of the
/// invocation, the constant pool, the tickets, who takes part, and the gas
/// limit.
#[derive(Debug)]
pub struct InvokeManaged {
    pub arg: Value,
    pub initial_storage: Value,
    pub constants: Vec<(i32, Value)>,
    pub tickets: Vec<Ticket>,
    pub source: String,
    pub sender: String,
    pub self_addr: String,
    pub gas_limit: u64,
}

} // verus!
