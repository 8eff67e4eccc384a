//! The execution context of one invocation.
//!
//! A context owns what the host functions work on: the arena, the table of
//! predefined values, the table of constants, the gas that is left, and the
//! values that wait to be pushed onto the guest's operand stack. It follows
//! the life cycle of an invocation and refuses work that comes too early.

use vstd::prelude::*;

use crate::arena::{canonical_handle, Arena};
use crate::errors::{runtime_error, ErrorView, VMResult, VmError};
use crate::integer::Integer;
use crate::list::list_new;
use crate::value::{Value, ValueView};

verus! {

/// How far an invocation has come.
#[derive(Debug, Clone, Copy, PartialEq, Eq, Structural)]
pub enum Lifecycle {
    /// Nothing is bound yet.
    Uninitialized,
    /// The sandbox instance is bound.
    InstanceBound,
    /// The guest's callbacks are bound as well.
    CallbacksBound,
    /// The gas is set: host functions may run.
    Ready,
    /// The entry point has returned or trapped.
    Consumed,
}

/// The predefined values of an invocation.
#[derive(Debug)]
pub struct Predef {
    pub nil: Value,
    pub unit: Value,
    pub empty_set: Value,
    pub empty_map: Value,
    pub zero: Value,
    pub sender: Value,
    pub source: Value,
    pub self_: Value,
    pub none: Value,
}

/// What the predefined values are.
pub struct PredefView {
    pub nil: ValueView,
    pub unit: ValueView,
    pub empty_set: ValueView,
    pub empty_map: ValueView,
    pub zero: ValueView,
    pub sender: ValueView,
    pub source: ValueView,
    pub self_: ValueView,
    pub none: ValueView,
}

impl View for Predef {
    type V = PredefView;

    open spec fn view(&self) -> PredefView {
        PredefView {
            nil: self.nil@,
            unit: self.unit@,
            empty_set: self.empty_set@,
            empty_map: self.empty_map@,
            zero: self.zero@,
            sender: self.sender@,
            source: self.source@,
            self_: self.self_@,
            none: self.none@,
        }
    }
}

/// The context of one invocation.
#[derive(Debug)]
pub struct Context {
    pub arena: Arena,
    pub predef: Predef,
    pub constants: Vec<Value>,
    pub state: Lifecycle,
    pub gas_left: u64,
    /// The values to push onto the guest's operand stack, oldest first.
    pub pushed: Vec<i64>,
}

/// What a context is: the state of an invocation as the host functions see
/// and change it.
pub struct ContextView {
    pub store: Map<u64, ValueView>,
    pub predef: PredefView,
    pub constants: Seq<ValueView>,
    pub state: Lifecycle,
    pub gas: u64,
    pub pushed: Seq<i64>,
}

impl View for Context {
    type V = ContextView;

    open spec fn view(&self) -> ContextView {
        ContextView {
            store: self.arena@,
            predef: self.predef@,
            constants: Seq::new(self.constants@.len(), |i: int| self.constants@[i]@),
            state: self.state,
            gas: self.gas_left,
            pushed: self.pushed@,
        }
    }
}

/// The text of the error for work that needs a bound instance.
pub open spec fn instance_missing() -> Seq<char> {
    "instance missing, lifecycle error"@
}

/// The text of the error for a push before the callbacks are ready.
pub open spec fn pusher_missing() -> Seq<char> {
    "pusher missing, lifecycle error"@
}

/// The text of the error for a handle that resolves to nothing.
pub open spec fn value_missing() -> Seq<char> {
    "Value doesnt exist"@
}

/// The error, if any, with which a debit of `cost` is refused: gas is
/// accounted only in a ready context, and only as far as it lasts.
pub open spec fn debit_refusal(c: ContextView, cost: u64) -> Option<ErrorView> {
    if c.state != Lifecycle::Ready {
        Some(ErrorView::InstantiationErr(instance_missing()))
    } else if cost > c.gas {
        Some(ErrorView::OutOfGas)
    } else {
        None
    }
}

/// A context after a debit of `cost`.
pub open spec fn debited(c: ContextView, cost: u64) -> ContextView {
    ContextView { gas: (c.gas - cost) as u64, ..c }
}

/// A handle under which a store holds nothing and which reads as itself.
pub open spec fn is_fresh(store: Map<u64, ValueView>, h: u64) -> bool {
    !store.dom().contains(h) && canonical_handle(h) == h
}

/// What a handle resolves to in a store.
pub open spec fn resolved(store: Map<u64, ValueView>, h: u64) -> Option<ValueView> {
    if store.dom().contains(canonical_handle(h)) {
        Some(store[canonical_handle(h)])
    } else {
        None
    }
}

impl Context {
    /// Whether `n` more values can be inserted into the arena.
    pub open spec fn has_room(&self, n: nat) -> bool {
        self.arena.has_room(n)
    }

    /// Whether `n` more values can be inserted into the arena.
    pub fn room_for(&self, n: u64) -> (r: bool)
        ensures
            r == self.has_room(n as nat),
    {
        self.arena.room_for(n)
    }

    /// A fresh context around an arena and the tables of an invocation.
    pub fn new(arena: Arena, predef: Predef, constants: Vec<Value>) -> (env: Context)
        ensures
            env.arena == arena,
            env.predef == predef,
            env.constants == constants,
            env.state == Lifecycle::Uninitialized,
            env.gas_left == 0,
            env.pushed@ == Seq::<i64>::empty(),
    {
        Context {
            arena,
            predef,
            constants,
            state: Lifecycle::Uninitialized,
            gas_left: 0,
            pushed: Vec::new(),
        }
    }

    /// Succeeds once the sandbox instance is bound and the invocation is not
    /// over.
    pub fn with_instance(&self) -> (r: VMResult<()>)
        ensures
            match r {
                Ok(_) => self.state != Lifecycle::Uninitialized && self.state
                    != Lifecycle::Consumed,
                Err(e) => e@ == ErrorView::InstantiationErr(instance_missing()) && (self.state
                    == Lifecycle::Uninitialized || self.state == Lifecycle::Consumed),
            },
    {
        match self.state {
            Lifecycle::Uninitialized | Lifecycle::Consumed => Err(
                VmError::InstantiationErr("instance missing, lifecycle error".to_string()),
            ),
            _ => Ok(()),
        }
    }

    /// Records that the sandbox instance is bound. Only a context that has
    /// nothing bound moves on; every other context stays as it is.
    pub fn set_instance(&mut self)
        ensures
            final(self)@ == (ContextView {
                state: if old(self).state == Lifecycle::Uninitialized {
                    Lifecycle::InstanceBound
                } else {
                    old(self).state
                },
                ..old(self)@
            }),
    {
        if self.state == Lifecycle::Uninitialized {
            self.state = Lifecycle::InstanceBound;
        }
    }

    /// Records that the guest's callbacks are bound. Only a context whose
    /// instance is bound moves on.
    pub fn set_pusher(&mut self)
        ensures
            final(self)@ == (ContextView {
                state: if old(self).state == Lifecycle::InstanceBound {
                    Lifecycle::CallbacksBound
                } else {
                    old(self).state
                },
                ..old(self)@
            }),
    {
        if self.state == Lifecycle::InstanceBound {
            self.state = Lifecycle::CallbacksBound;
        }
    }

    /// Sets the gas that is left. This makes a context with bound callbacks
    /// ready; before the callbacks are bound, and once the invocation is
    /// over, it is refused and changes nothing.
    pub fn set_gas_left(&mut self, new_value: u64) -> (r: VMResult<()>)
        ensures
            match r {
                Ok(_) => (old(self).state == Lifecycle::CallbacksBound || old(self).state
                    == Lifecycle::Ready) && final(self)@ == (ContextView {
                    state: Lifecycle::Ready,
                    gas: new_value,
                    ..old(self)@
                }),
                Err(e) => e@ == ErrorView::InstantiationErr(instance_missing()) && old(self).state
                    != Lifecycle::CallbacksBound && old(self).state != Lifecycle::Ready
                    && final(self)@ == old(self)@,
            },
    {
        match self.state {
            Lifecycle::CallbacksBound | Lifecycle::Ready => {
                self.state = Lifecycle::Ready;
                self.gas_left = new_value;
                Ok(())
            },
            _ => Err(VmError::InstantiationErr("instance missing, lifecycle error".to_string())),
        }
    }

    /// The gas that is left, in a ready context.
    pub fn get_gas_left(&self) -> (r: VMResult<u64>)
        ensures
            match r {
                Ok(gas) => self.state == Lifecycle::Ready && gas == self.gas_left,
                Err(e) => e@ == ErrorView::InstantiationErr(instance_missing()) && self.state
                    != Lifecycle::Ready,
            },
    {
        match self.state {
            Lifecycle::Ready => Ok(self.gas_left),
            _ => Err(VmError::InstantiationErr("instance missing, lifecycle error".to_string())),
        }
    }

    /// Debits `cost` from the gas that is left. Where the debit is refused
    /// nothing changes.
    pub fn update_gas(&mut self, cost: u64) -> (r: VMResult<()>)
        ensures
            match debit_refusal(old(self)@, cost) {
                Some(e) => r.is_err() && r.unwrap_err()@ == e && final(self)@ == old(self)@,
                None => r.is_ok() && final(self)@ == debited(old(self)@, cost),
            },
            final(self).arena == old(self).arena,
    {
        match self.state {
            Lifecycle::Ready => {
                if cost > self.gas_left {
                    Err(VmError::OutOfGas)
                } else {
                    self.gas_left = self.gas_left - cost;
                    Ok(())
                }
            },
            _ => Err(VmError::InstantiationErr("instance missing, lifecycle error".to_string())),
        }
    }

    /// Marks the invocation as over: the entry point has returned or
    /// trapped.
    pub fn consume(&mut self)
        ensures
            final(self)@ == (ContextView { state: Lifecycle::Consumed, ..old(self)@ }),
    {
        self.state = Lifecycle::Consumed;
    }

    /// Queues a value for the guest's operand stack, in a ready context.
    pub fn push_value(&mut self, value: i64) -> (r: VMResult<()>)
        ensures
            match r {
                Ok(_) => old(self).state == Lifecycle::Ready && final(self)@ == (ContextView {
                    pushed: old(self)@.pushed.push(value),
                    ..old(self)@
                }),
                Err(e) => e@ == ErrorView::InstantiationErr(pusher_missing()) && old(self).state
                    != Lifecycle::Ready && final(self)@ == old(self)@,
            },
            final(self).arena == old(self).arena,
    {
        match self.state {
            Lifecycle::Ready => {
                self.pushed.push(value);
                Ok(())
            },
            _ => Err(VmError::InstantiationErr("pusher missing, lifecycle error".to_string())),
        }
    }

    /// Hands out the values queued for the guest's operand stack, oldest
    /// first, and empties the queue.
    pub fn take_pushed(&mut self) -> (values: Vec<i64>)
        ensures
            values@ == old(self)@.pushed,
            final(self)@ == (ContextView { pushed: Seq::<i64>::empty(), ..old(self)@ }),
    {
        let mut values: Vec<i64> = Vec::new();
        std::mem::swap(&mut values, &mut self.pushed);
        values
    }

    /// Inserts a value into the arena and returns its handle.
    pub fn bump(&mut self, value: Value) -> (h: u64)
        requires
            old(self).has_room(1),
        ensures
            is_fresh(old(self)@.store, h),
            final(self)@ == (ContextView { store: old(self)@.store.insert(h, value@), ..old(self)@ }),
            final(self).arena.count() == old(self).arena.count() + 1,
    {
        self.arena.insert(value)
    }

    /// Inserts a value into the arena and returns its handle.
    pub fn bump_raw(&mut self, value: Value) -> (h: u64)
        requires
            old(self).has_room(1),
        ensures
            is_fresh(old(self)@.store, h),
            final(self)@ == (ContextView { store: old(self)@.store.insert(h, value@), ..old(self)@ }),
            final(self).arena.count() == old(self).arena.count() + 1,
    {
        self.arena.insert(value)
    }

    /// Takes the value under a handle out of the arena.
    pub fn get(&mut self, key: u64) -> (r: VMResult<Value>)
        ensures
            match r {
                Ok(value) => resolved(old(self)@.store, key) == Some(value@) && final(self)@ == (
                ContextView {
                    store: old(self)@.store.remove(canonical_handle(key)),
                    ..old(self)@
                }) && final(self).arena.count() == old(self).arena.count() - 1,
                Err(e) => e@ == ErrorView::RuntimeErr(value_missing()) && resolved(
                    old(self)@.store,
                    key,
                ).is_none() && final(self)@ == old(self)@ && final(self).arena.count() == old(
                    self,
                ).arena.count(),
            },
    {
        match self.arena.remove(key) {
            Some(value) => Ok(value),
            None => {
                assert(self@.store =~= old(self)@.store);
                Err(runtime_error("Value doesnt exist"))
            },
        }
    }

    /// The value under a handle, left where it is.
    pub fn get_ref(&self, key: u64) -> (r: VMResult<&Value>)
        ensures
            match r {
                Ok(value) => resolved(self@.store, key) == Some(value@),
                Err(e) => e@ == ErrorView::RuntimeErr(value_missing()) && resolved(
                    self@.store,
                    key,
                ).is_none(),
            },
    {
        match self.arena.get(key) {
            Some(value) => Ok(value),
            None => Err(runtime_error("Value doesnt exist")),
        }
    }
}


/// The predefined values of an invocation with the given sender, contract
/// and source.
pub fn populate_predef(sender: String, self_: String, source: String) -> (predef: Predef)
    ensures
        predef@ == (PredefView {
            nil: ValueView::List(Seq::<u64>::empty()),
            unit: ValueView::Unit,
            empty_set: ValueView::OrdSet(Seq::<u64>::empty()),
            empty_map: ValueView::OrdMap(Seq::<(u64, u64)>::empty()),
            zero: ValueView::Int(0),
            sender: ValueView::String(sender@),
            source: ValueView::String(source@),
            self_: ValueView::String(self_@),
            none: ValueView::Option(None),
        }),
{
    Predef {
        nil: Value::List(list_new()),
        unit: Value::Unit,
        empty_set: Value::OrdSet(Vec::new()),
        empty_map: Value::OrdMap(Vec::new()),
        zero: Value::Int(Integer::zero()),
        sender: Value::String(sender),
        source: Value::String(source),
        self_: Value::String(self_),
        none: Value::Option(None),
    }
}

/// The text of the error for a constant that has no place in the table.
pub open spec fn constant_out_of_place() -> Seq<char> {
    "constant index out of bounds"@
}

/// What the entries of a constant pool look like.
pub open spec fn pool_view(pool: Seq<(i32, Value)>) -> Seq<(i32, ValueView)> {
    Seq::new(pool.len(), |i: int| (pool[i].0, pool[i].1@))
}

/// The table that a constant pool fills: each entry, in the order of the
/// pool, is inserted at its index into the table built so far. There is no
/// table where an index is negative or lies beyond the end of the table
/// built so far.
pub open spec fn table_of(pool: Seq<(i32, ValueView)>) -> Option<Seq<ValueView>>
    decreases pool.len(),
{
    if pool.len() == 0 {
        Some(Seq::empty())
    } else {
        match table_of(pool.drop_last()) {
            None => None,
            Some(table) => {
                let (index, value) = pool.last();
                if 0 <= index <= table.len() {
                    Some(table.insert(index as int, value))
                } else {
                    None
                }
            },
        }
    }
}

/// What the values of a table are.
pub open spec fn table_view(table: Seq<Value>) -> Seq<ValueView> {
    Seq::new(table.len(), |i: int| table[i]@)
}

/// Fills the table of constants from a constant pool.
pub fn push_constants(vec: Vec<(i32, Value)>) -> (r: VMResult<Vec<Value>>)
    ensures
        match table_of(pool_view(vec@)) {
            Some(table) => r.is_ok() && table_view(r.unwrap()@) == table,
            None => r.is_err() && r.unwrap_err()@ == ErrorView::GenericErr(constant_out_of_place()),
        },
{
    let mut table: Vec<Value> = Vec::new();
    let mut i: usize = 0;
    assert(pool_view(vec@).take(0) =~= Seq::<(i32, ValueView)>::empty());
    assert(table_view(table@) =~= Seq::<ValueView>::empty());
    while i < vec.len()
        invariant
            i <= vec.len(),
            table_of(pool_view(vec@).take(i as int)) == Some(table_view(table@)),
        decreases vec.len() - i,
    {
        let index = vec[i].0;
        let ghost prefix = pool_view(vec@).take(i as int + 1);
        proof {
            assert(prefix.drop_last() =~= pool_view(vec@).take(i as int));
            assert(prefix.last() == (vec@[i as int].0, vec@[i as int].1@));
        }
        if index < 0 || index as usize > table.len() {
            proof {
                lemma_table_stays_none(pool_view(vec@), i as int + 1);
            }
            return Err(VmError::GenericErr("constant index out of bounds".to_string()));
        }
        let ghost before = table_view(table@);
        let value = vec[i].1.duplicate();
        table.insert(index as usize, value);
        assert(table_view(table@) =~= before.insert(index as int, vec@[i as int].1@));
        i = i + 1;
    }
    assert(pool_view(vec@).take(vec@.len() as int) =~= pool_view(vec@));
    Ok(table)
}

/// Once a part of a pool fills no table, neither does the whole pool.
pub proof fn lemma_table_stays_none(pool: Seq<(i32, ValueView)>, i: int)
    requires
        0 <= i <= pool.len(),
        table_of(pool.take(i)).is_none(),
    ensures
        table_of(pool).is_none(),
    decreases pool.len() - i,
{
    if i < pool.len() {
        assert(pool.take(i + 1).drop_last() =~= pool.take(i));
        lemma_table_stays_none(pool, i + 1);
    } else {
        assert(pool.take(i) =~= pool);
    }
}

/// The sum of a sequence of costs.
pub open spec fn total_cost(costs: Seq<u64>) -> nat
    decreases costs.len(),
{
    if costs.len() == 0 {
        0
    } else {
        total_cost(costs.drop_last()) + costs.last() as nat
    }
}

/// The context after the debits of a sequence of costs, one after the
/// other, if none of them is refused.
pub open spec fn debited_all(c: ContextView, costs: Seq<u64>) -> Option<ContextView>
    decreases costs.len(),
{
    if costs.len() == 0 {
        Some(c)
    } else {
        match debited_all(c, costs.drop_last()) {
            None => None,
            Some(before) => if debit_refusal(before, costs.last()).is_some() {
                None
            } else {
                Some(debited(before, costs.last()))
            },
        }
    }
}

/// Gas is accounted exactly. In a ready context, debits whose sum the gas
/// covers all succeed and leave the gas less their sum, with nothing else
/// changed; and a further debit that the rest does not cover is refused as
/// out of gas.
pub proof fn lemma_gas_is_exact(c: ContextView, costs: Seq<u64>, next: u64)
    requires
        c.state == Lifecycle::Ready,
        total_cost(costs) <= c.gas,
    ensures
        debited_all(c, costs) == Some(ContextView { gas: (c.gas - total_cost(costs)) as u64, ..c }),
        total_cost(costs) + next > c.gas ==> debit_refusal(debited_all(c, costs).unwrap(), next)
            == Some(ErrorView::OutOfGas),
        total_cost(costs) + next <= c.gas ==> debited_all(c, costs.push(next)) == Some(
            ContextView { gas: (c.gas - total_cost(costs) - next) as u64, ..c },
        ),
    decreases costs.len(),
{
    if costs.len() > 0 {
        lemma_gas_is_exact(c, costs.drop_last(), costs.last());
    }
    assert(costs.push(next).drop_last() =~= costs);
}

} // verus!
