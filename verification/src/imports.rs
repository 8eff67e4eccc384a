//! The host functions that guest code calls.
//!
//! Every function takes the context of the invocation and values that the
//! adapters at the end of this file have resolved from the handles the guest
//! passed. A function first debits its cost; where the debit is refused it
//! changes nothing. A result that is a value is inserted into the arena and
//! handed back as its handle, reinterpreted as a signed integer.

use vstd::prelude::*;

use crate::conversions::{signed, signed_of, to_u64, unsigned_of};
use crate::arena::canonical_handle;
use crate::env::{debit_refusal, debited, is_fresh, resolved, value_missing, Context, ContextView};
use crate::errors::{runtime_error, type_mismatch, ErrorView, VMResult, VmError};
use crate::integer::Integer;
use crate::list::{list_get, list_items, list_len, list_new, list_push_back, list_push_front, list_take};
use crate::table::{cut, find_in_map, find_in_set, keys_of, put, search, Search};
use crate::value::{value_order, Union, Value, ValueView};

verus! {

/// The cost of a host function that has a flat price.
pub const FLAT_COST: u64 = 300;

/// A result that is the error `e`.
pub open spec fn failed<T>(r: VMResult<T>, e: ErrorView) -> bool {
    match r {
        Ok(_) => false,
        Err(err) => err@ == e,
    }
}

/// A result that is a type mismatch on `value`.
pub open spec fn mismatch<T>(r: VMResult<T>, value: ValueView, msg: Seq<char>) -> bool {
    failed(r, ErrorView::TypeMismatch { value, msg })
}

/// The handle that a signed integer stands for.
pub open spec fn handle_of(r: i64) -> u64 {
    unsigned_of(r) as u64
}

/// The context `after` is the context `before` with one more value, held
/// under the so far unused handle that `r` stands for.
pub open spec fn stored(before: ContextView, after: ContextView, r: i64, value: ValueView) -> bool {
    is_fresh(before.store, handle_of(r)) && after == (ContextView {
        store: before.store.insert(handle_of(r), value),
        ..before
    })
}

/// The context `after` is the context `before` with two more values: `inner`
/// under a so far unused handle `h`, and under the handle that `r` stands
/// for, unused as well and another one, the value that `outer` makes of `h`.
pub open spec fn stored_in(
    before: ContextView,
    after: ContextView,
    r: i64,
    inner: ValueView,
    outer: spec_fn(u64) -> ValueView,
) -> bool {
    exists|h: u64|
        is_fresh(before.store, h) && #[trigger] is_fresh(before.store.insert(h, inner), handle_of(r))
            && after == (ContextView {
            store: before.store.insert(h, inner).insert(handle_of(r), outer(h)),
            ..before
        })
}

/// The context `after` is the context `before` with `values` queued for the
/// guest's operand stack behind what was queued.
pub open spec fn queued(before: ContextView, after: ContextView, values: Seq<i64>) -> bool {
    after == (ContextView { pushed: before.pushed + values, ..before })
}

pub open spec fn two_bools() -> Seq<char> {
    "type mismatch, expected Two Bools"@
}

pub open spec fn expected_pair() -> Seq<char> {
    "type mismatch, expected Pair"@
}

pub open spec fn expected_int() -> Seq<char> {
    "type mismatch, expected Int"@
}

pub open spec fn expected_union() -> Seq<char> {
    "type mismatch, expected Union"@
}

pub open spec fn expected_bool() -> Seq<char> {
    "type mismatch, expected Bool"@
}

pub open spec fn expected_string() -> Seq<char> {
    "type mismatch, expected String"@
}

pub open spec fn expected_option() -> Seq<char> {
    "type mismatch, expected Option"@
}

pub open spec fn expected_nat() -> Seq<char> {
    "type mismatch, expected Nat"@
}

/// Inserts a value into the arena and hands back its handle as a signed
/// integer.
fn store(env: &mut Context, value: Value) -> (r: i64)
    requires
        old(env).has_room(1),
    ensures
        stored(old(env)@, final(env)@, r, value@),
        final(env).arena.count() == old(env).arena.count() + 1,
{
    let h = env.bump(value);
    signed(h)
}

/// Compares two values in the total order on values and stores the result,
/// the integer -1, 0 or 1.
pub fn compare(env: &mut Context, value1: Value, value2: Value) -> (r: VMResult<i64>)
    requires
        old(env).has_room(1),
    ensures
        match debit_refusal(old(env)@, FLAT_COST) {
            Some(e) => failed(r, e) && final(env)@ == old(env)@,
            None => r.is_ok() && stored(
                debited(old(env)@, FLAT_COST),
                final(env)@,
                r.unwrap(),
                ValueView::Int(value_order(value1@, value2@)),
            ),
        },
{
    env.update_gas(FLAT_COST)?;
    let order = value1.order(&value2);
    Ok(store(env, Value::Int(Integer::from_i64(order as i64))))
}

/// Stores whether two values are the same value.
pub fn equal(env: &mut Context, value1: Value, value2: Value) -> (r: VMResult<i64>)
    requires
        old(env).has_room(1),
    ensures
        match debit_refusal(old(env)@, FLAT_COST) {
            Some(e) => failed(r, e) && final(env)@ == old(env)@,
            None => r.is_ok() && stored(
                debited(old(env)@, FLAT_COST),
                final(env)@,
                r.unwrap(),
                ValueView::Bool(value1@ == value2@),
            ),
        },
{
    env.update_gas(FLAT_COST)?;
    let same = value1.same(&value2);
    Ok(store(env, Value::Bool(same)))
}

/// Stores the disjunction of two truth values. Where one of the two is no
/// truth value, the mismatch is reported on the first.
pub fn or(env: &mut Context, value1: Value, value2: Value) -> (r: VMResult<i64>)
    requires
        old(env).has_room(1),
    ensures
        match debit_refusal(old(env)@, FLAT_COST) {
            Some(e) => failed(r, e) && final(env)@ == old(env)@,
            None => match (value1@, value2@) {
                (ValueView::Bool(x), ValueView::Bool(y)) => r.is_ok() && stored(
                    debited(old(env)@, FLAT_COST),
                    final(env)@,
                    r.unwrap(),
                    ValueView::Bool(x || y),
                ),
                _ => mismatch(r, value1@, two_bools()) && final(env)@ == debited(
                    old(env)@,
                    FLAT_COST,
                ),
            },
        },
{
    env.update_gas(FLAT_COST)?;
    match (&value1, &value2) {
        (Value::Bool(x), Value::Bool(y)) => {
            let both = *x || *y;
            Ok(store(env, Value::Bool(both)))
        },
        _ => Err(type_mismatch(value1, "type mismatch, expected Two Bools")),
    }
}

/// Stores the conjunction of two truth values. Where one of the two is no
/// truth value, the mismatch is reported on the first.
pub fn and(env: &mut Context, value1: Value, value2: Value) -> (r: VMResult<i64>)
    requires
        old(env).has_room(1),
    ensures
        match debit_refusal(old(env)@, FLAT_COST) {
            Some(e) => failed(r, e) && final(env)@ == old(env)@,
            None => match (value1@, value2@) {
                (ValueView::Bool(x), ValueView::Bool(y)) => r.is_ok() && stored(
                    debited(old(env)@, FLAT_COST),
                    final(env)@,
                    r.unwrap(),
                    ValueView::Bool(x && y),
                ),
                _ => mismatch(r, value1@, two_bools()) && final(env)@ == debited(
                    old(env)@,
                    FLAT_COST,
                ),
            },
        },
{
    env.update_gas(FLAT_COST)?;
    match (&value1, &value2) {
        (Value::Bool(x), Value::Bool(y)) => {
            let both = *x && *y;
            Ok(store(env, Value::Bool(both)))
        },
        _ => Err(type_mismatch(value1, "type mismatch, expected Two Bools")),
    }
}

/// The truth value that the integers 0 and 1 stand for: false for 0, true
/// for 1. No other value stands for one.
pub open spec fn flag_of(v: ValueView) -> Option<bool> {
    match v {
        ValueView::Int(n) => if n == 0 {
            Some(false)
        } else if n == 1 {
            Some(true)
        } else {
            None
        },
        _ => None,
    }
}

/// Reads the integer 0 as false and the integer 1 as true.
fn flag(value: &Value) -> (r: Option<bool>)
    ensures
        r == flag_of(value@),
{
    match value {
        Value::Int(n) => {
            if n.is_zero() {
                Some(false)
            } else if n.equals(&Integer::from_i64(1)) {
                Some(true)
            } else {
                None
            }
        },
        _ => None,
    }
}

/// Stores the truth value that the integer 0 or 1 stands for.
pub fn neq(env: &mut Context, value: Value) -> (r: VMResult<i64>)
    requires
        old(env).has_room(1),
    ensures
        match debit_refusal(old(env)@, FLAT_COST) {
            Some(e) => failed(r, e) && final(env)@ == old(env)@,
            None => match flag_of(value@) {
                Some(b) => r.is_ok() && stored(
                    debited(old(env)@, FLAT_COST),
                    final(env)@,
                    r.unwrap(),
                    ValueView::Bool(b),
                ),
                None => mismatch(r, value@, expected_pair()) && final(env)@ == debited(
                    old(env)@,
                    FLAT_COST,
                ),
            },
        },
{
    env.update_gas(FLAT_COST)?;
    match flag(&value) {
        Some(b) => Ok(store(env, Value::Bool(b))),
        None => Err(type_mismatch(value, "type mismatch, expected Pair")),
    }
}

/// Stores the truth value that the integer 0 or 1 stands for.
pub fn eq(env: &mut Context, value: Value) -> (r: VMResult<i64>)
    requires
        old(env).has_room(1),
    ensures
        match debit_refusal(old(env)@, FLAT_COST) {
            Some(e) => failed(r, e) && final(env)@ == old(env)@,
            None => match flag_of(value@) {
                Some(b) => r.is_ok() && stored(
                    debited(old(env)@, FLAT_COST),
                    final(env)@,
                    r.unwrap(),
                    ValueView::Bool(b),
                ),
                None => mismatch(r, value@, expected_pair()) && final(env)@ == debited(
                    old(env)@,
                    FLAT_COST,
                ),
            },
        },
{
    env.update_gas(FLAT_COST)?;
    match flag(&value) {
        Some(b) => Ok(store(env, Value::Bool(b))),
        None => Err(type_mismatch(value, "type mismatch, expected Pair")),
    }
}

/// Stores the negation of a truth value.
pub fn not(env: &mut Context, value: Value) -> (r: VMResult<i64>)
    requires
        old(env).has_room(1),
    ensures
        match debit_refusal(old(env)@, FLAT_COST) {
            Some(e) => failed(r, e) && final(env)@ == old(env)@,
            None => match value@ {
                ValueView::Bool(b) => r.is_ok() && stored(
                    debited(old(env)@, FLAT_COST),
                    final(env)@,
                    r.unwrap(),
                    ValueView::Bool(!b),
                ),
                _ => mismatch(r, value@, expected_pair()) && final(env)@ == debited(
                    old(env)@,
                    FLAT_COST,
                ),
            },
        },
{
    env.update_gas(FLAT_COST)?;
    match &value {
        Value::Bool(b) => {
            let negated = !*b;
            Ok(store(env, Value::Bool(negated)))
        },
        _ => Err(type_mismatch(value, "type mismatch, expected Pair")),
    }
}


/// The context `after` is the context `before` with three more values under
/// three so far unused handles: `first`, `second`, and under the handle
/// that `r` stands for the pair of the two.
pub open spec fn stored_pair(
    before: ContextView,
    after: ContextView,
    r: i64,
    first: ValueView,
    second: ValueView,
) -> bool {
    exists|f: u64, s: u64|
        is_fresh(before.store, f) && #[trigger] is_fresh(before.store.insert(f, first), s)
            && is_fresh(before.store.insert(f, first).insert(s, second), handle_of(r)) && after == (
        ContextView {
            store: before.store.insert(f, first).insert(s, second).insert(
                handle_of(r),
                ValueView::Pair { fst: f, snd: s },
            ),
            ..before
        })
}

/// Stores two values and the pair of their handles.
fn store_pair(env: &mut Context, first: Value, second: Value) -> (r: i64)
    requires
        old(env).has_room(3),
    ensures
        stored_pair(old(env)@, final(env)@, r, first@, second@),
        final(env).arena.count() == old(env).arena.count() + 3,
{
    let fst = env.bump_raw(first);
    let snd = env.bump_raw(second);
    let r = store(env, Value::Pair { fst, snd });
    assert(is_fresh(old(env)@.store.insert(fst, first@), snd));
    r
}

/// Stores a value and, under the handle handed back, what `wrap` makes of
/// the value's handle.
fn store_in(env: &mut Context, inner: Value, wrap: Wrap) -> (r: i64)
    requires
        old(env).has_room(2),
    ensures
        stored_in(old(env)@, final(env)@, r, inner@, |h: u64| wrapped(wrap, h)),
        final(env).arena.count() == old(env).arena.count() + 2,
{
    let h = env.bump(inner);
    let outer = match wrap {
        Wrap::Full => Value::Option(Some(h)),
        Wrap::Left => Value::Union(Union::Left(h)),
        Wrap::Right => Value::Union(Union::Right(h)),
    };
    let r = store(env, outer);
    assert(is_fresh(old(env)@.store.insert(h, inner@), handle_of(r)));
    r
}

/// The three ways to wrap one handle.
#[derive(Debug, Clone, Copy, PartialEq, Eq, Structural)]
pub enum Wrap {
    Full,
    Left,
    Right,
}

/// The value that wraps a handle.
pub open spec fn wrapped(wrap: Wrap, h: u64) -> ValueView {
    match wrap {
        Wrap::Full => ValueView::Option(Some(h)),
        Wrap::Left => ValueView::Union(Union::Left(h)),
        Wrap::Right => ValueView::Union(Union::Right(h)),
    }
}

/// Stores two values and the pair of their handles.
pub fn pair(env: &mut Context, value1: Value, value2: Value) -> (r: VMResult<i64>)
    requires
        old(env).has_room(3),
    ensures
        match debit_refusal(old(env)@, FLAT_COST) {
            Some(e) => failed(r, e) && final(env)@ == old(env)@,
            None => r.is_ok() && stored_pair(
                debited(old(env)@, FLAT_COST),
                final(env)@,
                r.unwrap(),
                value1@,
                value2@,
            ),
        },
{
    env.update_gas(FLAT_COST)?;
    Ok(store_pair(env, value1, value2))
}

/// Queues the two handles of a pair for the guest's operand stack: the
/// second, then the first.
pub fn unpair(env: &mut Context, value: Value) -> (r: VMResult<()>)
    ensures
        match debit_refusal(old(env)@, FLAT_COST) {
            Some(e) => failed(r, e) && final(env)@ == old(env)@,
            None => match value@ {
                ValueView::Pair { fst, snd } => r.is_ok() && queued(
                    debited(old(env)@, FLAT_COST),
                    final(env)@,
                    seq![signed_of(snd) as i64, signed_of(fst) as i64],
                ),
                _ => mismatch(r, value@, expected_pair()) && final(env)@ == debited(
                    old(env)@,
                    FLAT_COST,
                ),
            },
        },
{
    env.update_gas(FLAT_COST)?;
    match &value {
        Value::Pair { fst, snd } => {
            let ghost before = env@;
            env.push_value(signed(*snd))?;
            env.push_value(signed(*fst))?;
            assert(env@.pushed =~= before.pushed + seq![
                signed_of(*snd) as i64,
                signed_of(*fst) as i64,
            ]);
            Ok(())
        },
        _ => Err(type_mismatch(value, "type mismatch, expected Pair")),
    }
}

/// The handle of the first part of a pair.
pub fn car(env: &mut Context, value: Value) -> (r: VMResult<i64>)
    ensures
        match debit_refusal(old(env)@, FLAT_COST) {
            Some(e) => failed(r, e) && final(env)@ == old(env)@,
            None => final(env)@ == debited(old(env)@, FLAT_COST) && match value@ {
                ValueView::Pair { fst, snd } => r.is_ok() && r.unwrap() == signed_of(fst),
                _ => mismatch(r, value@, expected_pair()),
            },
        },
{
    env.update_gas(FLAT_COST)?;
    match &value {
        Value::Pair { fst, snd } => Ok(signed(*fst)),
        _ => Err(type_mismatch(value, "type mismatch, expected Pair")),
    }
}

/// The handle of the second part of a pair.
pub fn cdr(env: &mut Context, value: Value) -> (r: VMResult<i64>)
    ensures
        match debit_refusal(old(env)@, FLAT_COST) {
            Some(e) => failed(r, e) && final(env)@ == old(env)@,
            None => final(env)@ == debited(old(env)@, FLAT_COST) && match value@ {
                ValueView::Pair { fst, snd } => r.is_ok() && r.unwrap() == signed_of(snd),
                _ => mismatch(r, value@, expected_pair()),
            },
        },
{
    env.update_gas(FLAT_COST)?;
    match &value {
        Value::Pair { fst, snd } => Ok(signed(*snd)),
        _ => Err(type_mismatch(value, "type mismatch, expected Pair")),
    }
}

/// Of two values that are not both integers, the one on which the mismatch
/// is reported: the second where the first is an integer, else the first.
pub open spec fn not_an_int(value1: ValueView, value2: ValueView) -> ValueView {
    if value1 is Int {
        value2
    } else {
        value1
    }
}

/// Stores the sum of two integers.
pub fn z_add(env: &mut Context, value1: Value, value2: Value) -> (r: VMResult<i64>)
    requires
        old(env).has_room(1),
    ensures
        match debit_refusal(old(env)@, FLAT_COST) {
            Some(e) => failed(r, e) && final(env)@ == old(env)@,
            None => match (value1@, value2@) {
                (ValueView::Int(x), ValueView::Int(y)) => r.is_ok() && stored(
                    debited(old(env)@, FLAT_COST),
                    final(env)@,
                    r.unwrap(),
                    ValueView::Int(x + y),
                ),
                _ => mismatch(r, not_an_int(value1@, value2@), expected_int()) && final(env)@
                    == debited(old(env)@, FLAT_COST),
            },
        },
{
    env.update_gas(FLAT_COST)?;
    match (&value1, &value2) {
        (Value::Int(x), Value::Int(y)) => {
            let sum = x.add(y);
            Ok(store(env, Value::Int(sum)))
        },
        (Value::Int(_), _) => Err(type_mismatch(value2, "type mismatch, expected Int")),
        _ => Err(type_mismatch(value1, "type mismatch, expected Int")),
    }
}

/// Stores the difference of two integers.
pub fn z_sub(env: &mut Context, value1: Value, value2: Value) -> (r: VMResult<i64>)
    requires
        old(env).has_room(1),
    ensures
        match debit_refusal(old(env)@, FLAT_COST) {
            Some(e) => failed(r, e) && final(env)@ == old(env)@,
            None => match (value1@, value2@) {
                (ValueView::Int(x), ValueView::Int(y)) => r.is_ok() && stored(
                    debited(old(env)@, FLAT_COST),
                    final(env)@,
                    r.unwrap(),
                    ValueView::Int(x - y),
                ),
                _ => mismatch(r, not_an_int(value1@, value2@), expected_int()) && final(env)@
                    == debited(old(env)@, FLAT_COST),
            },
        },
{
    env.update_gas(FLAT_COST)?;
    match (&value1, &value2) {
        (Value::Int(x), Value::Int(y)) => {
            let difference = x.sub(y);
            Ok(store(env, Value::Int(difference)))
        },
        (Value::Int(_), _) => Err(type_mismatch(value2, "type mismatch, expected Int")),
        _ => Err(type_mismatch(value1, "type mismatch, expected Int")),
    }
}

/// Tells the two sides of a choice apart, 1 for left and 0 for right, and
/// queues the handle that the choice carries.
pub fn is_left(env: &mut Context, value: Value) -> (r: VMResult<i32>)
    ensures
        match debit_refusal(old(env)@, FLAT_COST) {
            Some(e) => failed(r, e) && final(env)@ == old(env)@,
            None => match value@ {
                ValueView::Union(Union::Left(h)) => r == Ok::<i32, VmError>(1) && queued(
                    debited(old(env)@, FLAT_COST),
                    final(env)@,
                    seq![signed_of(h) as i64],
                ),
                ValueView::Union(Union::Right(h)) => r == Ok::<i32, VmError>(0) && queued(
                    debited(old(env)@, FLAT_COST),
                    final(env)@,
                    seq![signed_of(h) as i64],
                ),
                _ => mismatch(r, value@, expected_union()) && final(env)@ == debited(
                    old(env)@,
                    FLAT_COST,
                ),
            },
        },
{
    env.update_gas(FLAT_COST)?;
    let ghost before = env@;
    match &value {
        Value::Union(Union::Left(h)) => {
            env.push_value(signed(*h))?;
            assert(env@.pushed =~= before.pushed + seq![signed_of(*h) as i64]);
            Ok(1)
        },
        Value::Union(Union::Right(h)) => {
            env.push_value(signed(*h))?;
            assert(env@.pushed =~= before.pushed + seq![signed_of(*h) as i64]);
            Ok(0)
        },
        _ => Err(type_mismatch(value, "type mismatch, expected Union")),
    }
}

/// The truth value as a number: 1 for true, 0 for false.
pub fn deref_bool(env: &mut Context, value: Value) -> (r: VMResult<i32>)
    ensures
        match debit_refusal(old(env)@, FLAT_COST) {
            Some(e) => failed(r, e) && final(env)@ == old(env)@,
            None => final(env)@ == debited(old(env)@, FLAT_COST) && match value@ {
                ValueView::Bool(b) => r == Ok::<i32, VmError>(if b { 1i32 } else { 0i32 }),
                _ => mismatch(r, value@, expected_bool()),
            },
        },
{
    env.update_gas(FLAT_COST)?;
    match &value {
        Value::Bool(b) => {
            if *b {
                Ok(1)
            } else {
                Ok(0)
            }
        },
        _ => Err(type_mismatch(value, "type mismatch, expected Bool")),
    }
}

/// Aborts the invocation with the text that the guest supplies: the result
/// is always an error.
pub fn failwith(env: &mut Context, value: Value) -> (r: VMResult<()>)
    ensures
        match debit_refusal(old(env)@, FLAT_COST) {
            Some(e) => failed(r, e) && final(env)@ == old(env)@,
            None => final(env)@ == debited(old(env)@, FLAT_COST) && match value@ {
                ValueView::String(text) => failed(r, ErrorView::RuntimeErr(text)),
                _ => mismatch(r, value@, expected_string()),
            },
        },
{
    env.update_gas(FLAT_COST)?;
    match value {
        Value::String(text) => Err(VmError::RuntimeErr(text)),
        _ => Err(type_mismatch(value, "type mismatch, expected String")),
    }
}

/// Tells an empty option from a full one, 1 for empty and 0 for full, and
/// queues the handle that a full one carries.
pub fn if_none(env: &mut Context, value: Value) -> (r: VMResult<i32>)
    ensures
        match debit_refusal(old(env)@, FLAT_COST) {
            Some(e) => failed(r, e) && final(env)@ == old(env)@,
            None => match value@ {
                ValueView::Option(None) => r == Ok::<i32, VmError>(1) && final(env)@ == debited(
                    old(env)@,
                    FLAT_COST,
                ),
                ValueView::Option(Some(h)) => r == Ok::<i32, VmError>(0) && queued(
                    debited(old(env)@, FLAT_COST),
                    final(env)@,
                    seq![signed_of(h) as i64],
                ),
                _ => mismatch(r, value@, expected_option()) && final(env)@ == debited(
                    old(env)@,
                    FLAT_COST,
                ),
            },
        },
{
    env.update_gas(FLAT_COST)?;
    let ghost before = env@;
    match &value {
        Value::Option(None) => Ok(1),
        Value::Option(Some(h)) => {
            env.push_value(signed(*h))?;
            assert(env@.pushed =~= before.pushed + seq![signed_of(*h) as i64]);
            Ok(0)
        },
        _ => Err(type_mismatch(value, "type mismatch, expected Option")),
    }
}

/// Takes a list of one or two items apart. Of a list of one item its handle
/// is queued. Of a list of two items the handle of the second is queued, and
/// then the handle of a new list of what comes before the last two items,
/// which is nothing. Both give 1. Every other value gives 0 and queues
/// nothing.
pub fn if_cons(env: &mut Context, value: Value) -> (r: VMResult<i32>)
    requires
        old(env).has_room(1),
    ensures
        match debit_refusal(old(env)@, FLAT_COST) {
            Some(e) => failed(r, e) && final(env)@ == old(env)@,
            None => match value@ {
                ValueView::List(items) => if items.len() == 2 {
                    r == Ok::<i32, VmError>(1) && exists|rest: u64| #[trigger]
                        is_fresh(old(env)@.store, rest) && final(env)@ == (ContextView {
                            store: old(env)@.store.insert(
                                rest,
                                ValueView::List(Seq::<u64>::empty()),
                            ),
                            pushed: old(env)@.pushed + seq![
                                signed_of(items[1]) as i64,
                                signed_of(rest) as i64,
                            ],
                            ..debited(old(env)@, FLAT_COST)
                        })
                } else if items.len() == 1 {
                    r == Ok::<i32, VmError>(1) && queued(
                        debited(old(env)@, FLAT_COST),
                        final(env)@,
                        seq![signed_of(items[0]) as i64],
                    )
                } else {
                    r == Ok::<i32, VmError>(0) && final(env)@ == debited(old(env)@, FLAT_COST)
                },
                _ => r == Ok::<i32, VmError>(0) && final(env)@ == debited(old(env)@, FLAT_COST),
            },
        },
{
    env.update_gas(FLAT_COST)?;
    let ghost before = env@;
    match &value {
        Value::List(list) => {
            let n = list_len(list);
            if n == 2 {
                match list_get(list, 1) {
                    Some(last) => {
                        env.push_value(signed(last))?;
                    },
                    None => {},
                }
                let head = list_take(list, n - 2);
                let rest = env.bump(Value::List(head));
                env.push_value(signed(rest))?;
                proof {
                    let items = list_items(*list);
                    assert(items.take(0) =~= Seq::<u64>::empty());
                    assert(env@.pushed =~= before.pushed + seq![
                        signed_of(items[1]) as i64,
                        signed_of(rest) as i64,
                    ]);
                    assert(is_fresh(old(env)@.store, rest));
                }
                Ok(1)
            } else if n == 1 {
                match list_get(list, 0) {
                    Some(first) => {
                        env.push_value(signed(first))?;
                        assert(env@.pushed =~= before.pushed + seq![signed_of(first) as i64]);
                    },
                    None => {},
                }
                Ok(1)
            } else {
                Ok(0)
            }
        },
        _ => Ok(0),
    }
}

/// Stores an integer as an option: full, with the handle of a stored copy of
/// the integer, where it is not negative, and empty where it is.
pub fn is_nat(env: &mut Context, value: Value) -> (r: VMResult<i64>)
    requires
        old(env).has_room(2),
    ensures
        match debit_refusal(old(env)@, FLAT_COST) {
            Some(e) => failed(r, e) && final(env)@ == old(env)@,
            None => match value@ {
                ValueView::Int(n) => r.is_ok() && if n >= 0 {
                    stored_in(
                        debited(old(env)@, FLAT_COST),
                        final(env)@,
                        r.unwrap(),
                        value@,
                        |h: u64| wrapped(Wrap::Full, h),
                    )
                } else {
                    stored(
                        debited(old(env)@, FLAT_COST),
                        final(env)@,
                        r.unwrap(),
                        ValueView::Option(None),
                    )
                },
                _ => mismatch(r, value@, expected_nat()) && final(env)@ == debited(
                    old(env)@,
                    FLAT_COST,
                ),
            },
        },
{
    env.update_gas(FLAT_COST)?;
    match &value {
        Value::Int(n) => {
            if !n.is_negative() {
                Ok(store_in(env, value, Wrap::Full))
            } else {
                Ok(store(env, Value::Option(None)))
            }
        },
        _ => Err(type_mismatch(value, "type mismatch, expected Nat")),
    }
}

/// Stores the absolute value of an integer.
pub fn abs(env: &mut Context, value: Value) -> (r: VMResult<i64>)
    requires
        old(env).has_room(1),
    ensures
        match debit_refusal(old(env)@, FLAT_COST) {
            Some(e) => failed(r, e) && final(env)@ == old(env)@,
            None => match value@ {
                ValueView::Int(n) => r.is_ok() && stored(
                    debited(old(env)@, FLAT_COST),
                    final(env)@,
                    r.unwrap(),
                    ValueView::Int(if n < 0 { -n } else { n }),
                ),
                _ => mismatch(r, value@, expected_nat()) && final(env)@ == debited(
                    old(env)@,
                    FLAT_COST,
                ),
            },
        },
{
    env.update_gas(FLAT_COST)?;
    match &value {
        Value::Int(n) => {
            let magnitude = n.abs();
            Ok(store(env, Value::Int(magnitude)))
        },
        _ => Err(type_mismatch(value, "type mismatch, expected Nat")),
    }
}

/// Stores whether a value comes before the integer zero in the total order
/// on values.
pub fn lt(env: &mut Context, value1: Value) -> (r: VMResult<i64>)
    requires
        old(env).has_room(1),
    ensures
        match debit_refusal(old(env)@, FLAT_COST) {
            Some(e) => failed(r, e) && final(env)@ == old(env)@,
            None => r.is_ok() && stored(
                debited(old(env)@, FLAT_COST),
                final(env)@,
                r.unwrap(),
                ValueView::Bool(value_order(value1@, ValueView::Int(0)) < 0),
            ),
        },
{
    env.update_gas(FLAT_COST)?;
    let order = value1.order(&Value::Int(Integer::zero()));
    Ok(store(env, Value::Bool(order < 0)))
}

/// Stores whether a value comes after the integer zero in the total order on
/// values.
pub fn gt(env: &mut Context, value1: Value) -> (r: VMResult<i64>)
    requires
        old(env).has_room(1),
    ensures
        match debit_refusal(old(env)@, FLAT_COST) {
            Some(e) => failed(r, e) && final(env)@ == old(env)@,
            None => r.is_ok() && stored(
                debited(old(env)@, FLAT_COST),
                final(env)@,
                r.unwrap(),
                ValueView::Bool(value_order(value1@, ValueView::Int(0)) > 0),
            ),
        },
{
    env.update_gas(FLAT_COST)?;
    let order = value1.order(&Value::Int(Integer::zero()));
    Ok(store(env, Value::Bool(order > 0)))
}

/// Stores a closure of the guest function with the given selector, with no
/// argument bound.
pub fn closure(env: &mut Context, value1: i32) -> (r: VMResult<i64>)
    requires
        old(env).has_room(1),
    ensures
        match debit_refusal(old(env)@, FLAT_COST) {
            Some(e) => failed(r, e) && final(env)@ == old(env)@,
            None => r.is_ok() && stored(
                debited(old(env)@, FLAT_COST),
                final(env)@,
                r.unwrap(),
                ValueView::Closure { opt_arg: None, call: value1 },
            ),
        },
{
    env.update_gas(FLAT_COST)?;
    Ok(store(env, Value::Closure { opt_arg: None, call: value1 }))
}

/// Stores a value and a full option that carries its handle.
pub fn some(env: &mut Context, value: Value) -> (r: VMResult<i64>)
    requires
        old(env).has_room(2),
    ensures
        match debit_refusal(old(env)@, FLAT_COST) {
            Some(e) => failed(r, e) && final(env)@ == old(env)@,
            None => r.is_ok() && stored_in(
                debited(old(env)@, FLAT_COST),
                final(env)@,
                r.unwrap(),
                value@,
                |h: u64| wrapped(Wrap::Full, h),
            ),
        },
{
    env.update_gas(FLAT_COST)?;
    Ok(store_in(env, value, Wrap::Full))
}

/// Stores a value and a left choice that carries its handle.
pub fn left(env: &mut Context, value: Value) -> (r: VMResult<i64>)
    requires
        old(env).has_room(2),
    ensures
        match debit_refusal(old(env)@, FLAT_COST) {
            Some(e) => failed(r, e) && final(env)@ == old(env)@,
            None => r.is_ok() && stored_in(
                debited(old(env)@, FLAT_COST),
                final(env)@,
                r.unwrap(),
                value@,
                |h: u64| wrapped(Wrap::Left, h),
            ),
        },
{
    env.update_gas(FLAT_COST)?;
    Ok(store_in(env, value, Wrap::Left))
}

/// Stores a value and a right choice that carries its handle.
pub fn right(env: &mut Context, value: Value) -> (r: VMResult<i64>)
    requires
        old(env).has_room(2),
    ensures
        match debit_refusal(old(env)@, FLAT_COST) {
            Some(e) => failed(r, e) && final(env)@ == old(env)@,
            None => r.is_ok() && stored_in(
                debited(old(env)@, FLAT_COST),
                final(env)@,
                r.unwrap(),
                value@,
                |h: u64| wrapped(Wrap::Right, h),
            ),
        },
{
    env.update_gas(FLAT_COST)?;
    Ok(store_in(env, value, Wrap::Right))
}


/// Where a walk down a chain of pairs ends.
pub enum Walk {
    /// At a value, with the store as the walk leaves it.
    Found(ValueView, Map<u64, ValueView>),
    /// At a handle that resolves to nothing.
    Missing(Map<u64, ValueView>),
    /// At a value that is no pair, with steps still to go.
    NotAPair(ValueView, Map<u64, ValueView>),
}

/// The walk that `get_n` makes from `value`. Index 0 is the value itself.
/// From a pair, index 1 is its first part and index 2 its second part; a
/// greater index goes on from the second part with the index less two. Each
/// part the walk steps to is taken out of the store.
pub open spec fn walk_from(store: Map<u64, ValueView>, idx: nat, value: ValueView) -> Walk
    decreases idx,
{
    if idx == 0 {
        Walk::Found(value, store)
    } else {
        match value {
            ValueView::Pair { fst, snd } => {
                let h = if idx == 1 { fst } else { snd };
                match resolved(store, h) {
                    None => Walk::Missing(store),
                    Some(next) => {
                        let rest = store.remove(crate::arena::canonical_handle(h));
                        if idx <= 2 {
                            Walk::Found(next, rest)
                        } else {
                            walk_from(rest, (idx - 2) as nat, next)
                        }
                    },
                }
            },
            _ => Walk::NotAPair(value, store),
        }
    }
}

/// Whether a value heads a chain of `depth` pairs nested to the right: the
/// value is a pair whose parts resolve, and with its second part taken out of
/// the store, that part heads a chain of one pair less.
pub open spec fn is_chain(store: Map<u64, ValueView>, value: ValueView, depth: nat) -> bool
    decreases depth,
{
    depth == 0 || match value {
        ValueView::Pair { fst, snd } => resolved(store, fst).is_some() && resolved(
            store,
            snd,
        ).is_some() && is_chain(
            store.remove(canonical_handle(snd)),
            resolved(store, snd).unwrap(),
            (depth - 1) as nat,
        ),
        _ => false,
    }
}

/// The value at which `k` steps to the second part arrive, and the store
/// without the parts stepped to.
pub open spec fn chain_tail(store: Map<u64, ValueView>, value: ValueView, k: nat) -> (
    ValueView,
    Map<u64, ValueView>,
)
    decreases k,
{
    if k == 0 {
        (value, store)
    } else {
        match value {
            ValueView::Pair { fst, snd } => chain_tail(
                store.remove(canonical_handle(snd)),
                resolved(store, snd).unwrap(),
                (k - 1) as nat,
            ),
            _ => (value, store),
        }
    }
}

/// On a chain of pairs the walk of `get_n` arrives where the index says. An
/// even index `2k` arrives at the value `k` steps to the second part down
/// the chain; an odd index `2k + 1` arrives at the first part of that value.
/// Neither fails while the chain is at least that deep.
pub proof fn lemma_walk_on_chain(
    store: Map<u64, ValueView>,
    value: ValueView,
    depth: nat,
    idx: nat,
)
    requires
        is_chain(store, value, depth),
        idx <= 2 * depth,
    ensures
        ({
            let (tail, rest) = chain_tail(store, value, idx / 2);
            if idx % 2 == 0 {
                walk_from(store, idx, value) == Walk::Found(tail, rest)
            } else {
                tail matches ValueView::Pair { fst, snd } && walk_from(store, idx, value)
                    == Walk::Found(
                    resolved(rest, fst).unwrap(),
                    rest.remove(canonical_handle(fst)),
                )
            }
        }),
    decreases idx,
{
    if idx >= 3 {
        match value {
            ValueView::Pair { fst, snd } => {
                lemma_walk_on_chain(
                    store.remove(canonical_handle(snd)),
                    resolved(store, snd).unwrap(),
                    (depth - 1) as nat,
                    (idx - 2) as nat,
                );
            },
            _ => {},
        }
    } else if idx == 2 {
        match value {
            ValueView::Pair { fst, snd } => {
                assert(chain_tail(
                    store.remove(canonical_handle(snd)),
                    resolved(store, snd).unwrap(),
                    0,
                ) == (resolved(store, snd).unwrap(), store.remove(canonical_handle(snd))));
            },
            _ => {},
        }
    }
}

/// Walks `idx` steps down a chain of pairs nested to the right and stores
/// the value it arrives at. The price is the flat cost times the index.
pub fn get_n(env: &mut Context, idx: u32, value: Value) -> (r: VMResult<i64>)
    requires
        old(env).has_room(1),
    ensures
        match debit_refusal(old(env)@, (FLAT_COST * idx) as u64) {
            Some(e) => failed(r, e) && final(env)@ == old(env)@,
            None => {
                let paid = debited(old(env)@, (FLAT_COST * idx) as u64);
                match walk_from(old(env)@.store, idx as nat, value@) {
                    Walk::Found(found, store) => r.is_ok() && stored(
                        (ContextView { store, ..paid }),
                        final(env)@,
                        r.unwrap(),
                        found,
                    ),
                    Walk::Missing(store) => failed(r, ErrorView::RuntimeErr(value_missing()))
                        && final(env)@ == (ContextView { store, ..paid }),
                    Walk::NotAPair(other, store) => mismatch(r, other, expected_pair())
                        && final(env)@ == (ContextView { store, ..paid }),
                }
            },
        },
{
    env.update_gas(FLAT_COST * (idx as u64))?;
    let ghost paid = env@;
    let mut current = value;
    let mut steps = idx;
    while steps > 0
        invariant
            debit_refusal(old(env)@, (FLAT_COST * idx) as u64).is_none(),
            paid == debited(old(env)@, (FLAT_COST * idx) as u64),
            env.arena.count() <= old(env).arena.count(),
            env@ == (ContextView { store: env@.store, ..paid }),
            walk_from(paid.store, idx as nat, value@) == walk_from(
                env@.store,
                steps as nat,
                current@,
            ),
        decreases steps,
    {
        let next = match &current {
            Value::Pair { fst, snd } => {
                if steps == 1 {
                    *fst
                } else {
                    *snd
                }
            },
            _ => {
                return Err(type_mismatch(current, "type mismatch, expected Pair"));
            },
        };
        current = env.get(next)?;
        if steps <= 2 {
            steps = 0;
        } else {
            steps = steps - 2;
        }
    }
    Ok(store(env, current))
}


pub open spec fn expected_map_or_set() -> Seq<char> {
    "type mismatch, expected Map/Set with a Key"@
}

pub open spec fn expected_map() -> Seq<char> {
    "type mismatch, expected Map with a Key"@
}

pub open spec fn expected_map_and_option() -> Seq<char> {
    "type mismatch, expected Map with a Option Value"@
}

/// Stores whether a map has a key, or a set an item, that is the value
/// `value2`.
pub fn mem(env: &mut Context, value1: Value, value2: Value) -> (r: VMResult<i64>)
    requires
        old(env).has_room(1),
    ensures
        match debit_refusal(old(env)@, FLAT_COST) {
            Some(e) => failed(r, e) && final(env)@ == old(env)@,
            None => {
                let paid = debited(old(env)@, FLAT_COST);
                match value1@ {
                    ValueView::OrdMap(entries) => match search(
                        paid.store,
                        keys_of(entries),
                        value2@,
                    ) {
                        Search::Dangling => failed(r, ErrorView::RuntimeErr(value_missing()))
                            && final(env)@ == paid,
                        Search::At(_, found) => r.is_ok() && stored(
                            paid,
                            final(env)@,
                            r.unwrap(),
                            ValueView::Bool(found),
                        ),
                    },
                    ValueView::OrdSet(items) => match search(paid.store, items, value2@) {
                        Search::Dangling => failed(r, ErrorView::RuntimeErr(value_missing()))
                            && final(env)@ == paid,
                        Search::At(_, found) => r.is_ok() && stored(
                            paid,
                            final(env)@,
                            r.unwrap(),
                            ValueView::Bool(found),
                        ),
                    },
                    _ => mismatch(r, value1@, expected_map_or_set()) && final(env)@ == paid,
                }
            },
        },
{
    env.update_gas(FLAT_COST)?;
    let position = match &value1 {
        Value::OrdMap(entries) => find_in_map(&env.arena, entries, &value2),
        Value::OrdSet(items) => find_in_set(&env.arena, items, &value2),
        _ => {
            return Err(type_mismatch(value1, "type mismatch, expected Map/Set with a Key"));
        },
    };
    match position {
        None => Err(runtime_error("Value doesnt exist")),
        Some((_, found)) => Ok(store(env, Value::Bool(found))),
    }
}

/// Looks a key up in a map and stores what it finds as an option: full,
/// with the handle of a stored copy of the value under the key, or empty.
pub fn map_get(env: &mut Context, value1: Value, value2: Value) -> (r: VMResult<i64>)
    requires
        old(env).has_room(2),
    ensures
        match debit_refusal(old(env)@, FLAT_COST) {
            Some(e) => failed(r, e) && final(env)@ == old(env)@,
            None => {
                let paid = debited(old(env)@, FLAT_COST);
                match value1@ {
                    ValueView::OrdMap(entries) => match search(
                        paid.store,
                        keys_of(entries),
                        value2@,
                    ) {
                        Search::Dangling => failed(r, ErrorView::RuntimeErr(value_missing()))
                            && final(env)@ == paid,
                        Search::At(at, found) => if found {
                            match resolved(paid.store, entries[at as int].1) {
                                None => failed(r, ErrorView::RuntimeErr(value_missing()))
                                    && final(env)@ == paid,
                                Some(value) => r.is_ok() && stored_in(
                                    paid,
                                    final(env)@,
                                    r.unwrap(),
                                    value,
                                    |h: u64| wrapped(Wrap::Full, h),
                                ),
                            }
                        } else {
                            r.is_ok() && stored(
                                paid,
                                final(env)@,
                                r.unwrap(),
                                ValueView::Option(None),
                            )
                        },
                    },
                    _ => mismatch(r, value1@, expected_map()) && final(env)@ == paid,
                }
            },
        },
{
    env.update_gas(FLAT_COST)?;
    match &value1 {
        Value::OrdMap(entries) => {
            match find_in_map(&env.arena, entries, &value2) {
                None => Err(runtime_error("Value doesnt exist")),
                Some((at, true)) => {
                    let copy = env.get_ref(entries[at].1)?.duplicate();
                    Ok(store_in(env, copy, Wrap::Full))
                },
                Some((_, false)) => Ok(store(env, Value::Option(None))),
            }
        },
        _ => Err(type_mismatch(value1, "type mismatch, expected Map with a Key")),
    }
}

/// The entries of a map after an update at the place where the search for
/// the key ended: with nothing to put, the entry found is taken out; with a
/// value handle to put, it replaces the value handle of the entry found, or
/// goes in as a new entry under the key handle `key`.
pub open spec fn entries_after(
    entries: Seq<(u64, u64)>,
    at: nat,
    found: bool,
    key: u64,
    boxed: Option<u64>,
) -> Seq<(u64, u64)> {
    match boxed {
        None => cut(entries, at, found),
        Some(v) => put(entries, at, found, key, v),
    }
}

/// What an update of a map comes to.
pub enum Updated {
    /// The map or what to put is of the wrong shape.
    Mismatch,
    /// A handle resolves to nothing: the one to put, or that of a key
    /// passed by the search.
    Missing,
    /// The search ended at this place, with the key found or not.
    Placed(nat, bool),
}

/// What the update of `map` under `key` with what `value` holds comes to.
pub open spec fn update_of(
    store: Map<u64, ValueView>,
    map: ValueView,
    key: ValueView,
    value: ValueView,
) -> Updated {
    match (map, value) {
        (ValueView::OrdMap(entries), ValueView::Option(boxed)) => {
            if boxed.is_some() && resolved(store, boxed.unwrap()).is_none() {
                Updated::Missing
            } else {
                match search(store, keys_of(entries), key) {
                    Search::Dangling => Updated::Missing,
                    Search::At(at, found) => Updated::Placed(at, found),
                }
            }
        },
        _ => Updated::Mismatch,
    }
}

/// The entries of a map value, none for other values.
pub open spec fn entries_of(map: ValueView) -> Seq<(u64, u64)> {
    match map {
        ValueView::OrdMap(entries) => entries,
        _ => Seq::empty(),
    }
}

/// The handle that an option value holds, if it is one and holds one.
pub open spec fn boxed_of(value: ValueView) -> Option<u64> {
    match value {
        ValueView::Option(boxed) => boxed,
        _ => None,
    }
}

/// Carries out the update of a map on its entries. Where a new entry goes
/// in, the key is stored for it.
fn place(
    env: &mut Context,
    entries: Vec<(u64, u64)>,
    key: Value,
    boxed: Option<u64>,
    at: usize,
    found: bool,
) -> (r: (Vec<(u64, u64)>, Option<u64>))
    requires
        old(env).has_room(1),
        at <= entries@.len(),
        found ==> at < entries@.len(),
    ensures
        boxed.is_some() && !found ==> r.1.is_some() && is_fresh(old(env)@.store, r.1.unwrap())
            && final(env)@ == (ContextView {
            store: old(env)@.store.insert(r.1.unwrap(), key@),
            ..old(env)@
        }) && final(env).arena.count() == old(env).arena.count() + 1,
        !(boxed.is_some() && !found) ==> r.1.is_none() && final(env)@ == old(env)@
            && final(env).arena.count() == old(env).arena.count(),
        r.0@ == entries_after(
            entries@,
            at as nat,
            found,
            if r.1.is_some() { r.1.unwrap() } else { 0 },
            boxed,
        ),
{
    let mut entries = entries;
    match boxed {
        None => {
            if found {
                entries.remove(at);
            }
            (entries, None)
        },
        Some(v) => {
            if found {
                let k = entries[at].0;
                entries.set(at, (k, v));
                (entries, None)
            } else {
                let k = env.bump_raw(key);
                entries.insert(at, (k, v));
                (entries, Some(k))
            }
        },
    }
}

/// Stores the map that an update makes of a map: the entry under the key
/// is taken out where there is nothing to put, and else holds the value
/// handle to put. The map handed in is not changed.
pub fn update(env: &mut Context, map: Value, key: Value, value: Value) -> (r: VMResult<i64>)
    requires
        old(env).has_room(2),
    ensures
        match debit_refusal(old(env)@, FLAT_COST) {
            Some(e) => failed(r, e) && final(env)@ == old(env)@,
            None => {
                let paid = debited(old(env)@, FLAT_COST);
                match update_of(paid.store, map@, key@, value@) {
                    Updated::Mismatch => mismatch(r, map@, expected_map_and_option())
                        && final(env)@ == paid,
                    Updated::Missing => failed(r, ErrorView::RuntimeErr(value_missing()))
                        && final(env)@ == paid,
                    Updated::Placed(at, found) => r.is_ok() && if boxed_of(value@).is_some()
                        && !found {
                        stored_in(
                            paid,
                            final(env)@,
                            r.unwrap(),
                            key@,
                            |k: u64|
                                ValueView::OrdMap(
                                    entries_after(entries_of(map@), at, found, k, boxed_of(value@)),
                                ),
                        )
                    } else {
                        stored(
                            paid,
                            final(env)@,
                            r.unwrap(),
                            ValueView::OrdMap(
                                entries_after(entries_of(map@), at, found, 0, boxed_of(value@)),
                            ),
                        )
                    },
                }
            },
        },
{
    env.update_gas(FLAT_COST)?;
    let ghost paid = env@;
    let boxed = match &value {
        Value::Option(boxed) => *boxed,
        _ => {
            return Err(type_mismatch(map, "type mismatch, expected Map with a Option Value"));
        },
    };
    let entries = match map {
        Value::OrdMap(entries) => entries,
        other => {
            return Err(type_mismatch(other, "type mismatch, expected Map with a Option Value"));
        },
    };
    match boxed {
        Some(v) => {
            env.get_ref(v)?;
        },
        None => {},
    }
    match find_in_map(&env.arena, &entries, &key) {
        None => Err(runtime_error("Value doesnt exist")),
        Some((at, found)) => {
            let ghost before = entries@;
            let (entries, added) = place(env, entries, key, boxed, at, found);
            let r = store(env, Value::OrdMap(entries));
            proof {
                if added.is_some() {
                    assert(is_fresh(paid.store.insert(added.unwrap(), key@), handle_of(r)));
                }
            }
            Ok(r)
        },
    }
}

/// The value handle that an update takes out of a map: that of the entry
/// found, where there is nothing to put.
pub open spec fn taken_out(
    entries: Seq<(u64, u64)>,
    at: nat,
    found: bool,
    boxed: Option<u64>,
) -> Option<u64> {
    if boxed.is_none() && found {
        Some(entries[at as int].1)
    } else {
        None
    }
}

/// The context `after` is the context `before` after an update of a map
/// that was placed at `at`: with the key stored under the so far unused
/// handle `k` where a new entry went in, the new map stored under `m` and an
/// option with the value handle taken out under `o`, two more unused
/// handles, and with `m` and `o` queued in this order.
pub open spec fn got_and_updated(
    before: ContextView,
    after: ContextView,
    entries: Seq<(u64, u64)>,
    key: ValueView,
    at: nat,
    found: bool,
    boxed: Option<u64>,
    k: u64,
    m: u64,
    o: u64,
) -> bool {
    let adds = boxed.is_some() && !found;
    let keyed = if adds {
        before.store.insert(k, key)
    } else {
        before.store
    };
    let mapped = keyed.insert(
        m,
        ValueView::OrdMap(entries_after(entries, at, found, if adds { k } else { 0 }, boxed)),
    );
    &&& adds ==> is_fresh(before.store, k)
    &&& is_fresh(keyed, m)
    &&& is_fresh(mapped, o)
    &&& after == (ContextView {
        store: mapped.insert(o, ValueView::Option(taken_out(entries, at, found, boxed))),
        pushed: before.pushed + seq![signed_of(m) as i64, signed_of(o) as i64],
        ..before
    })
}

/// The context `after` is the context `before` after an update of a map
/// that was placed at `at`, for some three handles.
pub open spec fn got_and_updated_at(
    before: ContextView,
    after: ContextView,
    entries: Seq<(u64, u64)>,
    key: ValueView,
    at: nat,
    found: bool,
    boxed: Option<u64>,
) -> bool {
    exists|k: u64, m: u64, o: u64| #[trigger]
        got_and_updated(before, after, entries, key, at, found, boxed, k, m, o)
}

/// Updates a map as `update` does, stores the new map and then an option
/// that holds the value handle taken out of the map, if one was, and queues
/// the handles of the two, the map's first.
pub fn get_and_update(env: &mut Context, map: Value, key: Value, value: Value) -> (r: VMResult<()>)
    requires
        old(env).has_room(3),
    ensures
        match debit_refusal(old(env)@, FLAT_COST) {
            Some(e) => failed(r, e) && final(env)@ == old(env)@,
            None => {
                let paid = debited(old(env)@, FLAT_COST);
                match update_of(paid.store, map@, key@, value@) {
                    Updated::Mismatch => mismatch(r, map@, expected_map_and_option())
                        && final(env)@ == paid,
                    Updated::Missing => failed(r, ErrorView::RuntimeErr(value_missing()))
                        && final(env)@ == paid,
                    Updated::Placed(at, found) => r.is_ok() && got_and_updated_at(
                        paid,
                        final(env)@,
                        entries_of(map@),
                        key@,
                        at,
                        found,
                        boxed_of(value@),
                    ),
                }
            },
        },
{
    env.update_gas(FLAT_COST)?;
    let ghost paid = env@;
    let boxed = match &value {
        Value::Option(boxed) => *boxed,
        _ => {
            return Err(type_mismatch(map, "type mismatch, expected Map with a Option Value"));
        },
    };
    let entries = match map {
        Value::OrdMap(entries) => entries,
        other => {
            return Err(type_mismatch(other, "type mismatch, expected Map with a Option Value"));
        },
    };
    match boxed {
        Some(v) => {
            env.get_ref(v)?;
        },
        None => {},
    }
    match find_in_map(&env.arena, &entries, &key) {
        None => Err(runtime_error("Value doesnt exist")),
        Some((at, found)) => {
            let ghost before = entries@;
            assert(before == entries_of(map@));
            assert(boxed == boxed_of(value@));
            assert(update_of(paid.store, map@, key@, value@) == Updated::Placed(at as nat, found));
            let taken = if boxed.is_none() && found {
                Some(entries[at].1)
            } else {
                None
            };
            let (entries, added) = place(env, entries, key, boxed, at, found);
            let m = env.bump(Value::OrdMap(entries));
            let o = env.bump(Value::Option(taken));
            env.push_value(signed(m))?;
            env.push_value(signed(o))?;
            proof {
                let k = if added.is_some() { added.unwrap() } else { 0 };
                assert(env@.pushed =~= paid.pushed + seq![
                    signed_of(m) as i64,
                    signed_of(o) as i64,
                ]);
                assert(got_and_updated(
                    paid,
                    env@,
                    before,
                    key@,
                    at as nat,
                    found,
                    boxed,
                    k,
                    m,
                    o,
                ));
                assert(got_and_updated_at(paid, env@, before, key@, at as nat, found, boxed));
            }
            Ok(())
        },
    }
}


pub open spec fn illegal_argument() -> Seq<char> {
    "illegal argument"@
}

pub open spec fn cant_happen() -> Seq<char> {
    "cant happen"@
}

pub open spec fn expected_lambda() -> Seq<char> {
    "type mismatch, expected Lambda"@
}

/// Stores a value and the list that has its handle before the items of a
/// list. Nothing is debited.
pub fn cons(env: &mut Context, v1: Value, v2: Value) -> (r: VMResult<i64>)
    requires
        old(env).has_room(2),
    ensures
        match v2@ {
            ValueView::List(items) => r.is_ok() && stored_in(
                old(env)@,
                final(env)@,
                r.unwrap(),
                v1@,
                |h: u64| ValueView::List(seq![h] + items),
            ),
            _ => failed(r, ErrorView::RuntimeErr(illegal_argument())) && final(env)@ == old(env)@,
        },
{
    match v2 {
        Value::List(list) => {
            let mut list = list;
            let h = env.bump_raw(v1);
            list_push_front(&mut list, h);
            let r = store(env, Value::List(list));
            assert(is_fresh(old(env)@.store.insert(h, v1@), handle_of(r)));
            Ok(r)
        },
        _ => Err(runtime_error("illegal argument")),
    }
}

/// Packages an outgoing operation: stores the destination `v1`, the payload
/// `v3` and the pair of the two. The amount `v2` must be the integer zero.
/// Nothing is debited.
pub fn transfer_tokens(env: &mut Context, v1: Value, v2: Value, v3: Value) -> (r: VMResult<i64>)
    requires
        old(env).has_room(3),
    ensures
        if v2@ == ValueView::Int(0) {
            r.is_ok() && stored_pair(old(env)@, final(env)@, r.unwrap(), v1@, v3@)
        } else {
            failed(r, ErrorView::RuntimeErr(illegal_argument())) && final(env)@ == old(env)@
        },
{
    match &v2 {
        Value::Int(amount) => {
            if !amount.is_zero() {
                return Err(runtime_error("illegal argument"));
            }
            Ok(store_pair(env, v1, v3))
        },
        _ => Err(runtime_error("illegal argument")),
    }
}

/// Stores a copy of the predefined empty list.
pub fn nil(env: &mut Context) -> (r: VMResult<i64>)
    requires
        old(env).has_room(1),
    ensures
        r.is_ok() && stored(old(env)@, final(env)@, r.unwrap(), old(env)@.predef.nil),
{
    let copy = env.predef.nil.duplicate();
    Ok(store(env, copy))
}

/// Stores a copy of the predefined unit value.
pub fn unit(env: &mut Context) -> (r: VMResult<i64>)
    requires
        old(env).has_room(1),
    ensures
        r.is_ok() && stored(old(env)@, final(env)@, r.unwrap(), old(env)@.predef.unit),
{
    let copy = env.predef.unit.duplicate();
    Ok(store(env, copy))
}

/// Stores a copy of the constant with the given index. There is none for a
/// negative index or one past the table.
pub fn const_(env: &mut Context, idx: i32) -> (r: VMResult<i64>)
    requires
        old(env).has_room(1),
    ensures
        if 0 <= idx < old(env)@.constants.len() {
            r.is_ok() && stored(
                old(env)@,
                final(env)@,
                r.unwrap(),
                old(env)@.constants[idx as int],
            )
        } else {
            failed(r, ErrorView::RuntimeErr(cant_happen())) && final(env)@ == old(env)@
        },
{
    if idx < 0 {
        return Err(runtime_error("cant happen"));
    }
    let at = idx as usize;
    if at >= env.constants.len() {
        return Err(runtime_error("cant happen"));
    }
    let copy = env.constants[at].duplicate();
    Ok(store(env, copy))
}

/// Stores a copy of the predefined empty map.
pub fn empty_map(env: &mut Context) -> (r: VMResult<i64>)
    requires
        old(env).has_room(1),
    ensures
        r.is_ok() && stored(old(env)@, final(env)@, r.unwrap(), old(env)@.predef.empty_map),
{
    let copy = env.predef.empty_map.duplicate();
    Ok(store(env, copy))
}

/// Stores a copy of the predefined empty set.
pub fn empty_set(env: &mut Context) -> (r: VMResult<i64>)
    requires
        old(env).has_room(1),
    ensures
        r.is_ok() && stored(old(env)@, final(env)@, r.unwrap(), old(env)@.predef.empty_set),
{
    let copy = env.predef.empty_set.duplicate();
    Ok(store(env, copy))
}

/// Stores a copy of the predefined zero.
pub fn zero(env: &mut Context) -> (r: VMResult<i64>)
    requires
        old(env).has_room(1),
    ensures
        r.is_ok() && stored(old(env)@, final(env)@, r.unwrap(), old(env)@.predef.zero),
{
    let copy = env.predef.zero.duplicate();
    Ok(store(env, copy))
}

/// Stores a copy of the address of the contract that runs.
pub fn self_(env: &mut Context) -> (r: VMResult<i64>)
    requires
        old(env).has_room(1),
    ensures
        r.is_ok() && stored(old(env)@, final(env)@, r.unwrap(), old(env)@.predef.self_),
{
    let copy = env.predef.self_.duplicate();
    Ok(store(env, copy))
}

/// Stores a copy of the address of the sender.
pub fn sender(env: &mut Context) -> (r: VMResult<i64>)
    requires
        old(env).has_room(1),
    ensures
        r.is_ok() && stored(old(env)@, final(env)@, r.unwrap(), old(env)@.predef.sender),
{
    let copy = env.predef.sender.duplicate();
    Ok(store(env, copy))
}

/// Stores a copy of the address of the source of the transaction.
pub fn source(env: &mut Context) -> (r: VMResult<i64>)
    requires
        old(env).has_room(1),
    ensures
        r.is_ok() && stored(old(env)@, final(env)@, r.unwrap(), old(env)@.predef.source),
{
    let copy = env.predef.source.duplicate();
    Ok(store(env, copy))
}

/// Stores a copy of the predefined empty option.
pub fn none(env: &mut Context) -> (r: VMResult<i64>)
    requires
        old(env).has_room(1),
    ensures
        r.is_ok() && stored(old(env)@, final(env)@, r.unwrap(), old(env)@.predef.none),
{
    let copy = env.predef.none.duplicate();
    Ok(store(env, copy))
}

/// A call into the guest that the host asks for: the guest function with the
/// given selector, on the argument with the given handle.
#[derive(Debug, Clone, Copy, PartialEq, Eq, Structural)]
pub struct GuestCall {
    pub arg: i64,
    pub selector: i32,
}

/// The context `after` is the context `before` after a closure that has `x`
/// bound took `value` as one more argument: with `value` stored under `b`,
/// the pair of `b` and `x` under `p`, and under the handle that `r` stands
/// for the closure of `call` with `p` bound, three so far unused handles.
pub open spec fn applied(
    before: ContextView,
    after: ContextView,
    r: i64,
    value: ValueView,
    x: u64,
    call: i32,
    b: u64,
    p: u64,
) -> bool {
    let first = before.store.insert(b, value);
    let second = first.insert(p, ValueView::Pair { fst: b, snd: x });
    &&& is_fresh(before.store, b)
    &&& is_fresh(first, p)
    &&& is_fresh(second, handle_of(r))
    &&& after == (ContextView {
        store: second.insert(handle_of(r), ValueView::Closure { opt_arg: Some(p), call }),
        ..before
    })
}

/// The same, for some two handles `b` and `p`.
pub open spec fn applied_to(
    before: ContextView,
    after: ContextView,
    r: i64,
    value: ValueView,
    x: u64,
    call: i32,
) -> bool {
    exists|b: u64, p: u64| #[trigger] applied(before, after, r, value, x, call, b, p)
}

/// Binds one more argument to a closure and stores the closure that
/// results. To a closure with nothing bound the argument itself is bound;
/// to one with something bound, the pair of the argument and what was
/// bound. Nothing is debited.
pub fn apply(env: &mut Context, v: Value, lam: Value) -> (r: VMResult<i64>)
    requires
        old(env).has_room(3),
    ensures
        match lam@ {
            ValueView::Closure { opt_arg: None, call } => r.is_ok() && stored_in(
                old(env)@,
                final(env)@,
                r.unwrap(),
                v@,
                |h: u64| ValueView::Closure { opt_arg: Some(h), call },
            ),
            ValueView::Closure { opt_arg: Some(x), call } => r.is_ok() && applied_to(
                old(env)@,
                final(env)@,
                r.unwrap(),
                v@,
                x,
                call,
            ),
            _ => mismatch(r, lam@, expected_lambda()) && final(env)@ == old(env)@,
        },
{
    match &lam {
        Value::Closure { opt_arg, call } => {
            let call = *call;
            let b = env.bump_raw(v);
            match opt_arg {
                None => {
                    let r = store(env, Value::Closure { opt_arg: Some(b), call });
                    assert(is_fresh(old(env)@.store.insert(b, v@), handle_of(r)));
                    Ok(r)
                },
                Some(x) => {
                    let p = env.bump_raw(Value::Pair { fst: b, snd: *x });
                    let r = store(env, Value::Closure { opt_arg: Some(p), call });
                    assert(applied(old(env)@, env@, r, v@, *x, call, b, p));
                    Ok(r)
                },
            }
        },
        _ => Err(type_mismatch(lam, "type mismatch, expected Lambda")),
    }
}

/// Prepares the call of a closure on an argument. The argument is stored;
/// where the closure has something bound, so is the pair of the argument and
/// what is bound. The call to make is that of the closure's function on the
/// argument, or on the pair. Nothing is debited.
pub fn exec(env: &mut Context, v: Value, lam: Value) -> (r: VMResult<GuestCall>)
    requires
        old(env).has_room(2),
    ensures
        match lam@ {
            ValueView::Closure { opt_arg: None, call } => r.is_ok() && r.unwrap().selector == call
                && stored(old(env)@, final(env)@, r.unwrap().arg, v@),
            ValueView::Closure { opt_arg: Some(x), call } => r.is_ok() && r.unwrap().selector
                == call && stored_in(
                old(env)@,
                final(env)@,
                r.unwrap().arg,
                v@,
                |b: u64| ValueView::Pair { fst: b, snd: x },
            ),
            _ => mismatch(r, lam@, expected_lambda()) && final(env)@ == old(env)@,
        },
{
    match &lam {
        Value::Closure { opt_arg, call } => {
            let selector = *call;
            let b = env.bump_raw(v);
            match opt_arg {
                None => Ok(GuestCall { arg: signed(b), selector }),
                Some(x) => {
                    let arg = store(env, Value::Pair { fst: b, snd: *x });
                    assert(is_fresh(old(env)@.store.insert(b, v@), handle_of(arg)));
                    Ok(GuestCall { arg, selector })
                },
            }
        },
        _ => Err(type_mismatch(lam, "type mismatch, expected Lambda")),
    }
}

/// The calls that a walk over a list asks for: one for each item, the last
/// item first, each of the guest function with the given selector.
pub open spec fn calls_for(items: Seq<u64>, selector: i32) -> Seq<GuestCall> {
    Seq::new(
        items.len(),
        |i: int| GuestCall { arg: signed_of(items[items.len() - 1 - i]) as i64, selector },
    )
}

/// The calls to make for each item of a list, the last item first.
fn calls_over(list: &im_rc::Vector<u64>, selector: i32) -> (calls: Vec<GuestCall>)
    ensures
        calls@ == calls_for(list_items(*list), selector),
{
    let n = list_len(list);
    let mut calls: Vec<GuestCall> = Vec::new();
    let mut i: usize = n;
    while i > 0
        invariant
            i <= n,
            n == list_items(*list).len(),
            calls@.len() == n - i,
            forall|k: int|
                0 <= k < calls@.len() ==> calls@[k] == (GuestCall {
                    arg: signed_of(list_items(*list)[n - 1 - k]) as i64,
                    selector,
                }),
        decreases i,
    {
        i = i - 1;
        match list_get(list, i) {
            Some(h) => {
                calls.push(GuestCall { arg: signed(h), selector });
            },
            None => {},
        }
    }
    assert(calls@ =~= calls_for(list_items(*list), selector));
    calls
}

/// The calls that visit each item of a list, the last item first. Nothing
/// is debited and nothing changes.
pub fn iter(env: &Context, v: Value, idx: i32) -> (r: VMResult<Vec<GuestCall>>)
    ensures
        match v@ {
            ValueView::List(items) => r.is_ok() && r.unwrap()@ == calls_for(items, idx),
            _ => mismatch(r, v@, expected_map_and_option()),
        },
{
    match &v {
        Value::List(list) => Ok(calls_over(list, idx)),
        _ => Err(type_mismatch(v, "type mismatch, expected Map with a Option Value")),
    }
}

/// The calls that map each item of a list, the last item first. Nothing is
/// debited and nothing changes. What the calls return goes to
/// `map_results`.
pub fn map(env: &Context, v: Value, idx: i32) -> (r: VMResult<Vec<GuestCall>>)
    ensures
        match v@ {
            ValueView::List(items) => r.is_ok() && r.unwrap()@ == calls_for(items, idx),
            _ => mismatch(r, v@, expected_map_and_option()),
        },
{
    match &v {
        Value::List(list) => Ok(calls_over(list, idx)),
        _ => Err(type_mismatch(v, "type mismatch, expected Map with a Option Value")),
    }
}

/// The handles that signed integers stand for, in reverse.
pub open spec fn handles_reversed(results: Seq<i64>) -> Seq<u64> {
    Seq::new(results.len(), |i: int| handle_of(results[results.len() - 1 - i]))
}

/// Every one of the integers stands for a handle that resolves.
pub open spec fn all_resolve(store: Map<u64, ValueView>, results: Seq<i64>) -> bool {
    forall|i: int| 0 <= i < results.len() ==> resolved(store, handle_of(#[trigger] results[i])).is_some()
}

/// Stores the list that a map over a list comes to. The results are what
/// the calls of `map` returned, in the order of the calls: the list holds
/// them in the order of the items, which is the reverse. Every result must
/// resolve.
pub fn map_results(env: &mut Context, results: Vec<i64>) -> (r: VMResult<i64>)
    requires
        old(env).has_room(1),
    ensures
        if all_resolve(old(env)@.store, results@) {
            r.is_ok() && stored(
                old(env)@,
                final(env)@,
                r.unwrap(),
                ValueView::List(handles_reversed(results@)),
            )
        } else {
            failed(r, ErrorView::RuntimeErr(value_missing())) && final(env)@ == old(env)@
        },
{
    let mut list = list_new();
    let n = results.len();
    let mut i: usize = n;
    assert(list_items(list) =~= handles_reversed(results@).take(0));
    while i > 0
        invariant
            i <= n,
            n == results@.len(),
            env@ == old(env)@,
            env.arena.count() == old(env).arena.count(),
            list_items(list) == handles_reversed(results@).take(n - i),
            forall|k: int| i <= k < n ==> resolved(env@.store, handle_of(#[trigger] results@[k])).is_some(),
        decreases i,
    {
        i = i - 1;
        let h = to_u64(results[i]);
        match env.get_ref(h) {
            Ok(_) => {},
            Err(e) => {
                return Err(e);
            },
        }
        list_push_back(&mut list, h);
        assert(list_items(list) =~= handles_reversed(results@).take(n - i));
    }
    assert(handles_reversed(results@).take(n as int) =~= handles_reversed(results@));
    Ok(store(env, Value::List(list)))
}

/// Stores a copy of the value under a handle and queues the copy's handle
/// for the guest's operand stack. Nothing is debited; nothing is done
/// before the context is ready.
pub fn dup_host(env: &mut Context, v: i64) -> (r: VMResult<()>)
    requires
        old(env).has_room(1),
    ensures
        if old(env)@.state != crate::env::Lifecycle::Ready {
            failed(r, ErrorView::InstantiationErr(crate::env::pusher_missing())) && final(env)@
                == old(env)@
        } else {
            match resolved(old(env)@.store, handle_of(v)) {
                Some(value) => r.is_ok() && exists|h: u64| #[trigger]
                    is_fresh(old(env)@.store, h) && final(env)@ == (ContextView {
                        store: old(env)@.store.insert(h, value),
                        pushed: old(env)@.pushed.push(signed_of(h) as i64),
                        ..old(env)@
                    }),
                None => failed(r, ErrorView::RuntimeErr(value_missing())) && final(env)@ == old(
                    env,
                )@,
            }
        },
{
    match env.state {
        crate::env::Lifecycle::Ready => {},
        _ => {
            return Err(
                VmError::InstantiationErr("pusher missing, lifecycle error".to_string()),
            );
        },
    }
    let copy = env.get_ref(to_u64(v))?.duplicate();
    let h = env.bump(copy);
    env.push_value(signed(h))?;
    assert(is_fresh(old(env)@.store, h));
    Ok(())
}

/// Stores a copy of the value under a handle. Nothing is debited.
pub fn address(env: &mut Context, v: i64) -> (r: VMResult<i64>)
    requires
        old(env).has_room(1),
    ensures
        match resolved(old(env)@.store, handle_of(v)) {
            Some(value) => r.is_ok() && stored(old(env)@, final(env)@, r.unwrap(), value),
            None => failed(r, ErrorView::RuntimeErr(value_missing())) && final(env)@ == old(env)@,
        },
{
    let copy = env.get_ref(to_u64(v))?.duplicate();
    Ok(store(env, copy))
}


/// A store without what a handle resolves to.
pub open spec fn without(store: Map<u64, ValueView>, h: u64) -> Map<u64, ValueView> {
    if store.dom().contains(canonical_handle(h)) {
        store.remove(canonical_handle(h))
    } else {
        store
    }
}

/// Takes the value under a handle out of the arena; the handle is left
/// without a value.
fn take(env: &mut Context, arg: i64) -> (r: VMResult<Value>)
    ensures
        match resolved(old(env)@.store, handle_of(arg)) {
            Some(value) => r.is_ok() && r.unwrap()@ == value,
            None => failed(r, ErrorView::RuntimeErr(value_missing())),
        },
        final(env)@ == (ContextView {
            store: without(old(env)@.store, handle_of(arg)),
            ..old(env)@
        }),
        final(env).arena.count() <= old(env).arena.count(),
        r.is_ok() ==> final(env).arena.count() == old(env).arena.count() - 1,
{
    env.get(to_u64(arg))
}

/// Resolves the argument of a host function of one value: the value under
/// the handle is taken out of the arena.
pub fn call1(env: &mut Context, arg: i64) -> (r: VMResult<Value>)
    ensures
        match resolved(old(env)@.store, handle_of(arg)) {
            Some(value) => r.is_ok() && r.unwrap()@ == value,
            None => failed(r, ErrorView::RuntimeErr(value_missing())),
        },
        final(env)@ == (ContextView {
            store: without(old(env)@.store, handle_of(arg)),
            ..old(env)@
        }),
        r.is_ok() ==> final(env).arena.count() == old(env).arena.count() - 1,
{
    take(env, arg)
}

/// Resolves the arguments of a host function of two values, the first
/// first. Each value that resolves is taken out of the arena, also where the
/// other does not resolve.
pub fn call2(env: &mut Context, arg: i64, arg2: i64) -> (r: VMResult<(Value, Value)>)
    ensures
        ({
            let first = old(env)@.store;
            let second = without(first, handle_of(arg));
            &&& match (resolved(first, handle_of(arg)), resolved(second, handle_of(arg2))) {
                (Some(x), Some(y)) => r.is_ok() && r.unwrap().0@ == x && r.unwrap().1@ == y,
                _ => failed(r, ErrorView::RuntimeErr(illegal_argument())),
            }
            &&& final(env)@ == (ContextView {
                store: without(second, handle_of(arg2)),
                ..old(env)@
            })
        }),
        r.is_ok() ==> final(env).arena.count() == old(env).arena.count() - 2,
{
    let first = take(env, arg);
    let second = take(env, arg2);
    match (first, second) {
        (Ok(x), Ok(y)) => Ok((x, y)),
        _ => Err(runtime_error("illegal argument")),
    }
}

/// Resolves the value argument of a host function of an index and a value.
pub fn call2_extra(env: &mut Context, arg: u32, arg2: i64) -> (r: VMResult<(u32, Value)>)
    ensures
        match resolved(old(env)@.store, handle_of(arg2)) {
            Some(value) => r.is_ok() && r.unwrap().0 == arg && r.unwrap().1@ == value,
            None => failed(r, ErrorView::RuntimeErr(illegal_argument())),
        },
        final(env)@ == (ContextView {
            store: without(old(env)@.store, handle_of(arg2)),
            ..old(env)@
        }),
        r.is_ok() ==> final(env).arena.count() == old(env).arena.count() - 1,
{
    match take(env, arg2) {
        Ok(x) => Ok((arg, x)),
        Err(_) => Err(runtime_error("illegal argument")),
    }
}

/// Resolves the value argument of a host function of a value and a
/// selector.
pub fn call2_mapping(env: &mut Context, arg: i64, arg2: i32) -> (r: VMResult<(Value, i32)>)
    ensures
        match resolved(old(env)@.store, handle_of(arg)) {
            Some(value) => r.is_ok() && r.unwrap().0@ == value && r.unwrap().1 == arg2,
            None => failed(r, ErrorView::RuntimeErr(illegal_argument())),
        },
        final(env)@ == (ContextView {
            store: without(old(env)@.store, handle_of(arg)),
            ..old(env)@
        }),
        r.is_ok() ==> final(env).arena.count() == old(env).arena.count() - 1,
{
    match take(env, arg) {
        Ok(x) => Ok((x, arg2)),
        Err(_) => Err(runtime_error("illegal argument")),
    }
}

/// The two handles that the arguments of a host function of two handles
/// stand for. Nothing is resolved.
pub fn call2_default(arg: u32, arg2: i64) -> (r: (u64, u64))
    ensures
        r.0 == arg,
        r.1 == handle_of(arg2),
{
    (arg as u64, to_u64(arg2))
}

/// Resolves the first argument of a host function of a value and a handle.
pub fn call2_default_value(env: &mut Context, arg: u32, arg2: i64) -> (r: VMResult<(Value, u64)>)
    ensures
        match resolved(old(env)@.store, arg as u64) {
            Some(value) => r.is_ok() && r.unwrap().0@ == value && r.unwrap().1 == handle_of(arg2),
            None => failed(r, ErrorView::RuntimeErr(value_missing())),
        },
        final(env)@ == (ContextView {
            store: without(old(env)@.store, arg as u64),
            ..old(env)@
        }),
        r.is_ok() ==> final(env).arena.count() == old(env).arena.count() - 1,
{
    let x = env.get(arg as u64)?;
    Ok((x, to_u64(arg2)))
}

/// Resolves the arguments of a host function of three values: the first,
/// then the third, then the second. Each value that resolves is taken out
/// of the arena. The values are handed back in the order of the arguments.
pub fn call3(env: &mut Context, arg: i64, arg2: i64, arg3: i64) -> (r: VMResult<
    (Value, Value, Value),
>)
    ensures
        ({
            let first = old(env)@.store;
            let second = without(first, handle_of(arg));
            let third = without(second, handle_of(arg3));
            &&& match (
                resolved(first, handle_of(arg)),
                resolved(second, handle_of(arg3)),
                resolved(third, handle_of(arg2)),
            ) {
                (Some(x), Some(z), Some(y)) => r.is_ok() && r.unwrap().0@ == x && r.unwrap().1@
                    == y && r.unwrap().2@ == z,
                _ => failed(r, ErrorView::RuntimeErr(illegal_argument())),
            }
            &&& final(env)@ == (ContextView {
                store: without(third, handle_of(arg2)),
                ..old(env)@
            })
        }),
        r.is_ok() ==> final(env).arena.count() == old(env).arena.count() - 3,
{
    let first = take(env, arg);
    let third = take(env, arg3);
    let second = take(env, arg2);
    match (first, second, third) {
        (Ok(x), Ok(y), Ok(z)) => Ok((x, y, z)),
        _ => Err(runtime_error("illegal argument")),
    }
}

} // verus!
