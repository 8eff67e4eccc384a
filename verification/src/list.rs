//! Persistent lists of handles.
//!
//! A `List` value holds its handles in an `im_rc::Vector`, whose copies share
//! structure. Verus does not look inside it: what it holds is named by
//! [`list_items`], and each operation the library uses is declared here with
//! what it does to those items.

use vstd::prelude::*;

verus! {

#[verifier::external_type_specification]
#[verifier::external_body]
#[verifier::reject_recursive_types(A)]
pub struct ExVector<A>(im_rc::Vector<A>);

/// The handles that a list holds, first to last.
pub uninterp spec fn list_items(list: im_rc::Vector<u64>) -> Seq<u64>;

/// `Vector::new`: a list that holds nothing.
#[verifier::external_body]
pub(crate) fn list_new() -> (list: im_rc::Vector<u64>)
    ensures
        list_items(list) == Seq::<u64>::empty(),
{
    im_rc::Vector::new()
}

/// `Vector::len`: the number of items held.
#[verifier::external_body]
pub(crate) fn list_len(list: &im_rc::Vector<u64>) -> (n: usize)
    ensures
        n == list_items(*list).len(),
{
    list.len()
}

/// `Vector::get`: the item at an index, or nothing at or past the length.
#[verifier::external_body]
pub(crate) fn list_get(list: &im_rc::Vector<u64>, index: usize) -> (item: Option<u64>)
    ensures
        item == (if index < list_items(*list).len() {
            Some(list_items(*list)[index as int])
        } else {
            None
        }),
{
    list.get(index).copied()
}

/// `Vector::push_front`: the item becomes the first, before all others.
#[verifier::external_body]
pub(crate) fn list_push_front(list: &mut im_rc::Vector<u64>, item: u64)
    ensures
        list_items(*final(list)) == seq![item] + list_items(*old(list)),
{
    list.push_front(item);
}

/// `Vector::push_back`: the item becomes the last, after all others.
#[verifier::external_body]
pub(crate) fn list_push_back(list: &mut im_rc::Vector<u64>, item: u64)
    ensures
        list_items(*final(list)) == list_items(*old(list)).push(item),
{
    list.push_back(item);
}

/// `Vector::take`: a list of the first `count` items. The outside function
/// panics on a count beyond the length, which the precondition leaves out.
#[verifier::external_body]
pub(crate) fn list_take(list: &im_rc::Vector<u64>, count: usize) -> (head: im_rc::Vector<u64>)
    requires
        count <= list_items(*list).len(),
    ensures
        list_items(head) == list_items(*list).take(count as int),
{
    list.take(count)
}

/// `Vector::clone`: a list of the same items.
#[verifier::external_body]
pub(crate) fn list_clone(list: &im_rc::Vector<u64>) -> (copy: im_rc::Vector<u64>)
    ensures
        list_items(copy) == list_items(*list),
{
    list.clone()
}

} // verus!
