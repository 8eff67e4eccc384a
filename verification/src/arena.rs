//! The value arena: a slot table from handles to values.
//!
//! The slots are a `slotmap::HopSlotMap`, which Verus does not look inside.
//! What it holds is named by [`arena_contents`], and the handles it has given
//! out and taken back by [`arena_retired`]; the functions at the head of this
//! file declare what each operation of the slot map does to the two. The
//! methods of [`Arena`] are proved from those declarations.

use vstd::prelude::*;

use crate::value::{Value, ValueView};

verus! {

/// The arena of one invocation. Handles are 64-bit integers: a slot index in
/// the low half and the slot's generation in the high half.
#[verifier::external_body]
#[derive(Debug)]
pub struct Arena {
    slots: slotmap::HopSlotMap<slotmap::DefaultKey, Value>,
}

/// The values that an arena holds, each under its handle.
pub uninterp spec fn arena_contents(arena: Arena) -> Map<u64, Value>;

/// The handles that an arena has taken back and whose slot has not yet run
/// through all its generations: none of them is given out again.
pub uninterp spec fn arena_retired(arena: Arena) -> Set<u64>;

/// The size of a set of handles, if the set is finite.
pub open spec fn finite_size(handles: Set<u64>) -> Option<nat> {
    if handles.finite() {
        Some(handles.len())
    } else {
        None
    }
}

/// The most values that an arena holds at a time.
pub const ARENA_LIMIT: u64 = 0xFFFF_FFFE;

/// The handle that an integer is read as: the generation of a handle is odd,
/// so the lowest bit of the high half is taken as set.
pub open spec fn canonical_handle(h: u64) -> u64 {
    h | 0x1_0000_0000
}

/// Whether a handle is of the last generation of its slot. When such a
/// handle is taken back, its slot starts over with the first generation.
pub open spec fn last_generation(h: u64) -> bool {
    h >= 0xFFFF_FFFF_0000_0000
}

/// A map that holds nothing.
pub open spec fn empty_contents() -> Map<u64, Value> {
    Map::empty()
}

/// The empty set of handles.
pub open spec fn empty_handles() -> Set<u64> {
    Set::empty()
}

/// None of the handles is of its slot's last generation.
pub open spec fn all_renewable(handles: Set<u64>) -> bool {
    forall|h: u64| handles.contains(h) ==> !last_generation(h)
}

/// `HopSlotMap::with_capacity`: an empty slot map. Nothing is held and no
/// handle was taken back yet.
#[verifier::external_body]
fn slots_with_capacity(capacity: usize) -> (arena: Arena)
    requires
        capacity <= 0x10_0000,
    ensures
        arena_contents(arena) == empty_contents(),
        arena_retired(arena) == empty_handles(),
{
    Arena { slots: slotmap::HopSlotMap::with_capacity(capacity) }
}

/// `HopSlotMap::len`: the number of values held, which is finite.
#[verifier::external_body]
fn slots_len(arena: &Arena) -> (n: usize)
    ensures
        finite_size(arena_contents(*arena).dom()) == Some(n as nat),
{
    arena.slots.len()
}

/// `HopSlotMap::insert`, with the key handed back as the integer that
/// `KeyData::as_ffi` gives. The value is held under a handle that held
/// nothing before and that was never taken back; everything else stays. The
/// outside function panics when 2^32 - 2 values are held, which the
/// precondition leaves out.
#[verifier::external_body]
fn slots_insert(arena: &mut Arena, value: Value) -> (h: u64)
    requires
        arena_contents(*old(arena)).dom().len() < ARENA_LIMIT,
    ensures
        !arena_contents(*old(arena)).dom().contains(h),
        !arena_retired(*old(arena)).contains(h),
        canonical_handle(h) == h,
        arena_contents(*final(arena)) == arena_contents(*old(arena)).insert(h, value),
        arena_retired(*final(arena)) == arena_retired(*old(arena)),
{
    slotmap::Key::data(&arena.slots.insert(value)).as_ffi()
}

/// `HopSlotMap::get`, with the key read from an integer by
/// `KeyData::from_ffi`: the value held under the handle that the integer is
/// read as, if one is held.
#[verifier::external_body]
fn slots_get(arena: &Arena, h: u64) -> (found: Option<&Value>)
    ensures
        found == (if arena_contents(*arena).dom().contains(canonical_handle(h)) {
            Some(&arena_contents(*arena)[canonical_handle(h)])
        } else {
            None
        }),
{
    arena.slots.get(slotmap::DefaultKey::from(slotmap::KeyData::from_ffi(h)))
}

/// `HopSlotMap::remove`, with the key read from an integer by
/// `KeyData::from_ffi`: the value held under the handle is handed out and no
/// longer held; the handle counts as taken back unless it was of its slot's
/// last generation. Where nothing is held under it, nothing changes.
#[verifier::external_body]
fn slots_remove(arena: &mut Arena, h: u64) -> (found: Option<Value>)
    ensures
        found == (if arena_contents(*old(arena)).dom().contains(canonical_handle(h)) {
            Some(arena_contents(*old(arena))[canonical_handle(h)])
        } else {
            None
        }),
        arena_contents(*final(arena)) == arena_contents(*old(arena)).remove(canonical_handle(h)),
        found.is_none() ==> arena_retired(*final(arena)) == arena_retired(*old(arena)),
        found.is_some() && !last_generation(canonical_handle(h)) ==> arena_retired(*final(arena))
            == arena_retired(*old(arena)).insert(canonical_handle(h)),
{
    arena.slots.remove(slotmap::DefaultKey::from(slotmap::KeyData::from_ffi(h)))
}

/// `HopSlotMap::clear`: nothing is held afterwards. Every handle that held a
/// value counts as taken back, provided none of them was of its slot's last
/// generation.
#[verifier::external_body]
fn slots_clear(arena: &mut Arena)
    ensures
        arena_contents(*final(arena)) == empty_contents(),
        all_renewable(arena_contents(*old(arena)).dom()) ==> arena_retired(*final(arena))
            == arena_retired(*old(arena)).union(arena_contents(*old(arena)).dom()),
{
    arena.slots.clear();
}

impl View for Arena {
    type V = Map<u64, ValueView>;

    /// The arena as a map from handles to what the values under them are.
    closed spec fn view(&self) -> Map<u64, ValueView> {
        arena_contents(*self).map_values(|v: Value| v@)
    }
}

impl Arena {
    /// The handles that the arena has taken back and does not give out
    /// again.
    pub closed spec fn retired(&self) -> Set<u64> {
        arena_retired(*self)
    }

    /// What a handle resolves to: the value under the handle that the integer
    /// is read as, if the arena holds one.
    pub open spec fn resolve(&self, h: u64) -> Option<ValueView> {
        if self@.dom().contains(canonical_handle(h)) {
            Some(self@[canonical_handle(h)])
        } else {
            None
        }
    }

    /// The number of values held.
    pub open spec fn count(&self) -> nat {
        self@.dom().len()
    }

    /// Whether `n` more values can be inserted.
    pub open spec fn has_room(&self, n: nat) -> bool {
        self.count() + n <= ARENA_LIMIT
    }

    /// No handle in use is of its slot's last generation, so that every
    /// handle taken back stays out of use.
    pub open spec fn unworn(&self) -> bool {
        all_renewable(self@.dom())
    }

    /// Whether the arena once gave the handle out: a value is held under it,
    /// or it was taken back.
    pub open spec fn gave_out(&self, h: u64) -> bool {
        self@.dom().contains(h) || self.retired().contains(h)
    }

    /// How an arena stands to the arena it was before a value was inserted
    /// under the handle `h`.
    pub open spec fn after_insert(&self, before: Arena, h: u64, value: ValueView) -> bool {
        &&& !before.gave_out(h)
        &&& canonical_handle(h) == h
        &&& self@ == before@.insert(h, value)
        &&& self.retired() == before.retired()
    }

    /// How an arena stands to the arena it was before it was cleared.
    pub open spec fn after_clear(&self, before: Arena) -> bool {
        &&& self@ == Map::<u64, ValueView>::empty()
        &&& before.unworn() ==> forall|h: u64| before.gave_out(h) ==> self.gave_out(h)
    }

    /// An empty arena.
    pub fn new() -> (arena: Arena)
        ensures
            arena@ == Map::<u64, ValueView>::empty(),
            forall|h: u64| !arena.gave_out(h),
    {
        let arena = slots_with_capacity(4000);
        assert(arena@ =~= Map::<u64, ValueView>::empty());
        arena
    }

    /// The number of values held.
    pub fn len(&self) -> (n: usize)
        ensures
            n == self.count(),
            self@.dom().finite(),
    {
        let n = slots_len(self);
        assert(self@.dom() =~= arena_contents(*self).dom());
        n
    }

    /// Inserts a value and returns its handle, which is a handle that the
    /// arena did not have in use and never took back.
    pub fn insert(&mut self, value: Value) -> (h: u64)
        requires
            old(self).has_room(1),
        ensures
            final(self).after_insert(*old(self), h, value@),
            final(self).count() == old(self).count() + 1,
            final(self).resolve(h) == Some(value@),
    {
        let n = slots_len(self);
        assert(self@.dom() =~= arena_contents(*self).dom());
        let h = slots_insert(self, value);
        assert(self@ =~= old(self)@.insert(h, value@));
        assert(self@.dom() =~= old(self)@.dom().insert(h));
        h
    }

    /// Inserts a value if the arena has room for it; a full arena stays as
    /// it is.
    pub fn try_insert(&mut self, value: Value) -> (r: Option<u64>)
        ensures
            match r {
                Some(h) => old(self).has_room(1) && final(self).after_insert(
                    *old(self),
                    h,
                    value@,
                ) && final(self).count() == old(self).count() + 1,
                None => !old(self).has_room(1) && *final(self) == *old(self),
            },
    {
        if self.len() as u64 >= ARENA_LIMIT {
            None
        } else {
            Some(self.insert(value))
        }
    }

    /// Whether `n` more values can be inserted.
    pub fn room_for(&self, n: u64) -> (r: bool)
        ensures
            r == self.has_room(n as nat),
    {
        let held = self.len() as u64;
        held <= ARENA_LIMIT && n <= ARENA_LIMIT - held
    }

    /// The value under a handle, if there is one.
    pub fn get(&self, h: u64) -> (found: Option<&Value>)
        ensures
            match found {
                Some(value) => self.resolve(h) == Some(value@),
                None => self.resolve(h).is_none(),
            },
    {
        slots_get(self, h)
    }

    /// Takes the value under a handle out of the arena, if there is one.
    /// Everything else stays.
    pub fn remove(&mut self, h: u64) -> (found: Option<Value>)
        ensures
            match found {
                Some(value) => old(self).resolve(h) == Some(value@),
                None => old(self).resolve(h).is_none(),
            },
            final(self)@ == old(self)@.remove(canonical_handle(h)),
            final(self).count() == old(self).count() - (if found.is_some() { 1nat } else { 0nat }),
            !(found.is_some() && last_generation(canonical_handle(h))) ==> forall|k: u64|
                old(self).gave_out(k) ==> final(self).gave_out(k),
    {
        let n = slots_len(self);
        assert(self@.dom() =~= arena_contents(*self).dom());
        let found = slots_remove(self, h);
        assert(self@ =~= old(self)@.remove(canonical_handle(h)));
        assert(self@.dom() =~= old(self)@.dom().remove(canonical_handle(h)));
        found
    }

    /// Drops every value: no handle resolves any more.
    pub fn clear(&mut self)
        ensures
            final(self).after_clear(*old(self)),
            forall|h: u64| final(self).resolve(h).is_none(),
    {
        assert(self@.dom() =~= arena_contents(*self).dom());
        slots_clear(self);
        assert(self@ =~= Map::<u64, ValueView>::empty());
    }
}

/// A handle that an unworn arena gave out before it was cleared is not the
/// handle under which the cleared arena holds the next value inserted.
pub proof fn lemma_fresh_after_clear(
    before: Arena,
    cleared: Arena,
    after: Arena,
    earlier: u64,
    h: u64,
    value: ValueView,
)
    requires
        before.unworn(),
        before.gave_out(earlier),
        cleared.after_clear(before),
        after.after_insert(cleared, h, value),
    ensures
        h != earlier,
{
}

} // verus!
