//! The contract table.

use vstd::prelude::*;

use crate::contract_address::ContractAddress;
use crate::value::copy_vec;

verus! {

/// The record of a contract: who it is, who originated it, its storage, its
/// compiled module and its constant pool, the last three as the bytes in
/// which they are kept.
#[derive(Debug)]
pub struct ContractType {
    pub self_: ContractAddress,
    pub originated_by: String,
    pub storage: Vec<u8>,
    pub serialized_module: Vec<u8>,
    pub constants: Vec<u8>,
}

/// What the record of a contract holds.
pub struct ContractView {
    pub self_: Seq<u8>,
    pub originated_by: Seq<char>,
    pub storage: Seq<u8>,
    pub serialized_module: Seq<u8>,
    pub constants: Seq<u8>,
}

impl View for ContractType {
    type V = ContractView;

    open spec fn view(&self) -> ContractView {
        ContractView {
            self_: self.self_@,
            originated_by: self.originated_by@,
            storage: self.storage@,
            serialized_module: self.serialized_module@,
            constants: self.constants@,
        }
    }
}

impl Clone for ContractType {
    fn clone(&self) -> (r: Self)
        ensures
            r@ == self@,
    {
        ContractType {
            self_: ContractAddress::from_bytes(copy_vec(self.self_.as_vec())),
            originated_by: self.originated_by.clone(),
            storage: copy_vec(&self.storage),
            serialized_module: copy_vec(&self.serialized_module),
            constants: copy_vec(&self.constants),
        }
    }
}

impl ContractType {
    /// Replaces the storage of the contract.
    pub fn set_storage(&mut self, s: Vec<u8>)
        ensures
            final(self)@ == (ContractView { storage: s@, ..old(self)@ }),
    {
        self.storage = s;
    }

    /// Whether two records are of the same contract: they are told apart by
    /// the address alone.
    pub fn eq(&self, other: &ContractType) -> (r: bool)
        ensures
            r == (self.self_@ == other.self_@),
    {
        self.self_.same(&other.self_)
    }
}

/// What the entries of a table are.
pub open spec fn entries_view(table: Seq<(ContractAddress, ContractType)>) -> Seq<
    (Seq<u8>, ContractView),
> {
    Seq::new(table.len(), |i: int| (table[i].0@, table[i].1@))
}

/// The record under an address among the first `n` entries of a table: that
/// of the last entry with the address.
pub open spec fn held(entries: Seq<(Seq<u8>, ContractView)>, n: nat, key: Seq<u8>) -> Option<
    ContractView,
>
    decreases n,
{
    if n == 0 || n > entries.len() {
        None
    } else if entries[n - 1].0 == key {
        Some(entries[n - 1].1)
    } else {
        held(entries, (n - 1) as nat, key)
    }
}

/// No address occurs twice among the entries.
pub open spec fn distinct(entries: Seq<(Seq<u8>, ContractView)>) -> bool {
    forall|i: int, j: int|
        0 <= i < j < entries.len() ==> (#[trigger] entries[i]).0 != (#[trigger] entries[j]).0
}

pub proof fn lemma_held_index(entries: Seq<(Seq<u8>, ContractView)>, n: nat, i: int)
    requires
        distinct(entries),
        0 <= i < n <= entries.len(),
    ensures
        held(entries, n, entries[i].0) == Some(entries[i].1),
    decreases n,
{
    if i < n - 1 {
        lemma_held_index(entries, (n - 1) as nat, i);
    }
}

pub proof fn lemma_held_absent(entries: Seq<(Seq<u8>, ContractView)>, n: nat, key: Seq<u8>)
    requires
        n <= entries.len(),
        forall|i: int| 0 <= i < n ==> (#[trigger] entries[i]).0 != key,
    ensures
        held(entries, n, key).is_none(),
    decreases n,
{
    if n > 0 {
        lemma_held_absent(entries, (n - 1) as nat, key);
    }
}

pub proof fn lemma_held_is_entry(entries: Seq<(Seq<u8>, ContractView)>, n: nat, key: Seq<u8>)
    requires
        n <= entries.len(),
        held(entries, n, key).is_some(),
    ensures
        exists|i: int| 0 <= i < n && (#[trigger] entries[i]).0 == key && entries[i].1 == held(
            entries,
            n,
            key,
        ).unwrap(),
    decreases n,
{
    if entries[n - 1].0 != key {
        lemma_held_is_entry(entries, (n - 1) as nat, key);
    }
}

/// The contract table: at most one record under each address.
#[derive(Debug)]
pub struct State {
    table: Vec<(ContractAddress, ContractType)>,
}

impl State {
    #[verifier::type_invariant]
    spec fn well_formed(self) -> bool {
        distinct(entries_view(self.table@))
    }

    /// The record under an address, if the table has one.
    pub closed spec fn holds(&self, key: Seq<u8>) -> Option<ContractView> {
        held(entries_view(self.table@), self.table@.len(), key)
    }

    /// The number of records in the table.
    pub closed spec fn count(&self) -> nat {
        self.table@.len()
    }

    /// The index of the entry with the given address.
    fn find(table: &Vec<(ContractAddress, ContractType)>, key: &ContractAddress) -> (r: Option<
        usize,
    >)
        requires
            distinct(entries_view(table@)),
        ensures
            match r {
                Some(i) => i < table@.len() && table@[i as int].0@ == key@ && held(
                    entries_view(table@),
                    table@.len(),
                    key@,
                ) == Some(table@[i as int].1@),
                None => held(entries_view(table@), table@.len(), key@).is_none() && forall|
                    i: int,
                | 0 <= i < table@.len() ==> (#[trigger] table@[i]).0@ != key@,
            },
    {
        let mut i: usize = 0;
        while i < table.len()
            invariant
                i <= table.len(),
                distinct(entries_view(table@)),
                forall|k: int| 0 <= k < i ==> (#[trigger] table@[k]).0@ != key@,
            decreases table.len() - i,
        {
            if table[i].0.same(key) {
                proof {
                    lemma_held_index(entries_view(table@), table@.len(), i as int);
                }
                return Some(i);
            }
            i = i + 1;
        }
        proof {
            assert forall|k: int| 0 <= k < table@.len() implies (#[trigger] entries_view(
                table@,
            )[k]).0 != key@ by {
                assert(table@[k].0@ != key@);
            }
            lemma_held_absent(entries_view(table@), table@.len(), key@);
        }
        None
    }

    /// An empty table.
    pub fn new() -> (state: State)
        ensures
            forall|key: Seq<u8>| state.holds(key).is_none(),
            state.count() == 0,
    {
        State { table: Vec::new() }
    }

    /// Puts a record under an address and hands back the record that was
    /// there. Every other address keeps its record.
    pub fn set(&mut self, key: ContractAddress, value: ContractType) -> (r: Option<ContractType>)
        ensures
            match old(self).holds(key@) {
                Some(before) => r.is_some() && r.unwrap()@ == before,
                None => r.is_none(),
            },
            forall|other: Seq<u8>|
                final(self).holds(other) == if other == key@ {
                    Some(value@)
                } else {
                    old(self).holds(other)
                },
    {
        proof {
            use_type_invariant(&*self);
        }
        let mut table: Vec<(ContractAddress, ContractType)> = Vec::new();
        std::mem::swap(&mut table, &mut self.table);
        let ghost before = entries_view(table@);
        let found = State::find(&table, &key);
        let r = match found {
            Some(i) => Some(table.remove(i).1),
            None => None,
        };
        let ghost middle = entries_view(table@);
        table.push((key, value));
        proof {
            let after = entries_view(table@);
            if found.is_some() {
                assert(middle =~= before.remove(found.unwrap() as int));
            } else {
                assert(middle =~= before);
            }
            assert(after =~= middle.push((key@, value@)));
            if found.is_none() {
                assert forall|i: int| 0 <= i < before.len() implies (#[trigger] before[i]).0
                    != key@ by {
                    assert(old(self).table@[i].0@ != key@);
                }
            }
            lemma_key_gone(before, middle, found, key@);
            assert forall|i: int, j: int| 0 <= i < j < after.len() implies (#[trigger] after[i]).0
                != (#[trigger] after[j]).0 by {
                if j < middle.len() {
                    assert(middle[i].0 != middle[j].0);
                } else {
                    assert(middle[i].0 != key@);
                }
            }
            assert forall|other: Seq<u8>| other != key@ implies held(after, after.len(), other)
                == held(before, before.len(), other) by {
                lemma_held_without(before, middle, found, other);
            }
        }
        self.table = table;
        r
    }

    /// Takes the record under an address out of the table. Every other
    /// address keeps its record.
    pub fn get(&mut self, key: &ContractAddress) -> (r: Option<ContractType>)
        ensures
            match old(self).holds(key@) {
                Some(before) => r.is_some() && r.unwrap()@ == before,
                None => r.is_none(),
            },
            forall|other: Seq<u8>|
                final(self).holds(other) == if other == key@ {
                    None
                } else {
                    old(self).holds(other)
                },
    {
        proof {
            use_type_invariant(&*self);
        }
        let mut table: Vec<(ContractAddress, ContractType)> = Vec::new();
        std::mem::swap(&mut table, &mut self.table);
        let ghost before = entries_view(table@);
        let found = State::find(&table, key);
        let r = match found {
            Some(i) => Some(table.remove(i).1),
            None => None,
        };
        proof {
            let after = entries_view(table@);
            if found.is_some() {
                assert(after =~= before.remove(found.unwrap() as int));
            } else {
                assert(after =~= before);
            }
            assert forall|other: Seq<u8>| other != key@ implies held(after, after.len(), other)
                == held(before, before.len(), other) by {
                lemma_held_without(before, after, found, other);
            }
            if found.is_none() {
                assert forall|i: int| 0 <= i < before.len() implies (#[trigger] before[i]).0
                    != key@ by {
                    assert(old(self).table@[i].0@ != key@);
                }
            }
            lemma_key_gone(before, after, found, key@);
            lemma_held_absent(after, after.len(), key@);
        }
        self.table = table;
        r
    }

    /// Whether the table has a record under an address.
    pub fn contains(&self, key: &ContractAddress) -> (r: bool)
        ensures
            r == self.holds(key@).is_some(),
    {
        proof {
            use_type_invariant(self);
        }
        State::find(&self.table, key).is_some()
    }

    /// Replaces the whole table by the given entries, put in one after the
    /// other: of two entries with one address the later stays.
    pub fn from_init(&mut self, init: Vec<(ContractAddress, ContractType)>)
        ensures
            forall|key: Seq<u8>|
                final(self).holds(key) == held(entries_view(init@), init@.len(), key),
    {
        let mut fresh = State::new();
        let mut init = init;
        let ghost all = init@;
        let ghost wire = entries_view(all);
        let mut rest: Vec<(ContractAddress, ContractType)> = Vec::new();
        while init.len() > 0
            invariant
                init@.len() <= all.len(),
                init@ == all.take(init@.len() as int),
                rest@.len() == all.len() - init@.len(),
                forall|k: int| 0 <= k < rest@.len() ==> rest@[k] == all[all.len() - 1 - k],
            decreases init.len(),
        {
            match init.pop() {
                Some(entry) => {
                    rest.push(entry);
                },
                None => {},
            }
            assert(init@ =~= all.take(init@.len() as int));
        }
        let ghost done: nat = 0;
        while rest.len() > 0
            invariant
                wire == entries_view(all),
                rest@.len() <= all.len(),
                done == all.len() - rest@.len(),
                forall|k: int| 0 <= k < rest@.len() ==> rest@[k] == all[all.len() - 1 - k],
                forall|key: Seq<u8>| fresh.holds(key) == held(wire, done, key),
            decreases rest.len(),
        {
            match rest.pop() {
                Some(entry) => {
                    assert(entry == all[done as int]);
                    assert(wire[done as int] == (entry.0@, entry.1@));
                    let (key, value) = entry;
                    fresh.set(key, value);
                },
                None => {},
            }
            proof {
                done = done + 1;
            }
        }
        *self = fresh;
    }

    /// Puts the given entries into the table, one after the other: of two
    /// entries with one address the later stays, and an address without an
    /// entry keeps its record.
    pub fn from_init_over(&mut self, entries: Vec<(ContractAddress, ContractType)>)
        ensures
            forall|key: Seq<u8>|
                final(self).holds(key) == match held(entries_view(entries@), entries@.len(), key) {
                    Some(put) => Some(put),
                    None => old(self).holds(key),
                },
    {
        let mut entries = entries;
        let ghost all = entries@;
        let ghost wire = entries_view(all);
        let mut rest: Vec<(ContractAddress, ContractType)> = Vec::new();
        while entries.len() > 0
            invariant
                entries@.len() <= all.len(),
                entries@ == all.take(entries@.len() as int),
                rest@.len() == all.len() - entries@.len(),
                forall|k: int| 0 <= k < rest@.len() ==> rest@[k] == all[all.len() - 1 - k],
            decreases entries.len(),
        {
            match entries.pop() {
                Some(entry) => {
                    rest.push(entry);
                },
                None => {},
            }
            assert(entries@ =~= all.take(entries@.len() as int));
        }
        let ghost done: nat = 0;
        while rest.len() > 0
            invariant
                wire == entries_view(all),
                rest@.len() <= all.len(),
                done == all.len() - rest@.len(),
                forall|k: int| 0 <= k < rest@.len() ==> rest@[k] == all[all.len() - 1 - k],
                forall|key: Seq<u8>|
                    self.holds(key) == match held(wire, done, key) {
                        Some(put) => Some(put),
                        None => old(self).holds(key),
                    },
            decreases rest.len(),
        {
            match rest.pop() {
                Some(entry) => {
                    assert(entry == all[done as int]);
                    assert(wire[done as int] == (entry.0@, entry.1@));
                    let (key, value) = entry;
                    self.set(key, value);
                },
                None => {},
            }
            proof {
                done = done + 1;
            }
        }
    }

    /// Copies of all the entries of the table.
    pub fn to_init(&self) -> (r: Vec<(ContractAddress, ContractType)>)
        ensures
            distinct(entries_view(r@)),
            forall|key: Seq<u8>| self.holds(key) == held(entries_view(r@), r@.len(), key),
    {
        proof {
            use_type_invariant(self);
        }
        let mut entries: Vec<(ContractAddress, ContractType)> = Vec::new();
        let mut i: usize = 0;
        while i < self.table.len()
            invariant
                i <= self.table.len(),
                entries@.len() == i,
                forall|k: int|
                    0 <= k < i ==> (#[trigger] entries@[k]).0@ == self.table@[k].0@ && entries@[k].1@
                        == self.table@[k].1@,
            decreases self.table.len() - i,
        {
            let key = ContractAddress::from_bytes(copy_vec(self.table[i].0.as_vec()));
            entries.push((key, self.table[i].1.clone()));
            i = i + 1;
        }
        assert(entries_view(entries@) =~= entries_view(self.table@));
        entries
    }
}

/// Once the entry with an address is taken out of entries without
/// repetition, or where there was none, no entry has the address; and the
/// entries are still without repetition.
pub proof fn lemma_key_gone(
    before: Seq<(Seq<u8>, ContractView)>,
    after: Seq<(Seq<u8>, ContractView)>,
    found: Option<usize>,
    key: Seq<u8>,
)
    requires
        distinct(before),
        match found {
            Some(i) => i < before.len() && after == before.remove(i as int) && before[i as int].0
                == key,
            None => after == before && forall|i: int|
                0 <= i < before.len() ==> (#[trigger] before[i]).0 != key,
        },
    ensures
        distinct(after),
        forall|i: int| 0 <= i < after.len() ==> (#[trigger] after[i]).0 != key,
{
    if found.is_some() {
        let at = found.unwrap() as int;
        assert forall|i: int| 0 <= i < after.len() implies (#[trigger] after[i]).0 != key by {
            let source = if i < at { i } else { i + 1 };
            assert(after[i] == before[source]);
            if source < at {
                assert(before[source].0 != before[at].0);
            } else {
                assert(before[at].0 != before[source].0);
            }
        }
        assert forall|i: int, j: int| 0 <= i < j < after.len() implies (#[trigger] after[i]).0 != (
        #[trigger] after[j]).0 by {
            let x = if i < at { i } else { i + 1 };
            let y = if j < at { j } else { j + 1 };
            assert(after[i] == before[x]);
            assert(after[j] == before[y]);
            assert(before[x].0 != before[y].0);
        }
    }
}

impl Default for State {
    /// An empty table.
    fn default() -> (state: State)
        ensures
            forall|key: Seq<u8>| state.holds(key).is_none(),
            state.count() == 0,
    {
        State::new()
    }
}

/// What is held under an address other than the one taken out is the same
/// before and after.
pub proof fn lemma_held_without(
    before: Seq<(Seq<u8>, ContractView)>,
    after: Seq<(Seq<u8>, ContractView)>,
    found: Option<usize>,
    other: Seq<u8>,
)
    requires
        match found {
            Some(i) => i < before.len() && after == before.remove(i as int) && before[i as int].0
                != other,
            None => after == before,
        },
    ensures
        held(after, after.len(), other) == held(before, before.len(), other),
        forall|tail: (Seq<u8>, ContractView)|
            tail.0 != other ==> held(after.push(tail), after.len() + 1, other) == held(
                before,
                before.len(),
                other,
            ),
{
    if found.is_some() {
        lemma_held_remove(before, before.len(), found.unwrap() as int, other);
    }
    assert forall|tail: (Seq<u8>, ContractView)| tail.0 != other implies held(
        after.push(tail),
        after.len() + 1,
        other,
    ) == held(before, before.len(), other) by {
        lemma_held_prefix(after.push(tail), after, after.len(), other);
    }
}

pub proof fn lemma_held_prefix(
    long: Seq<(Seq<u8>, ContractView)>,
    short: Seq<(Seq<u8>, ContractView)>,
    n: nat,
    key: Seq<u8>,
)
    requires
        n <= short.len() <= long.len(),
        forall|i: int| 0 <= i < n ==> long[i] == short[i],
    ensures
        held(long, n, key) == held(short, n, key),
    decreases n,
{
    if n > 0 {
        lemma_held_prefix(long, short, (n - 1) as nat, key);
    }
}

pub proof fn lemma_held_remove(
    before: Seq<(Seq<u8>, ContractView)>,
    n: nat,
    at: int,
    other: Seq<u8>,
)
    requires
        0 <= at < before.len(),
        at < n <= before.len(),
        before[at].0 != other,
    ensures
        held(before.remove(at), (n - 1) as nat, other) == held(before, n, other),
    decreases n,
{
    let after = before.remove(at);
    if n - 1 > at {
        assert(after[n - 2] == before[n - 1]);
        if before[n - 1].0 != other {
            lemma_held_remove(before, (n - 1) as nat, at, other);
        }
    } else {
        lemma_held_prefix(before, after, at as nat, other);
    }
}

} // verus!
