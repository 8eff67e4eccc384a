//! The lexicographic order on sequences of integers, by which byte strings,
//! texts and runs of handles are ordered.

use vstd::prelude::*;

use crate::integer::sign_of_difference;

verus! {

/// Compares two sequences of integers lexicographically: -1, 0 or 1 as the
/// first comes before, equals or comes after the second. A proper prefix
/// comes before what it is a prefix of.
pub open spec fn lex_order(a: Seq<int>, b: Seq<int>) -> int
    decreases a.len(),
{
    if a.len() == 0 {
        if b.len() == 0 {
            0
        } else {
            -1
        }
    } else if b.len() == 0 {
        1
    } else if a[0] != b[0] {
        sign_of_difference(a[0], b[0])
    } else {
        lex_order(a.drop_first(), b.drop_first())
    }
}

/// The integers of a byte string.
pub open spec fn bytes_key(s: Seq<u8>) -> Seq<int> {
    Seq::new(s.len(), |i: int| s[i] as int)
}

/// The integers of a run of handles.
pub open spec fn handles_key(s: Seq<u64>) -> Seq<int> {
    Seq::new(s.len(), |i: int| s[i] as int)
}

/// One integer for a pair of handles, ordered as the pairs are: by the first
/// handle, then by the second.
pub open spec fn pair_key(p: (u64, u64)) -> int {
    p.0 as int * 0x1_0000_0000_0000_0000 + p.1 as int
}

/// The integers of a run of handle pairs.
pub open spec fn pairs_key(s: Seq<(u64, u64)>) -> Seq<int> {
    Seq::new(s.len(), |i: int| pair_key(s[i]))
}

pub proof fn lemma_lex_order_range(a: Seq<int>, b: Seq<int>)
    ensures
        -1 <= lex_order(a, b) <= 1,
    decreases a.len(),
{
    if a.len() > 0 && b.len() > 0 && a[0] == b[0] {
        lemma_lex_order_range(a.drop_first(), b.drop_first());
    }
}

/// Two sequences compare as equal exactly when they are equal.
pub proof fn lemma_lex_order_equal(a: Seq<int>, b: Seq<int>)
    ensures
        lex_order(a, b) == 0 <==> a == b,
    decreases a.len(),
{
    if a.len() > 0 && b.len() > 0 && a[0] == b[0] {
        lemma_lex_order_equal(a.drop_first(), b.drop_first());
        if a.drop_first() == b.drop_first() {
            assert(a =~= seq![a[0]] + a.drop_first());
            assert(b =~= seq![b[0]] + b.drop_first());
        }
    } else if a.len() == 0 && b.len() == 0 {
        assert(a =~= b);
    }
}

/// Swapping the arguments swaps the sign.
pub proof fn lemma_lex_order_swap(a: Seq<int>, b: Seq<int>)
    ensures
        lex_order(b, a) == -lex_order(a, b),
    decreases a.len(),
{
    if a.len() > 0 && b.len() > 0 && a[0] == b[0] {
        lemma_lex_order_swap(a.drop_first(), b.drop_first());
    }
}

/// What comes before something that does not come after a third comes
/// before the third.
pub proof fn lemma_lex_order_transitive(a: Seq<int>, b: Seq<int>, c: Seq<int>)
    requires
        lex_order(a, b) <= 0,
        lex_order(b, c) <= 0,
    ensures
        lex_order(a, c) <= 0,
        lex_order(a, b) < 0 || lex_order(b, c) < 0 ==> lex_order(a, c) < 0,
    decreases a.len(),
{
    if a.len() > 0 && b.len() > 0 && c.len() > 0 && a[0] == b[0] && b[0] == c[0] {
        lemma_lex_order_transitive(a.drop_first(), b.drop_first(), c.drop_first());
    }
}

pub proof fn lemma_bytes_key_injective(a: Seq<u8>, b: Seq<u8>)
    requires
        bytes_key(a) == bytes_key(b),
    ensures
        a == b,
{
    assert(a.len() == bytes_key(a).len());
    assert(b.len() == bytes_key(b).len());
    assert forall|i: int| 0 <= i < a.len() implies a[i] == b[i] by {
        assert(bytes_key(a)[i] == a[i] as int);
        assert(bytes_key(b)[i] == b[i] as int);
    }
    assert(a =~= b);
}

pub proof fn lemma_handles_key_injective(a: Seq<u64>, b: Seq<u64>)
    requires
        handles_key(a) == handles_key(b),
    ensures
        a == b,
{
    assert(a.len() == handles_key(a).len());
    assert(b.len() == handles_key(b).len());
    assert forall|i: int| 0 <= i < a.len() implies a[i] == b[i] by {
        assert(handles_key(a)[i] == a[i] as int);
        assert(handles_key(b)[i] == b[i] as int);
    }
    assert(a =~= b);
}

pub proof fn lemma_pairs_key_injective(a: Seq<(u64, u64)>, b: Seq<(u64, u64)>)
    requires
        pairs_key(a) == pairs_key(b),
    ensures
        a == b,
{
    assert(a.len() == pairs_key(a).len());
    assert(b.len() == pairs_key(b).len());
    assert forall|i: int| 0 <= i < a.len() implies a[i] == b[i] by {
        assert(pairs_key(a)[i] == pair_key(a[i]));
        assert(pairs_key(b)[i] == pair_key(b[i]));
    }
    assert(a =~= b);
}

/// Compares two byte strings lexicographically.
pub fn order_bytes(a: &[u8], b: &[u8]) -> (r: i8)
    ensures
        r as int == lex_order(bytes_key(a@), bytes_key(b@)),
{
    let mut i: usize = 0;
    assert(bytes_key(a@).skip(0) =~= bytes_key(a@));
    assert(bytes_key(b@).skip(0) =~= bytes_key(b@));
    while i < a.len() && i < b.len()
        invariant
            i <= a.len(),
            i <= b.len(),
            lex_order(bytes_key(a@), bytes_key(b@)) == lex_order(
                bytes_key(a@).skip(i as int),
                bytes_key(b@).skip(i as int),
            ),
        decreases a.len() - i,
    {
        let x = a[i];
        let y = b[i];
        proof {
            assert(bytes_key(a@).skip(i as int)[0] == x as int);
            assert(bytes_key(b@).skip(i as int)[0] == y as int);
            assert(bytes_key(a@).skip(i as int).drop_first() =~= bytes_key(a@).skip(i as int + 1));
            assert(bytes_key(b@).skip(i as int).drop_first() =~= bytes_key(b@).skip(i as int + 1));
        }
        if x < y {
            return -1;
        }
        if x > y {
            return 1;
        }
        i = i + 1;
    }
    if i < b.len() {
        -1
    } else if i < a.len() {
        1
    } else {
        0
    }
}

/// Compares two runs of handles lexicographically.
pub fn order_handles(a: &Vec<u64>, b: &Vec<u64>) -> (r: i8)
    ensures
        r as int == lex_order(handles_key(a@), handles_key(b@)),
{
    let mut i: usize = 0;
    assert(handles_key(a@).skip(0) =~= handles_key(a@));
    assert(handles_key(b@).skip(0) =~= handles_key(b@));
    while i < a.len() && i < b.len()
        invariant
            i <= a.len(),
            i <= b.len(),
            lex_order(handles_key(a@), handles_key(b@)) == lex_order(
                handles_key(a@).skip(i as int),
                handles_key(b@).skip(i as int),
            ),
        decreases a.len() - i,
    {
        let x = a[i];
        let y = b[i];
        proof {
            assert(handles_key(a@).skip(i as int)[0] == x as int);
            assert(handles_key(b@).skip(i as int)[0] == y as int);
            assert(handles_key(a@).skip(i as int).drop_first() =~= handles_key(a@).skip(
                i as int + 1,
            ));
            assert(handles_key(b@).skip(i as int).drop_first() =~= handles_key(b@).skip(
                i as int + 1,
            ));
        }
        if x < y {
            return -1;
        }
        if x > y {
            return 1;
        }
        i = i + 1;
    }
    if i < b.len() {
        -1
    } else if i < a.len() {
        1
    } else {
        0
    }
}

/// Compares two runs of handle pairs lexicographically.
pub fn order_pairs(a: &Vec<(u64, u64)>, b: &Vec<(u64, u64)>) -> (r: i8)
    ensures
        r as int == lex_order(pairs_key(a@), pairs_key(b@)),
{
    let mut i: usize = 0;
    assert(pairs_key(a@).skip(0) =~= pairs_key(a@));
    assert(pairs_key(b@).skip(0) =~= pairs_key(b@));
    while i < a.len() && i < b.len()
        invariant
            i <= a.len(),
            i <= b.len(),
            lex_order(pairs_key(a@), pairs_key(b@)) == lex_order(
                pairs_key(a@).skip(i as int),
                pairs_key(b@).skip(i as int),
            ),
        decreases a.len() - i,
    {
        let x = a[i];
        let y = b[i];
        proof {
            assert(pairs_key(a@).skip(i as int)[0] == pair_key(x));
            assert(pairs_key(b@).skip(i as int)[0] == pair_key(y));
            assert(pairs_key(a@).skip(i as int).drop_first() =~= pairs_key(a@).skip(i as int + 1));
            assert(pairs_key(b@).skip(i as int).drop_first() =~= pairs_key(b@).skip(i as int + 1));
        }
        if x.0 < y.0 || (x.0 == y.0 && x.1 < y.1) {
            return -1;
        }
        if x.0 > y.0 || x.1 > y.1 {
            return 1;
        }
        i = i + 1;
    }
    if i < b.len() {
        -1
    } else if i < a.len() {
        1
    } else {
        0
    }
}

} // verus!
