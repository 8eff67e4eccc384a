//! The values that contracts compute with.
//!
//! A compound value does not hold its parts: it holds their handles, which
//! an arena resolves. Two values are compared part by part, handles as the
//! numbers they are.

use vstd::prelude::*;

use crate::integer::{sign_of_difference, Integer};
use crate::list::{list_clone, list_get, list_items, list_len};
use crate::order::{
    bytes_key, handles_key, lemma_bytes_key_injective, lemma_handles_key_injective,
    lemma_lex_order_equal, lemma_lex_order_range, lemma_lex_order_swap,
    lemma_lex_order_transitive, lemma_pairs_key_injective, lex_order, order_bytes,
    order_handles, order_pairs, pair_key, pairs_key,
};

verus! {

/// One side of a two-way choice, with the handle of what it carries.
#[derive(Debug, Clone, Copy, PartialEq, Eq)]
pub enum Union {
    Left(u64),
    Right(u64),
}

/// A contract-level value.
#[derive(Debug, PartialEq, Eq)]
pub enum Value {
    Bytes(Vec<u8>),
    String(String),
    Int(Integer),
    Union(Union),
    Pair { fst: u64, snd: u64 },
    Bool(bool),
    /// Entries of key handle and value handle.
    OrdMap(Vec<(u64, u64)>),
    OrdSet(Vec<u64>),
    List(im_rc::Vector<u64>),
    Unit,
    Option(Option<u64>),
    /// A guest function, by its selector, with an argument bound to it or
    /// none.
    Closure { opt_arg: Option<u64>, call: i32 },
}

/// What a value is, without how it is stored.
pub enum ValueView {
    Bytes(Seq<u8>),
    String(Seq<char>),
    Int(int),
    Union(Union),
    Pair { fst: u64, snd: u64 },
    Bool(bool),
    OrdMap(Seq<(u64, u64)>),
    OrdSet(Seq<u64>),
    List(Seq<u64>),
    Unit,
    Option(Option<u64>),
    Closure { opt_arg: Option<u64>, call: i32 },
}

impl View for Value {
    type V = ValueView;

    open spec fn view(&self) -> ValueView {
        match self {
            Value::Bytes(b) => ValueView::Bytes(b@),
            Value::String(s) => ValueView::String(s@),
            Value::Int(n) => ValueView::Int(n@),
            Value::Union(u) => ValueView::Union(*u),
            Value::Pair { fst, snd } => ValueView::Pair { fst: *fst, snd: *snd },
            Value::Bool(b) => ValueView::Bool(*b),
            Value::OrdMap(m) => ValueView::OrdMap(m@),
            Value::OrdSet(s) => ValueView::OrdSet(s@),
            Value::List(l) => ValueView::List(list_items(*l)),
            Value::Unit => ValueView::Unit,
            Value::Option(o) => ValueView::Option(*o),
            Value::Closure { opt_arg, call } => ValueView::Closure {
                opt_arg: *opt_arg,
                call: *call,
            },
        }
    }
}

/// The place of a value's kind among the kinds: values of different kinds
/// are ordered by it.
pub open spec fn kind_rank(v: ValueView) -> int {
    match v {
        ValueView::Bytes(_) => 0,
        ValueView::String(_) => 1,
        ValueView::Int(_) => 2,
        ValueView::Union(_) => 3,
        ValueView::Pair { .. } => 4,
        ValueView::Bool(_) => 5,
        ValueView::OrdMap(_) => 6,
        ValueView::OrdSet(_) => 7,
        ValueView::List(_) => 8,
        ValueView::Unit => 9,
        ValueView::Option(_) => 10,
        ValueView::Closure { .. } => 11,
    }
}

/// An integer for one side of a choice: every `Left` before every `Right`,
/// and within a side by handle.
pub open spec fn union_key(u: Union) -> int {
    match u {
        Union::Left(h) => h as int,
        Union::Right(h) => 0x1_0000_0000_0000_0000 + h as int,
    }
}

/// An integer for an optional handle: nothing before every handle.
pub open spec fn option_key(o: Option<u64>) -> int {
    match o {
        None => -1,
        Some(h) => h as int,
    }
}

/// An integer for a truth value: false before true.
pub open spec fn bool_key(b: bool) -> int {
    if b {
        1
    } else {
        0
    }
}

/// The total order on values: -1, 0 or 1 as `a` comes before, equals or
/// comes after `b`. Values of different kinds go by their kind; values of one
/// kind go part by part, byte strings and texts byte by byte, integers by
/// their value, handles by their number.
pub open spec fn value_order(a: ValueView, b: ValueView) -> int {
    if kind_rank(a) != kind_rank(b) {
        sign_of_difference(kind_rank(a), kind_rank(b))
    } else {
        match (a, b) {
            (ValueView::Bytes(x), ValueView::Bytes(y)) => lex_order(bytes_key(x), bytes_key(y)),
            (ValueView::String(x), ValueView::String(y)) => lex_order(
                bytes_key(vstd::utf8::encode_utf8(x)),
                bytes_key(vstd::utf8::encode_utf8(y)),
            ),
            (ValueView::Int(x), ValueView::Int(y)) => sign_of_difference(x, y),
            (ValueView::Union(x), ValueView::Union(y)) => sign_of_difference(
                union_key(x),
                union_key(y),
            ),
            (ValueView::Pair { fst: f1, snd: s1 }, ValueView::Pair { fst: f2, snd: s2 }) =>
                sign_of_difference(pair_key((f1, s1)), pair_key((f2, s2))),
            (ValueView::Bool(x), ValueView::Bool(y)) => sign_of_difference(
                bool_key(x),
                bool_key(y),
            ),
            (ValueView::OrdMap(x), ValueView::OrdMap(y)) => lex_order(pairs_key(x), pairs_key(y)),
            (ValueView::OrdSet(x), ValueView::OrdSet(y)) => lex_order(handles_key(x), handles_key(y)),
            (ValueView::List(x), ValueView::List(y)) => lex_order(handles_key(x), handles_key(y)),
            (ValueView::Option(x), ValueView::Option(y)) => sign_of_difference(
                option_key(x),
                option_key(y),
            ),
            (
                ValueView::Closure { opt_arg: o1, call: c1 },
                ValueView::Closure { opt_arg: o2, call: c2 },
            ) => if option_key(o1) != option_key(o2) {
                sign_of_difference(option_key(o1), option_key(o2))
            } else {
                sign_of_difference(c1 as int, c2 as int)
            },
            _ => 0,
        }
    }
}

/// The order's result is one of -1, 0 and 1.
pub proof fn lemma_value_order_range(a: ValueView, b: ValueView)
    ensures
        -1 <= value_order(a, b) <= 1,
{
    match (a, b) {
        (ValueView::Bytes(x), ValueView::Bytes(y)) => {
            lemma_lex_order_range(bytes_key(x), bytes_key(y));
        },
        (ValueView::String(x), ValueView::String(y)) => {
            lemma_lex_order_range(
                bytes_key(vstd::utf8::encode_utf8(x)),
                bytes_key(vstd::utf8::encode_utf8(y)),
            );
        },
        (ValueView::OrdMap(x), ValueView::OrdMap(y)) => {
            lemma_lex_order_range(pairs_key(x), pairs_key(y));
        },
        (ValueView::OrdSet(x), ValueView::OrdSet(y)) => {
            lemma_lex_order_range(handles_key(x), handles_key(y));
        },
        (ValueView::List(x), ValueView::List(y)) => {
            lemma_lex_order_range(handles_key(x), handles_key(y));
        },
        _ => {},
    }
}

/// Two values compare as equal exactly when they are the same value.
pub proof fn lemma_value_order_equal(a: ValueView, b: ValueView)
    ensures
        value_order(a, b) == 0 <==> a == b,
{
    match (a, b) {
        (ValueView::Bytes(x), ValueView::Bytes(y)) => {
            lemma_lex_order_equal(bytes_key(x), bytes_key(y));
            if bytes_key(x) == bytes_key(y) {
                lemma_bytes_key_injective(x, y);
            }
        },
        (ValueView::String(x), ValueView::String(y)) => {
            let bx = vstd::utf8::encode_utf8(x);
            let by = vstd::utf8::encode_utf8(y);
            lemma_lex_order_equal(bytes_key(bx), bytes_key(by));
            if bytes_key(bx) == bytes_key(by) {
                lemma_bytes_key_injective(bx, by);
                vstd::utf8::encode_utf8_decode_utf8(x);
                vstd::utf8::encode_utf8_decode_utf8(y);
            }
        },
        (ValueView::OrdMap(x), ValueView::OrdMap(y)) => {
            lemma_lex_order_equal(pairs_key(x), pairs_key(y));
            if pairs_key(x) == pairs_key(y) {
                lemma_pairs_key_injective(x, y);
            }
        },
        (ValueView::OrdSet(x), ValueView::OrdSet(y)) => {
            lemma_lex_order_equal(handles_key(x), handles_key(y));
            if handles_key(x) == handles_key(y) {
                lemma_handles_key_injective(x, y);
            }
        },
        (ValueView::List(x), ValueView::List(y)) => {
            lemma_lex_order_equal(handles_key(x), handles_key(y));
            if handles_key(x) == handles_key(y) {
                lemma_handles_key_injective(x, y);
            }
        },
        _ => {},
    }
}

/// Swapping the two values swaps the sign of their comparison.
pub proof fn lemma_value_order_swap(a: ValueView, b: ValueView)
    ensures
        value_order(b, a) == -value_order(a, b),
{
    match (a, b) {
        (ValueView::Bytes(x), ValueView::Bytes(y)) => {
            lemma_lex_order_swap(bytes_key(x), bytes_key(y));
        },
        (ValueView::String(x), ValueView::String(y)) => {
            lemma_lex_order_swap(
                bytes_key(vstd::utf8::encode_utf8(x)),
                bytes_key(vstd::utf8::encode_utf8(y)),
            );
        },
        (ValueView::OrdMap(x), ValueView::OrdMap(y)) => {
            lemma_lex_order_swap(pairs_key(x), pairs_key(y));
        },
        (ValueView::OrdSet(x), ValueView::OrdSet(y)) => {
            lemma_lex_order_swap(handles_key(x), handles_key(y));
        },
        (ValueView::List(x), ValueView::List(y)) => {
            lemma_lex_order_swap(handles_key(x), handles_key(y));
        },
        _ => {},
    }
}

/// The order is transitive: what does not come after a value that does not
/// come after a third does not come after the third, and comes before it
/// where one of the two steps is strict.
pub proof fn lemma_value_order_transitive(a: ValueView, b: ValueView, c: ValueView)
    requires
        value_order(a, b) <= 0,
        value_order(b, c) <= 0,
    ensures
        value_order(a, c) <= 0,
        value_order(a, b) < 0 || value_order(b, c) < 0 ==> value_order(a, c) < 0,
{
    if kind_rank(a) == kind_rank(b) && kind_rank(b) == kind_rank(c) {
        match (a, b, c) {
            (ValueView::Bytes(x), ValueView::Bytes(y), ValueView::Bytes(z)) => {
                lemma_lex_order_transitive(bytes_key(x), bytes_key(y), bytes_key(z));
            },
            (ValueView::String(x), ValueView::String(y), ValueView::String(z)) => {
                lemma_lex_order_transitive(
                    bytes_key(vstd::utf8::encode_utf8(x)),
                    bytes_key(vstd::utf8::encode_utf8(y)),
                    bytes_key(vstd::utf8::encode_utf8(z)),
                );
            },
            (ValueView::OrdMap(x), ValueView::OrdMap(y), ValueView::OrdMap(z)) => {
                lemma_lex_order_transitive(pairs_key(x), pairs_key(y), pairs_key(z));
            },
            (ValueView::OrdSet(x), ValueView::OrdSet(y), ValueView::OrdSet(z)) => {
                lemma_lex_order_transitive(handles_key(x), handles_key(y), handles_key(z));
            },
            (ValueView::List(x), ValueView::List(y), ValueView::List(z)) => {
                lemma_lex_order_transitive(handles_key(x), handles_key(y), handles_key(z));
            },
            _ => {},
        }
    }
}

impl Clone for Value {
    fn clone(&self) -> (r: Self)
        ensures
            r@ == self@,
    {
        self.duplicate()
    }
}

/// A copy of a vector of plain items.
pub fn copy_vec<T: Copy>(v: &Vec<T>) -> (r: Vec<T>)
    ensures
        r@ == v@,
{
    let mut r: Vec<T> = Vec::new();
    let mut i: usize = 0;
    while i < v.len()
        invariant
            i <= v.len(),
            r@ == v@.take(i as int),
        decreases v.len() - i,
    {
        r.push(v[i]);
        i = i + 1;
        assert(r@ =~= v@.take(i as int));
    }
    assert(v@.take(v.len() as int) =~= v@);
    r
}

/// Compares two lists of handles lexicographically.
fn order_lists(a: &im_rc::Vector<u64>, b: &im_rc::Vector<u64>) -> (r: i8)
    ensures
        r as int == lex_order(handles_key(list_items(*a)), handles_key(list_items(*b))),
{
    let ghost x = list_items(*a);
    let ghost y = list_items(*b);
    let n = list_len(a);
    let m = list_len(b);
    let mut i: usize = 0;
    assert(handles_key(x).skip(0) =~= handles_key(x));
    assert(handles_key(y).skip(0) =~= handles_key(y));
    while i < n && i < m
        invariant
            i <= n,
            i <= m,
            n == x.len(),
            m == y.len(),
            x == list_items(*a),
            y == list_items(*b),
            lex_order(handles_key(x), handles_key(y)) == lex_order(
                handles_key(x).skip(i as int),
                handles_key(y).skip(i as int),
            ),
        decreases n - i,
    {
        let p = list_get(a, i);
        let q = list_get(b, i);
        proof {
            assert(handles_key(x).skip(i as int)[0] == x[i as int] as int);
            assert(handles_key(y).skip(i as int)[0] == y[i as int] as int);
            assert(handles_key(x).skip(i as int).drop_first() =~= handles_key(x).skip(i as int + 1));
            assert(handles_key(y).skip(i as int).drop_first() =~= handles_key(y).skip(i as int + 1));
        }
        match (p, q) {
            (Some(h), Some(k)) => {
                if h < k {
                    return -1;
                }
                if h > k {
                    return 1;
                }
            },
            _ => {},
        }
        i = i + 1;
    }
    if i < m {
        -1
    } else if i < n {
        1
    } else {
        0
    }
}

fn order_u64(a: u64, b: u64) -> (r: i8)
    ensures
        r as int == sign_of_difference(a as int, b as int),
{
    if a < b {
        -1
    } else if a == b {
        0
    } else {
        1
    }
}

fn order_options(a: &Option<u64>, b: &Option<u64>) -> (r: i8)
    ensures
        r as int == sign_of_difference(option_key(*a), option_key(*b)),
{
    match (a, b) {
        (None, None) => 0,
        (None, Some(_)) => -1,
        (Some(_), None) => 1,
        (Some(x), Some(y)) => order_u64(*x, *y),
    }
}

impl Value {
    /// The place of the value's kind among the kinds.
    fn rank(&self) -> (r: u8)
        ensures
            r as int == kind_rank(self@),
    {
        match self {
            Value::Bytes(_) => 0,
            Value::String(_) => 1,
            Value::Int(_) => 2,
            Value::Union(_) => 3,
            Value::Pair { .. } => 4,
            Value::Bool(_) => 5,
            Value::OrdMap(_) => 6,
            Value::OrdSet(_) => 7,
            Value::List(_) => 8,
            Value::Unit => 9,
            Value::Option(_) => 10,
            Value::Closure { .. } => 11,
        }
    }

    /// Compares two values in the total order on values: -1, 0 or 1.
    pub fn order(&self, other: &Value) -> (r: i8)
        ensures
            r as int == value_order(self@, other@),
    {
        let ra = self.rank();
        let rb = other.rank();
        if ra < rb {
            return -1;
        }
        if ra > rb {
            return 1;
        }
        match (self, other) {
            (Value::Bytes(x), Value::Bytes(y)) => order_bytes(x.as_slice(), y.as_slice()),
            (Value::String(x), Value::String(y)) => order_bytes(
                x.as_str().as_bytes(),
                y.as_str().as_bytes(),
            ),
            (Value::Int(x), Value::Int(y)) => x.compare(y),
            (Value::Union(x), Value::Union(y)) => match (x, y) {
                (Union::Left(h), Union::Left(k)) => order_u64(*h, *k),
                (Union::Left(_), Union::Right(_)) => -1,
                (Union::Right(_), Union::Left(_)) => 1,
                (Union::Right(h), Union::Right(k)) => order_u64(*h, *k),
            },
            (Value::Pair { fst: f1, snd: s1 }, Value::Pair { fst: f2, snd: s2 }) => {
                if *f1 != *f2 {
                    order_u64(*f1, *f2)
                } else {
                    order_u64(*s1, *s2)
                }
            },
            (Value::Bool(x), Value::Bool(y)) => {
                if *x == *y {
                    0
                } else if *y {
                    -1
                } else {
                    1
                }
            },
            (Value::OrdMap(x), Value::OrdMap(y)) => order_pairs(x, y),
            (Value::OrdSet(x), Value::OrdSet(y)) => order_handles(x, y),
            (Value::List(x), Value::List(y)) => order_lists(x, y),
            (Value::Unit, Value::Unit) => 0,
            (Value::Option(x), Value::Option(y)) => order_options(x, y),
            (
                Value::Closure { opt_arg: o1, call: c1 },
                Value::Closure { opt_arg: o2, call: c2 },
            ) => {
                let first = order_options(o1, o2);
                if first != 0 {
                    first
                } else if *c1 < *c2 {
                    -1
                } else if *c1 == *c2 {
                    0
                } else {
                    1
                }
            },
            _ => 0,
        }
    }

    /// Whether two values are the same value.
    pub fn same(&self, other: &Value) -> (r: bool)
        ensures
            r == (self@ == other@),
    {
        proof {
            lemma_value_order_equal(self@, other@);
        }
        self.order(other) == 0
    }

    /// A copy of the value. The handles in it are copied as they are.
    pub fn duplicate(&self) -> (r: Value)
        ensures
            r@ == self@,
    {
        match self {
            Value::Bytes(b) => Value::Bytes(copy_vec(b)),
            Value::String(s) => Value::String(s.clone()),
            Value::Int(n) => Value::Int(n.clone()),
            Value::Union(u) => Value::Union(*u),
            Value::Pair { fst, snd } => Value::Pair { fst: *fst, snd: *snd },
            Value::Bool(b) => Value::Bool(*b),
            Value::OrdMap(m) => Value::OrdMap(copy_vec(m)),
            Value::OrdSet(s) => Value::OrdSet(copy_vec(s)),
            Value::List(l) => Value::List(list_clone(l)),
            Value::Unit => Value::Unit,
            Value::Option(o) => Value::Option(*o),
            Value::Closure { opt_arg, call } => Value::Closure { opt_arg: *opt_arg, call: *call },
        }
    }
}

} // verus!
