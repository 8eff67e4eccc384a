//! The wire format of values.
//!
//! On the wire a value is a tagged tuple, and the parts of a compound value
//! stand there in full: no handle appears. The format is stated in three
//! layers. A [`Tree`] is a value with all its handles resolved. [`deep`]
//! says which tree a value in a store is; [`wire_of`] says which document a
//! tree is written as; [`tree_of`] says which tree a document is read as.

use vstd::prelude::*;
use vstd::string::StrSliceExecFns;

use crate::arena::{canonical_handle, Arena, ARENA_LIMIT};
use crate::env::resolved;
use crate::errors::{ErrorView, VMResult, VmError};
use crate::integer::{decimal_text, lemma_parse_decimal_text, parse_decimal, Integer};
use crate::json::{
    items_view, json_size, json_text, json_tree, lemma_array_view, lemma_item_smaller, parse, render,
    Json, JsonView,
};
use crate::list::{list_get, list_items, list_len, list_new, list_push_back};
use crate::order::{bytes_key, lemma_bytes_key_injective, lemma_lex_order_equal, order_bytes};
use crate::value::{copy_vec, Union, Value, ValueView};

verus! {

/// What a value is apart from its parts: its kind, and for a value without
/// parts what it holds.
pub enum ShapeView {
    Bytes(Seq<u8>),
    Text(Seq<char>),
    Int(int),
    Left,
    Right,
    Pair,
    Bool(bool),
    OrdMap,
    OrdSet,
    List,
    Unit,
    Option,
}

/// A value with its handles resolved: its shape and the trees of its parts.
/// The parts of a map are its keys and values in turn.
pub struct Tree {
    pub shape: ShapeView,
    pub kids: Seq<Tree>,
}

/// The shape of a value. A closure has none: it is not written to the wire.
pub open spec fn shape_of(v: ValueView) -> Option<ShapeView> {
    match v {
        ValueView::Bytes(b) => Some(ShapeView::Bytes(b)),
        ValueView::String(s) => Some(ShapeView::Text(s)),
        ValueView::Int(n) => Some(ShapeView::Int(n)),
        ValueView::Union(Union::Left(_)) => Some(ShapeView::Left),
        ValueView::Union(Union::Right(_)) => Some(ShapeView::Right),
        ValueView::Pair { .. } => Some(ShapeView::Pair),
        ValueView::Bool(b) => Some(ShapeView::Bool(b)),
        ValueView::OrdMap(_) => Some(ShapeView::OrdMap),
        ValueView::OrdSet(_) => Some(ShapeView::OrdSet),
        ValueView::List(_) => Some(ShapeView::List),
        ValueView::Unit => Some(ShapeView::Unit),
        ValueView::Option(_) => Some(ShapeView::Option),
        ValueView::Closure { .. } => None,
    }
}

/// The entries of a map as one run of handles: each key with its value
/// behind it.
pub open spec fn flat(entries: Seq<(u64, u64)>) -> Seq<u64> {
    Seq::new(
        2 * entries.len(),
        |i: int|
            if i % 2 == 0 {
                entries[i / 2].0
            } else {
                entries[i / 2].1
            },
    )
}

/// The entries that a run of handles of even length holds.
pub open spec fn paired(handles: Seq<u64>) -> Seq<(u64, u64)> {
    Seq::new(handles.len() / 2, |i: int| (handles[2 * i], handles[2 * i + 1]))
}

/// The handles of the parts of a value.
pub open spec fn kids_of(v: ValueView) -> Seq<u64> {
    match v {
        ValueView::Union(Union::Left(h)) => seq![h],
        ValueView::Union(Union::Right(h)) => seq![h],
        ValueView::Pair { fst, snd } => seq![fst, snd],
        ValueView::OrdMap(entries) => flat(entries),
        ValueView::OrdSet(items) => items,
        ValueView::List(items) => items,
        ValueView::Option(Some(h)) => seq![h],
        _ => Seq::empty(),
    }
}

/// Whether a value of the given shape can have `n` parts.
pub open spec fn arity_fits(shape: ShapeView, n: nat) -> bool {
    match shape {
        ShapeView::Left | ShapeView::Right => n == 1,
        ShapeView::Pair => n == 2,
        ShapeView::OrdMap => n % 2 == 0,
        ShapeView::OrdSet | ShapeView::List => true,
        ShapeView::Option => n <= 1,
        _ => n == 0,
    }
}

/// The value of the given shape whose parts have the given handles.
pub open spec fn rebuilt(shape: ShapeView, kids: Seq<u64>) -> ValueView {
    match shape {
        ShapeView::Bytes(b) => ValueView::Bytes(b),
        ShapeView::Text(s) => ValueView::String(s),
        ShapeView::Int(n) => ValueView::Int(n),
        ShapeView::Left => ValueView::Union(Union::Left(kids[0])),
        ShapeView::Right => ValueView::Union(Union::Right(kids[0])),
        ShapeView::Pair => ValueView::Pair { fst: kids[0], snd: kids[1] },
        ShapeView::Bool(b) => ValueView::Bool(b),
        ShapeView::OrdMap => ValueView::OrdMap(paired(kids)),
        ShapeView::OrdSet => ValueView::OrdSet(kids),
        ShapeView::List => ValueView::List(kids),
        ShapeView::Unit => ValueView::Unit,
        ShapeView::Option => ValueView::Option(
            if kids.len() == 0 {
                None
            } else {
                Some(kids[0])
            },
        ),
    }
}

/// A value that has a shape is the value of that shape with its parts.
pub proof fn lemma_rebuilt(v: ValueView)
    requires
        shape_of(v).is_some(),
    ensures
        arity_fits(shape_of(v).unwrap(), kids_of(v).len()),
        rebuilt(shape_of(v).unwrap(), kids_of(v)) == v,
{
    match v {
        ValueView::OrdMap(entries) => {
            assert(paired(flat(entries)) =~= entries);
        },
        _ => {},
    }
}

/// A value built from a shape and handles has that shape and those parts.
pub proof fn lemma_shape_of_rebuilt(shape: ShapeView, kids: Seq<u64>)
    requires
        arity_fits(shape, kids.len()),
    ensures
        shape_of(rebuilt(shape, kids)) == Some(shape),
        kids_of(rebuilt(shape, kids)) == kids,
{
    match shape {
        ShapeView::OrdMap => {
            assert(flat(paired(kids)) =~= kids);
        },
        _ => {
            assert(kids_of(rebuilt(shape, kids)) =~= kids);
        },
    }
}

/// The tree of a value in a store, as far as `fuel` levels of handles take:
/// there is none where a handle resolves to nothing, where a closure is met,
/// or where the value is nested deeper than `fuel`.
pub open spec fn deep(store: Map<u64, ValueView>, v: ValueView, fuel: nat) -> Option<Tree>
    decreases fuel, 0nat,
{
    let kids = kids_of(v);
    if shape_of(v).is_none() {
        None
    } else if kids.len() == 0 {
        Some(Tree { shape: shape_of(v).unwrap(), kids: Seq::empty() })
    } else if fuel == 0 {
        None
    } else if forall|i: int|
        0 <= i < kids.len() ==> deep_at(store, #[trigger] kids[i], (fuel - 1) as nat).is_some() {
        Some(Tree { shape: shape_of(v).unwrap(), kids: deep_kids(store, kids, (fuel - 1) as nat) })
    } else {
        None
    }
}

/// The trees of what handles resolve to.
pub open spec fn deep_kids(store: Map<u64, ValueView>, kids: Seq<u64>, fuel: nat) -> Seq<Tree>
    decreases fuel, 2nat,
{
    Seq::new(kids.len(), |i: int| deep_at(store, kids[i], fuel).unwrap())
}

/// The tree of what a handle resolves to.
pub open spec fn deep_at(store: Map<u64, ValueView>, h: u64, fuel: nat) -> Option<Tree>
    decreases fuel, 1nat,
{
    match resolved(store, h) {
        None => None,
        Some(v) => deep(store, v, fuel),
    }
}


/// A tagged tuple: an array of the tag and what follows it.
pub open spec fn tagged(tag: Seq<char>, payload: Seq<JsonView>) -> JsonView {
    JsonView::Array(seq![JsonView::String(tag)] + payload)
}

/// The entries of a map on the wire: of a run of documents of even length,
/// each two in turn as an array of key and value.
pub open spec fn wire_entries(parts: Seq<JsonView>) -> Seq<JsonView> {
    Seq::new(parts.len() / 2, |i: int| JsonView::Array(seq![parts[2 * i], parts[2 * i + 1]]))
}

/// Every document is an array of two documents.
pub open spec fn all_entries(entries: Seq<JsonView>) -> bool {
    forall|i: int|
        0 <= i < entries.len() ==> (#[trigger] entries[i]) is Array && entries[i]->Array_0.len()
            == 2
}

/// The keys and values of entries on the wire as one run of documents.
pub open spec fn flat_entries(entries: Seq<JsonView>) -> Seq<JsonView> {
    Seq::new(
        2 * entries.len(),
        |i: int|
            if i % 2 == 0 {
                entries[i / 2]->Array_0[0]
            } else {
                entries[i / 2]->Array_0[1]
            },
    )
}

/// The document of a value of the given shape whose parts are written as
/// `parts`. Byte strings are written as the text that they are in UTF-8;
/// those that are no such text are not written.
pub open spec fn shape_wire(shape: ShapeView, parts: Seq<JsonView>) -> Option<JsonView> {
    if !arity_fits(shape, parts.len()) {
        None
    } else {
        match shape {
            ShapeView::Bytes(b) => if vstd::utf8::valid_utf8(b) {
                Some(tagged("Bytes"@, seq![JsonView::String(vstd::utf8::decode_utf8(b))]))
            } else {
                None
            },
            ShapeView::Text(s) => Some(tagged("String"@, seq![JsonView::String(s)])),
            ShapeView::Int(n) => Some(tagged("Int"@, seq![JsonView::String(decimal_text(n))])),
            ShapeView::Left => Some(
                tagged(
                    "Union"@,
                    seq![JsonView::Array(seq![JsonView::String("Left"@), parts[0]])],
                ),
            ),
            ShapeView::Right => Some(
                tagged(
                    "Union"@,
                    seq![JsonView::Array(seq![JsonView::String("Right"@), parts[0]])],
                ),
            ),
            ShapeView::Pair => Some(tagged("Pair"@, parts)),
            ShapeView::Bool(b) => Some(tagged("Bool"@, seq![JsonView::Bool(b)])),
            ShapeView::OrdMap => Some(
                tagged("Map"@, seq![JsonView::Array(wire_entries(parts))]),
            ),
            ShapeView::OrdSet => Some(tagged("Set"@, seq![JsonView::Array(parts)])),
            ShapeView::List => Some(tagged("List"@, seq![JsonView::Array(parts)])),
            ShapeView::Unit => Some(tagged("Unit"@, Seq::empty())),
            ShapeView::Option => Some(
                tagged(
                    "Option"@,
                    seq![if parts.len() == 0 { JsonView::Null } else { parts[0] }],
                ),
            ),
        }
    }
}

/// The shape that a document is read as, and the documents of its parts.
/// The document is an array that starts with a tag, and what follows the
/// tag is of the form that the tag asks for.
pub open spec fn shape_unwire(j: JsonView) -> Option<(ShapeView, Seq<JsonView>)> {
    if !(j is Array) || j->Array_0.len() == 0 || !(j->Array_0[0] is String) {
        None
    } else {
        let items = j->Array_0;
        let tag = items[0]->String_0;
        if tag == "Unit"@ {
            if items.len() == 1 {
                Some((ShapeView::Unit, Seq::empty()))
            } else {
                None
            }
        } else if tag == "Pair"@ {
            if items.len() == 3 {
                Some((ShapeView::Pair, items.subrange(1, 3)))
            } else {
                None
            }
        } else if items.len() != 2 {
            None
        } else if tag == "Bool"@ {
            match items[1] {
                JsonView::Bool(b) => Some((ShapeView::Bool(b), Seq::empty())),
                _ => None,
            }
        } else if tag == "Int"@ {
            match items[1] {
                JsonView::String(text) => match parse_decimal(text) {
                    Some(n) => Some((ShapeView::Int(n), Seq::empty())),
                    None => None,
                },
                _ => None,
            }
        } else if tag == "Bytes"@ {
            match items[1] {
                JsonView::String(text) => Some(
                    (ShapeView::Bytes(vstd::utf8::encode_utf8(text)), Seq::empty()),
                ),
                _ => None,
            }
        } else if tag == "String"@ {
            match items[1] {
                JsonView::String(text) => Some((ShapeView::Text(text), Seq::empty())),
                _ => None,
            }
        } else if tag == "Union"@ {
            match items[1] {
                JsonView::Array(side) => if side.len() == 2 && side[0]
                    == JsonView::String("Left"@) {
                    Some((ShapeView::Left, side.subrange(1, 2)))
                } else if side.len() == 2 && side[0] == JsonView::String("Right"@) {
                    Some((ShapeView::Right, side.subrange(1, 2)))
                } else {
                    None
                },
                _ => None,
            }
        } else if tag == "List"@ {
            match items[1] {
                JsonView::Array(parts) => Some((ShapeView::List, parts)),
                _ => None,
            }
        } else if tag == "Set"@ {
            match items[1] {
                JsonView::Array(parts) => Some((ShapeView::OrdSet, parts)),
                _ => None,
            }
        } else if tag == "Map"@ {
            match items[1] {
                JsonView::Array(entries) => if all_entries(entries) {
                    Some((ShapeView::OrdMap, flat_entries(entries)))
                } else {
                    None
                },
                _ => None,
            }
        } else if tag == "Option"@ {
            match items[1] {
                JsonView::Null => Some((ShapeView::Option, Seq::empty())),
                _ => Some((ShapeView::Option, items.subrange(1, 2))),
            }
        } else {
            None
        }
    }
}

/// The tags are texts of their own: no two of them are the same text.
pub proof fn lemma_tags_differ()
    ensures
        "Unit"@.len() == 4,
        "Pair"@.len() == 4,
        "Bool"@.len() == 4,
        "Left"@.len() == 4,
        "List"@.len() == 4,
        "Int"@.len() == 3,
        "Set"@.len() == 3,
        "Map"@.len() == 3,
        "Bytes"@.len() == 5,
        "Union"@.len() == 5,
        "Right"@.len() == 5,
        "String"@.len() == 6,
        "Option"@.len() == 6,
        "Unit"@[0] == 'U',
        "Pair"@[0] == 'P',
        "Bool"@[0] == 'B',
        "Left"@[0] == 'L' && "Left"@[1] == 'e',
        "List"@[0] == 'L' && "List"@[1] == 'i',
        "Int"@[0] == 'I',
        "Set"@[0] == 'S',
        "Map"@[0] == 'M',
        "Bytes"@[0] == 'B',
        "Union"@[0] == 'U',
        "Right"@[0] == 'R',
        "String"@[0] == 'S',
        "Option"@[0] == 'O',
{
    reveal_strlit("Unit");
    reveal_strlit("Pair");
    reveal_strlit("Bool");
    reveal_strlit("Left");
    reveal_strlit("List");
    reveal_strlit("Int");
    reveal_strlit("Set");
    reveal_strlit("Map");
    reveal_strlit("Bytes");
    reveal_strlit("Union");
    reveal_strlit("Right");
    reveal_strlit("String");
    reveal_strlit("Option");
}

/// The parts that a document is read into are smaller than the document,
/// and as many as the shape can have.
pub proof fn lemma_unwire_parts(j: JsonView)
    requires
        shape_unwire(j).is_some(),
    ensures
        arity_fits(shape_unwire(j).unwrap().0, shape_unwire(j).unwrap().1.len()),
        forall|i: int|
            0 <= i < shape_unwire(j).unwrap().1.len() ==> json_size(
                #[trigger] shape_unwire(j).unwrap().1[i],
            ) < json_size(j),
{
    lemma_tags_differ();
    let items = j->Array_0;
    let parts = shape_unwire(j).unwrap().1;
    assert forall|i: int| 0 <= i < parts.len() implies json_size(#[trigger] parts[i]) < json_size(
        j,
    ) by {
        if items.len() == 3 {
            lemma_item_smaller(j, i + 1);
        } else {
            lemma_item_smaller(j, 1);
            match items[1] {
                JsonView::Array(inner) => {
                    let tag = items[0]->String_0;
                    if tag == "Union"@ {
                        lemma_item_smaller(items[1], 1);
                    } else if tag == "Map"@ {
                        lemma_item_smaller(items[1], i / 2);
                        if i % 2 == 0 {
                            lemma_item_smaller(inner[i / 2], 0);
                        } else {
                            lemma_item_smaller(inner[i / 2], 1);
                        }
                    } else if tag == "Option"@ {
                    } else {
                        lemma_item_smaller(items[1], i);
                    }
                },
                _ => {},
            }
        }
    }
}

/// The document that a tree is written as, if it is written.
pub open spec fn wire_of(t: Tree) -> Option<JsonView>
    decreases t, 1nat,
{
    if forall|i: int| 0 <= i < t.kids.len() ==> wire_of(#[trigger] t.kids[i]).is_some() {
        shape_wire(t.shape, wire_parts(t))
    } else {
        None
    }
}

/// The documents that the parts of a tree are written as.
pub open spec fn wire_parts(t: Tree) -> Seq<JsonView>
    decreases t, 0nat,
{
    Seq::new(
        t.kids.len(),
        |i: int|
            if 0 <= i < t.kids.len() {
                wire_of(t.kids[i]).unwrap()
            } else {
                JsonView::Null
            },
    )
}

/// The tree that a document is read as, if it is read as one.
pub open spec fn tree_of(j: JsonView) -> Option<Tree>
    decreases json_size(j), 2nat,
{
    match shape_unwire(j) {
        None => None,
        Some((shape, parts)) => {
            if forall|i: int|
                0 <= i < parts.len() ==> tree_of_part(j, #[trigger] parts[i]).is_some() {
                Some(Tree { shape, kids: tree_kids(j, parts) })
            } else {
                None
            }
        },
    }
}

/// The trees that parts of the document `j` are read as.
pub open spec fn tree_kids(j: JsonView, parts: Seq<JsonView>) -> Seq<Tree>
    decreases json_size(j), 1nat,
{
    Seq::new(parts.len(), |i: int| tree_of_part(j, parts[i]).unwrap())
}

/// The tree that a part of the document `j` is read as.
pub open spec fn tree_of_part(j: JsonView, part: JsonView) -> Option<Tree>
    decreases json_size(j), 0nat,
{
    if json_size(part) < json_size(j) {
        tree_of(part)
    } else {
        None
    }
}


/// A document that a shape is written as is read as that shape, with the
/// same parts.
pub proof fn lemma_unwire_wire(shape: ShapeView, parts: Seq<JsonView>)
    requires
        shape_wire(shape, parts).is_some(),
        shape is Option && parts.len() == 1 ==> !(parts[0] is Null),
    ensures
        shape_unwire(shape_wire(shape, parts).unwrap()) == Some((shape, parts)),
{
    lemma_tags_differ();
    let j = shape_wire(shape, parts).unwrap();
    let items = j->Array_0;
    match shape {
        ShapeView::Bytes(b) => {
            vstd::utf8::decode_utf8_encode_utf8(b);
            assert(parts =~= Seq::empty());
        },
        ShapeView::Text(_) => {
            assert(parts =~= Seq::empty());
        },
        ShapeView::Int(n) => {
            lemma_parse_decimal_text(n);
            assert(parts =~= Seq::empty());
        },
        ShapeView::Left => {
            let side = items[1]->Array_0;
            assert(side.subrange(1, 2) =~= parts);
        },
        ShapeView::Right => {
            let side = items[1]->Array_0;
            assert(side.subrange(1, 2) =~= parts);
        },
        ShapeView::Pair => {
            assert(items.subrange(1, 3) =~= parts);
        },
        ShapeView::Bool(_) => {
            assert(parts =~= Seq::empty());
        },
        ShapeView::OrdMap => {
            let entries = wire_entries(parts);
            assert(all_entries(entries));
            assert(flat_entries(entries) =~= parts);
        },
        ShapeView::OrdSet => {},
        ShapeView::List => {},
        ShapeView::Unit => {
            assert(parts =~= Seq::empty());
            assert(items.len() == 1);
        },
        ShapeView::Option => {
            if parts.len() == 0 {
                assert(parts =~= Seq::empty());
            } else {
                assert(items.subrange(1, 2) =~= parts);
            }
        },
    }
}

/// The document of a tree is an array.
pub proof fn lemma_wire_is_array(t: Tree)
    requires
        wire_of(t).is_some(),
    ensures
        wire_of(t).unwrap() is Array,
{
}

/// The wire format loses nothing: the document that a tree is written as is
/// read as that tree.
pub proof fn lemma_wire_round_trip(t: Tree)
    requires
        wire_of(t).is_some(),
    ensures
        tree_of(wire_of(t).unwrap()) == Some(t),
    decreases t,
{
    let parts = wire_parts(t);
    let j = wire_of(t).unwrap();
    if parts.len() == 1 {
        assert(wire_of(t.kids[0]).is_some());
        lemma_wire_is_array(t.kids[0]);
    }
    lemma_unwire_wire(t.shape, parts);
    lemma_unwire_parts(j);
    assert forall|i: int| 0 <= i < parts.len() implies tree_of_part(j, #[trigger] parts[i])
        == Some(t.kids[i]) by {
        assert(wire_of(t.kids[i]).is_some());
        lemma_wire_round_trip(t.kids[i]);
        assert(json_size(shape_unwire(j).unwrap().1[i]) < json_size(j));
    }
    assert(shape_unwire(j) == Some((t.shape, parts)));
    assert(forall|i: int| 0 <= i < parts.len() ==> tree_of_part(j, #[trigger] parts[i]).is_some());
    let back = tree_of(j).unwrap();
    assert(back.kids.len() == t.kids.len());
    assert forall|i: int| 0 <= i < back.kids.len() implies back.kids[i] == t.kids[i] by {
        assert(tree_of_part(j, parts[i]) == Some(t.kids[i]));
    }
    assert(back.kids =~= t.kids);
}

/// One store holds all that another holds.
pub open spec fn extends(bigger: Map<u64, ValueView>, store: Map<u64, ValueView>) -> bool {
    forall|h: u64| #[trigger]
        store.dom().contains(h) ==> bigger.dom().contains(h) && bigger[h] == store[h]
}

pub proof fn lemma_extends_transitive(
    a: Map<u64, ValueView>,
    b: Map<u64, ValueView>,
    c: Map<u64, ValueView>,
)
    requires
        extends(a, b),
        extends(b, c),
    ensures
        extends(a, c),
{
    assert forall|h: u64| c.dom().contains(h) implies a.dom().contains(h) && a[h] == c[h] by {
        assert(b.dom().contains(h));
    }
}

/// A tree that a value has at some depth and in some store, it has at every
/// greater depth and in every store that holds all that the store holds.
pub proof fn lemma_deep_stays(
    store: Map<u64, ValueView>,
    v: ValueView,
    fuel: nat,
    bigger: Map<u64, ValueView>,
    more: nat,
)
    requires
        deep(store, v, fuel).is_some(),
        extends(bigger, store),
        fuel <= more,
    ensures
        deep(bigger, v, more) == deep(store, v, fuel),
    decreases fuel,
{
    let kids = kids_of(v);
    if kids.len() > 0 {
        assert forall|i: int| 0 <= i < kids.len() implies deep_at(
            bigger,
            #[trigger] kids[i],
            (more - 1) as nat,
        ) == deep_at(store, kids[i], (fuel - 1) as nat) by {
            assert(deep_at(store, kids[i], (fuel - 1) as nat).is_some());
            lemma_deep_stays(
                store,
                resolved(store, kids[i]).unwrap(),
                (fuel - 1) as nat,
                bigger,
                (more - 1) as nat,
            );
        }
        assert(deep(bigger, v, more).unwrap().kids =~= deep(store, v, fuel).unwrap().kids);
    }
}


/// What a value is apart from its parts.
pub enum Shape {
    Bytes(Vec<u8>),
    Text(String),
    Int(Integer),
    Left,
    Right,
    Pair,
    Bool(bool),
    OrdMap,
    OrdSet,
    List,
    Unit,
    Option,
}

impl View for Shape {
    type V = ShapeView;

    open spec fn view(&self) -> ShapeView {
        match self {
            Shape::Bytes(b) => ShapeView::Bytes(b@),
            Shape::Text(s) => ShapeView::Text(s@),
            Shape::Int(n) => ShapeView::Int(n@),
            Shape::Left => ShapeView::Left,
            Shape::Right => ShapeView::Right,
            Shape::Pair => ShapeView::Pair,
            Shape::Bool(b) => ShapeView::Bool(*b),
            Shape::OrdMap => ShapeView::OrdMap,
            Shape::OrdSet => ShapeView::OrdSet,
            Shape::List => ShapeView::List,
            Shape::Unit => ShapeView::Unit,
            Shape::Option => ShapeView::Option,
        }
    }
}

/// `String::from_utf8`: the text that a byte string is in UTF-8, or nothing
/// where it is no such text.
#[verifier::external_body]
fn text_of_bytes(bytes: Vec<u8>) -> (text: Option<String>)
    ensures
        match text {
            Some(t) => vstd::utf8::valid_utf8(bytes@) && t@ == vstd::utf8::decode_utf8(bytes@),
            None => !vstd::utf8::valid_utf8(bytes@),
        },
{
    String::from_utf8(bytes).ok()
}

/// Whether two texts are the same.
pub fn same_text(a: &str, b: &str) -> (r: bool)
    ensures
        r == (a@ == b@),
{
    proof {
        let x = vstd::utf8::encode_utf8(a@);
        let y = vstd::utf8::encode_utf8(b@);
        lemma_lex_order_equal(bytes_key(x), bytes_key(y));
        if bytes_key(x) == bytes_key(y) {
            lemma_bytes_key_injective(x, y);
            vstd::utf8::encode_utf8_decode_utf8(a@);
            vstd::utf8::encode_utf8_decode_utf8(b@);
        }
    }
    order_bytes(a.as_bytes(), b.as_bytes()) == 0
}

/// The handles of the parts of a value; none for a closure.
fn kid_handles(v: &Value) -> (r: Option<Vec<u64>>)
    ensures
        match shape_of(v@) {
            Some(_) => r.is_some() && r.unwrap()@ == kids_of(v@),
            None => r.is_none(),
        },
{
    let mut kids: Vec<u64> = Vec::new();
    match v {
        Value::Union(Union::Left(h)) => {
            kids.push(*h);
        },
        Value::Union(Union::Right(h)) => {
            kids.push(*h);
        },
        Value::Pair { fst, snd } => {
            kids.push(*fst);
            kids.push(*snd);
        },
        Value::OrdMap(entries) => {
            let mut i: usize = 0;
            while i < entries.len()
                invariant
                    i <= entries.len(),
                    kids@ == flat(entries@).take(2 * i),
                decreases entries.len() - i,
            {
                kids.push(entries[i].0);
                kids.push(entries[i].1);
                i = i + 1;
                assert(kids@ =~= flat(entries@).take(2 * i));
            }
            assert(flat(entries@).take(2 * i) =~= flat(entries@));
        },
        Value::OrdSet(items) => {
            kids = copy_vec(items);
        },
        Value::List(list) => {
            let n = list_len(list);
            let mut i: usize = 0;
            while i < n
                invariant
                    i <= n,
                    n == list_items(*list).len(),
                    kids@ == list_items(*list).take(i as int),
                decreases n - i,
            {
                match list_get(list, i) {
                    Some(h) => {
                        kids.push(h);
                    },
                    None => {},
                }
                i = i + 1;
                assert(kids@ =~= list_items(*list).take(i as int));
            }
            assert(list_items(*list).take(n as int) =~= list_items(*list));
        },
        Value::Option(Some(h)) => {
            kids.push(*h);
        },
        Value::Closure { .. } => {
            return None;
        },
        _ => {},
    }
    assert(kids@ =~= kids_of(v@));
    Some(kids)
}

/// The value of the given shape whose parts have the given handles.
fn build(shape: Shape, kids: Vec<u64>) -> (r: Value)
    requires
        arity_fits(shape@, kids@.len()),
    ensures
        r@ == rebuilt(shape@, kids@),
{
    match shape {
        Shape::Bytes(b) => Value::Bytes(b),
        Shape::Text(s) => Value::String(s),
        Shape::Int(n) => Value::Int(n),
        Shape::Left => Value::Union(Union::Left(kids[0])),
        Shape::Right => Value::Union(Union::Right(kids[0])),
        Shape::Pair => Value::Pair { fst: kids[0], snd: kids[1] },
        Shape::Bool(b) => Value::Bool(b),
        Shape::OrdMap => {
            let mut entries: Vec<(u64, u64)> = Vec::new();
            let n = kids.len() / 2;
            let mut i: usize = 0;
            while i < n
                invariant
                    kids@.len() % 2 == 0,
                    n == kids@.len() / 2,
                    kids@.len() <= usize::MAX,
                    i <= n,
                    entries@ == paired(kids@).take(i as int),
                decreases n - i,
            {
                assert(2 * i + 1 < kids@.len());
                entries.push((kids[2 * i], kids[2 * i + 1]));
                i = i + 1;
                assert(entries@ =~= paired(kids@).take(i as int));
            }
            assert(paired(kids@).take(i as int) =~= paired(kids@));
            Value::OrdMap(entries)
        },
        Shape::OrdSet => Value::OrdSet(kids),
        Shape::List => {
            let mut list = list_new();
            let mut i: usize = 0;
            while i < kids.len()
                invariant
                    i <= kids.len(),
                    list_items(list) == kids@.take(i as int),
                decreases kids.len() - i,
            {
                list_push_back(&mut list, kids[i]);
                i = i + 1;
                assert(list_items(list) =~= kids@.take(i as int));
            }
            assert(kids@.take(i as int) =~= kids@);
            Value::List(list)
        },
        Shape::Unit => Value::Unit,
        Shape::Option => {
            if kids.len() == 0 {
                Value::Option(None)
            } else {
                Value::Option(Some(kids[0]))
            }
        },
    }
}


/// A tagged tuple of the given tag and payload.
pub fn tag(name: &str, payload: Vec<Json>) -> (r: Json)
    ensures
        r@ == tagged(name@, items_view(payload@)),
{
    let mut payload = payload;
    let ghost after = payload@;
    let mut items: Vec<Json> = Vec::new();
    items.push(Json::String(name.to_string()));
    items.append(&mut payload);
    proof {
        lemma_array_view(items);
        assert(items_view(items@) =~= seq![JsonView::String(name@)] + items_view(after));
    }
    Json::Array(items)
}

/// A vector of one document.
pub fn one(j: Json) -> (r: Vec<Json>)
    ensures
        r@ == seq![j],
        items_view(r@) == seq![j@],
{
    let mut items: Vec<Json> = Vec::new();
    items.push(j);
    assert(items_view(items@) =~= seq![j@]);
    items
}

/// The documents of a vector in reverse.
fn reversed_items(items: Vec<Json>) -> (r: Vec<Json>)
    ensures
        r@ == items@.reverse(),
{
    let mut items = items;
    let ghost all = items@;
    let mut r: Vec<Json> = Vec::new();
    while items.len() > 0
        invariant
            items@.len() <= all.len(),
            items@ == all.take(items@.len() as int),
            r@.len() == all.len() - items@.len(),
            forall|k: int| 0 <= k < r@.len() ==> r@[k] == all[all.len() - 1 - k],
        decreases items.len(),
    {
        let ghost before = items@;
        match items.pop() {
            Some(x) => {
                r.push(x);
            },
            None => {},
        }
        assert(items@ =~= all.take(items@.len() as int));
    }
    assert(r@ =~= all.reverse());
    r
}

/// The entries of a map on the wire, from the documents of its keys and
/// values in turn.
fn pair_up(parts: Vec<Json>) -> (r: Vec<Json>)
    requires
        parts@.len() % 2 == 0,
    ensures
        items_view(r@) == wire_entries(items_view(parts@)),
{
    let mut parts = parts;
    let ghost all = parts@;
    let ghost total = all.len() / 2;
    let mut back: Vec<Json> = Vec::new();
    while parts.len() >= 2
        invariant
            all.len() % 2 == 0,
            total == all.len() / 2,
            parts@.len() % 2 == 0,
            parts@.len() <= all.len(),
            parts@ == all.take(parts@.len() as int),
            back@.len() == total - parts@.len() / 2,
            forall|k: int|
                0 <= k < back@.len() ==> (#[trigger] back@[k])@ == JsonView::Array(
                    seq![all[2 * (total - 1 - k)]@, all[2 * (total - 1 - k) + 1]@],
                ),
        decreases parts.len(),
    {
        let ghost m = parts@.len() / 2;
        let value = parts.pop();
        let key = parts.pop();
        match (key, value) {
            (Some(k), Some(v)) => {
                let mut entry: Vec<Json> = Vec::new();
                entry.push(k);
                entry.push(v);
                proof {
                    lemma_array_view(entry);
                    assert(items_view(entry@) =~= seq![k@, v@]);
                    assert(k == all[2 * (m - 1)]);
                    assert(v == all[2 * (m - 1) + 1]);
                }
                back.push(Json::Array(entry));
            },
            _ => {},
        }
        assert(parts@ =~= all.take(parts@.len() as int));
    }
    let r = reversed_items(back);
    assert(items_view(r@) =~= wire_entries(items_view(all)));
    r
}

/// The document of a value whose parts are written as `parts`.
fn write_shape(v: &Value, parts: Vec<Json>) -> (r: Option<Json>)
    requires
        shape_of(v@).is_some(),
        parts@.len() == kids_of(v@).len(),
    ensures
        match shape_wire(shape_of(v@).unwrap(), items_view(parts@)) {
            Some(j) => r.is_some() && r.unwrap()@ == j,
            None => r.is_none(),
        },
{
    proof {
        lemma_rebuilt(v@);
    }
    let mut parts = parts;
    let ghost given = items_view(parts@);
    match v {
        Value::Bytes(b) => {
            match text_of_bytes(copy_vec(b)) {
                Some(text) => Some(tag("Bytes", one(Json::String(text)))),
                None => None,
            }
        },
        Value::String(s) => Some(tag("String", one(Json::String(s.clone())))),
        Value::Int(n) => Some(tag("Int", one(Json::String(n.to_decimal())))),
        Value::Union(Union::Left(_)) => {
            let mut side: Vec<Json> = Vec::new();
            side.push(Json::String("Left".to_string()));
            side.append(&mut parts);
            proof {
                lemma_array_view(side);
                assert(items_view(side@) =~= seq![JsonView::String("Left"@), given[0]]);
            }
            Some(tag("Union", one(Json::Array(side))))
        },
        Value::Union(Union::Right(_)) => {
            let mut side: Vec<Json> = Vec::new();
            side.push(Json::String("Right".to_string()));
            side.append(&mut parts);
            proof {
                lemma_array_view(side);
                assert(items_view(side@) =~= seq![JsonView::String("Right"@), given[0]]);
            }
            Some(tag("Union", one(Json::Array(side))))
        },
        Value::Pair { .. } => Some(tag("Pair", parts)),
        Value::Bool(b) => Some(tag("Bool", one(Json::Bool(*b)))),
        Value::OrdMap(_) => {
            let entries = pair_up(parts);
            proof {
                lemma_array_view(entries);
            }
            Some(tag("Map", one(Json::Array(entries))))
        },
        Value::OrdSet(_) => {
            proof {
                lemma_array_view(parts);
            }
            Some(tag("Set", one(Json::Array(parts))))
        },
        Value::List(_) => {
            proof {
                lemma_array_view(parts);
            }
            Some(tag("List", one(Json::Array(parts))))
        },
        Value::Unit => {
            let r = tag("Unit", Vec::new());
            assert(items_view(Seq::<Json>::empty()) =~= Seq::<JsonView>::empty());
            Some(r)
        },
        Value::Option(None) => Some(tag("Option", one(Json::Null))),
        Value::Option(Some(_)) => {
            assert(items_view(parts@) =~= seq![given[0]]);
            Some(tag("Option", parts))
        },
        Value::Closure { .. } => None,
    }
}


/// The deepest that the wire format nests values.
pub const MAX_DEPTH: usize = 128;

/// The text of the error for a value that is not written to the wire.
pub open spec fn not_serializable() -> Seq<char> {
    "error serializing"@
}

/// The text of the error for a document that is read as no value.
pub open spec fn malformed() -> Seq<char> {
    "unexpected sequence"@
}

/// The text of the error for a document whose values the arena has no room
/// for.
pub open spec fn no_room() -> Seq<char> {
    "arena exhausted"@
}

/// The document that a value in a store is written as, at the depth that
/// the wire format allows.
pub open spec fn encoded(store: Map<u64, ValueView>, v: ValueView, fuel: nat) -> Option<JsonView> {
    match deep(store, v, fuel) {
        None => None,
        Some(t) => wire_of(t),
    }
}

/// Writes a value as a document: `None` where it has no document.
fn encode_value(arena: &Arena, v: &Value, depth: usize) -> (r: Option<Json>)
    ensures
        match encoded(arena@, v@, depth as nat) {
            Some(j) => r.is_some() && r.unwrap()@ == j,
            None => r.is_none(),
        },
    decreases depth,
{
    let kids = match kid_handles(v) {
        Some(kids) => kids,
        None => {
            return None;
        },
    };
    let mut parts: Vec<Json> = Vec::new();
    if kids.len() > 0 {
        if depth == 0 {
            return None;
        }
        let mut i: usize = 0;
        while i < kids.len()
            invariant
                i <= kids.len(),
                depth > 0,
                kids@ == kids_of(v@),
                shape_of(v@).is_some(),
                parts@.len() == i,
                forall|k: int|
                    0 <= k < i ==> encoded_at(arena@, #[trigger] kids@[k], (depth - 1) as nat)
                        == Some(parts@[k]@),
            decreases kids.len() - i,
        {
            let child = match arena.get(kids[i]) {
                Some(child) => child,
                None => {
                    assert(deep_at(arena@, kids@[i as int], (depth - 1) as nat).is_none());
                    return None;
                },
            };
            match encode_value(arena, child, depth - 1) {
                Some(j) => {
                    parts.push(j);
                },
                None => {
                    proof {
                        let t = deep(arena@, v@, depth as nat);
                        if t.is_some() {
                            assert(deep_at(arena@, kids@[i as int], (depth - 1) as nat).is_some());
                            assert(t.unwrap().kids[i as int] == deep_at(
                                arena@,
                                kids@[i as int],
                                (depth - 1) as nat,
                            ).unwrap());
                            assert(wire_of(t.unwrap().kids[i as int]).is_none());
                        }
                    }
                    return None;
                },
            }
            i = i + 1;
        }
    }
    proof {
        let ghost_kids = kids@;
        let t = deep(arena@, v@, depth as nat);
        if ghost_kids.len() > 0 {
            assert forall|k: int| 0 <= k < ghost_kids.len() implies deep_at(
                arena@,
                #[trigger] ghost_kids[k],
                (depth - 1) as nat,
            ).is_some() by {
                assert(encoded_at(arena@, ghost_kids[k], (depth - 1) as nat).is_some());
            }
        }
        assert(t.is_some());
        let tree = t.unwrap();
        assert forall|k: int| 0 <= k < tree.kids.len() implies wire_of(#[trigger] tree.kids[k])
            == Some(parts@[k]@) by {
            assert(encoded_at(arena@, ghost_kids[k], (depth - 1) as nat) == Some(parts@[k]@));
        }
        let written = wire_parts(tree);
        assert(written =~= items_view(parts@));
        assert(forall|k: int| 0 <= k < tree.kids.len() ==> wire_of(#[trigger] tree.kids[k]).is_some());
        assert(wire_of(tree) == shape_wire(tree.shape, written));
        assert(tree.shape == shape_of(v@).unwrap());
        assert(encoded(arena@, v@, depth as nat) == shape_wire(
            shape_of(v@).unwrap(),
            items_view(parts@),
        ));
    }
    write_shape(v, parts)
}

/// The document of what a handle resolves to.
pub open spec fn encoded_at(store: Map<u64, ValueView>, h: u64, fuel: nat) -> Option<JsonView> {
    match deep_at(store, h, fuel) {
        None => None,
        Some(t) => wire_of(t),
    }
}

/// Writes a value as a document, with the values that its handles resolve
/// to in the arena in place of the handles. A value has no document where
/// one of its handles resolves to nothing, where it holds a closure or a
/// byte string that is no text in UTF-8, or where it is nested deeper than
/// the wire format allows.
pub fn encode(arena: &Arena, v: &Value) -> (r: VMResult<Json>)
    ensures
        match encoded(arena@, v@, MAX_DEPTH as nat) {
            Some(j) => r.is_ok() && r.unwrap()@ == j,
            None => r.is_err() && r.unwrap_err()@ == ErrorView::RuntimeErr(not_serializable()),
        },
{
    match encode_value(arena, v, MAX_DEPTH) {
        Some(j) => Ok(j),
        None => Err(VmError::RuntimeErr("error serializing".to_string())),
    }
}


/// What the documents behind references are.
pub open spec fn refs_view(parts: Seq<&Json>) -> Seq<JsonView> {
    Seq::new(parts.len(), |i: int| parts[i]@)
}

/// Reads the shape of a document and finds the documents of its parts.
fn read_shape(j: &Json) -> (r: Option<(Shape, Vec<&Json>)>)
    ensures
        match shape_unwire(j@) {
            Some((shape, parts)) => r.is_some() && r.unwrap().0@ == shape && refs_view(
                r.unwrap().1@,
            ) == parts,
            None => r.is_none(),
        },
{
    let items = match j {
        Json::Array(items) => items,
        _ => {
            return None;
        },
    };
    proof {
        lemma_array_view(*items);
    }
    if items.len() == 0 {
        return None;
    }
    let tag = match &items[0] {
        Json::String(tag) => tag.as_str(),
        _ => {
            return None;
        },
    };
    assert(j@->Array_0[0] == JsonView::String(tag@));
    let mut parts: Vec<&Json> = Vec::new();
    assert(refs_view(parts@) =~= Seq::<JsonView>::empty());
    if same_text(tag, "Unit") {
        if items.len() == 1 {
            return Some((Shape::Unit, parts));
        }
        return None;
    }
    if same_text(tag, "Pair") {
        if items.len() == 3 {
            parts.push(&items[1]);
            parts.push(&items[2]);
            assert(refs_view(parts@) =~= j@->Array_0.subrange(1, 3));
            return Some((Shape::Pair, parts));
        }
        return None;
    }
    if items.len() != 2 {
        return None;
    }
    let payload = &items[1];
    assert(j@->Array_0[1] == payload@);
    if same_text(tag, "Bool") {
        match payload {
            Json::Bool(b) => Some((Shape::Bool(*b), parts)),
            _ => None,
        }
    } else if same_text(tag, "Int") {
        match payload {
            Json::String(text) => match Integer::from_decimal(text.as_str()) {
                Some(n) => Some((Shape::Int(n), parts)),
                None => None,
            },
            _ => None,
        }
    } else if same_text(tag, "Bytes") {
        match payload {
            Json::String(text) => Some((Shape::Bytes(text.as_str().as_bytes_vec()), parts)),
            _ => None,
        }
    } else if same_text(tag, "String") {
        match payload {
            Json::String(text) => Some((Shape::Text(text.clone()), parts)),
            _ => None,
        }
    } else if same_text(tag, "Union") {
        match payload {
            Json::Array(side) => {
                proof {
                    lemma_array_view(*side);
                }
                if side.len() != 2 {
                    return None;
                }
                match &side[0] {
                    Json::String(which) => {
                        assert(payload@->Array_0[0] == JsonView::String(which@));
                        if same_text(which.as_str(), "Left") {
                            parts.push(&side[1]);
                            assert(refs_view(parts@) =~= payload@->Array_0.subrange(1, 2));
                            Some((Shape::Left, parts))
                        } else if same_text(which.as_str(), "Right") {
                            parts.push(&side[1]);
                            assert(refs_view(parts@) =~= payload@->Array_0.subrange(1, 2));
                            Some((Shape::Right, parts))
                        } else {
                            None
                        }
                    },
                    _ => None,
                }
            },
            _ => None,
        }
    } else if same_text(tag, "List") {
        match payload {
            Json::Array(inner) => Some((Shape::List, all_refs(inner))),
            _ => None,
        }
    } else if same_text(tag, "Set") {
        match payload {
            Json::Array(inner) => Some((Shape::OrdSet, all_refs(inner))),
            _ => None,
        }
    } else if same_text(tag, "Map") {
        match payload {
            Json::Array(entries) => {
                proof {
                    lemma_array_view(*entries);
                }
                let mut i: usize = 0;
                assert(!all_entries(items_view(entries@)) ==> shape_unwire(j@).is_none());
                assert(all_entries(items_view(entries@)) ==> shape_unwire(j@) == Some(
                    (ShapeView::OrdMap, flat_entries(items_view(entries@))),
                ));
                assert(refs_view(parts@) =~= flat_entries(items_view(entries@)).take(0));
                while i < entries.len()
                    invariant
                        i <= entries.len(),
                        !all_entries(items_view(entries@)) ==> shape_unwire(j@).is_none(),
                        all_entries(items_view(entries@)) ==> shape_unwire(j@) == Some(
                            (ShapeView::OrdMap, flat_entries(items_view(entries@))),
                        ),
                        payload@ == JsonView::Array(items_view(entries@)),
                        parts@.len() == 2 * i,
                        all_entries(items_view(entries@).take(i as int)),
                        refs_view(parts@) == flat_entries(items_view(entries@)).take(2 * i),
                    decreases entries.len() - i,
                {
                    let ghost wire = items_view(entries@);
                    match &entries[i] {
                        Json::Array(entry) => {
                            proof {
                                lemma_array_view(*entry);
                            }
                            if entry.len() != 2 {
                                assert(!all_entries(wire)) by {
                                    assert(wire[i as int]->Array_0.len() != 2);
                                }
                                return None;
                            }
                            parts.push(&entry[0]);
                            parts.push(&entry[1]);
                        },
                        _ => {
                            assert(!all_entries(wire)) by {
                                assert(!(wire[i as int] is Array));
                            }
                            return None;
                        },
                    }
                    i = i + 1;
                    proof {
                        assert forall|k: int| 0 <= k < i implies (#[trigger] wire.take(
                            i as int,
                        )[k]) is Array && wire.take(i as int)[k]->Array_0.len() == 2 by {
                            if k < i - 1 {
                                assert(wire.take(i as int - 1)[k] == wire.take(i as int)[k]);
                            }
                        }
                        assert(refs_view(parts@) =~= flat_entries(wire).take(2 * i));
                    }
                }
                proof {
                    let wire = items_view(entries@);
                    assert(wire.take(i as int) =~= wire);
                    assert(flat_entries(wire).take(2 * i) =~= flat_entries(wire));
                }
                Some((Shape::OrdMap, parts))
            },
            _ => None,
        }
    } else if same_text(tag, "Option") {
        match payload {
            Json::Null => Some((Shape::Option, parts)),
            _ => {
                parts.push(payload);
                assert(refs_view(parts@) =~= j@->Array_0.subrange(1, 2));
                Some((Shape::Option, parts))
            },
        }
    } else {
        None
    }
}

/// References to all the documents of a vector.
fn all_refs(items: &Vec<Json>) -> (r: Vec<&Json>)
    ensures
        refs_view(r@) == items_view(items@),
{
    let mut r: Vec<&Json> = Vec::new();
    let mut i: usize = 0;
    while i < items.len()
        invariant
            i <= items.len(),
            r@.len() == i,
            forall|k: int| 0 <= k < i ==> r@[k]@ == items@[k]@,
        decreases items.len() - i,
    {
        r.push(&items[i]);
        i = i + 1;
    }
    assert(refs_view(r@) =~= items_view(items@));
    r
}


/// The number of levels of parts in a tree.
pub open spec fn tree_height(t: Tree) -> nat
    decreases t,
{
    if t.kids.len() == 0 {
        0
    } else {
        1 + heights_max(t.kids, t.kids.len())
    }
}

/// The greatest height among the first `n` trees of a sequence.
pub open spec fn heights_max(kids: Seq<Tree>, n: nat) -> nat
    decreases kids, n,
{
    if n == 0 || n > kids.len() {
        0
    } else {
        let rest = heights_max(kids, (n - 1) as nat);
        let last = tree_height(kids[n - 1]);
        if last > rest {
            last
        } else {
            rest
        }
    }
}

/// The number of trees below the root of a tree: as many values as reading
/// the tree's document inserts into the arena.
pub open spec fn inner_nodes(t: Tree) -> nat
    decreases t,
{
    nodes_sum(t.kids, t.kids.len())
}

/// The number of trees in the first `n` trees of a sequence.
pub open spec fn nodes_sum(kids: Seq<Tree>, n: nat) -> nat
    decreases kids, n,
{
    if n == 0 || n > kids.len() {
        0
    } else {
        nodes_sum(kids, (n - 1) as nat) + 1 + inner_nodes(kids[n - 1])
    }
}

pub proof fn lemma_height_of_kid(kids: Seq<Tree>, n: nat, i: int)
    requires
        0 <= i < n <= kids.len(),
    ensures
        tree_height(kids[i]) <= heights_max(kids, n),
    decreases n,
{
    if i < n - 1 {
        lemma_height_of_kid(kids, (n - 1) as nat, i);
    }
}

pub proof fn lemma_nodes_sum_grows(kids: Seq<Tree>, n: nat, m: nat)
    requires
        n <= m <= kids.len(),
    ensures
        nodes_sum(kids, n) <= nodes_sum(kids, m),
    decreases m,
{
    if n < m {
        lemma_nodes_sum_grows(kids, n, (m - 1) as nat);
    }
}

/// A tree that a value has at some depth is no higher than that depth.
pub proof fn lemma_deep_height(store: Map<u64, ValueView>, v: ValueView, fuel: nat)
    requires
        deep(store, v, fuel).is_some(),
    ensures
        tree_height(deep(store, v, fuel).unwrap()) <= fuel,
    decreases fuel,
{
    let t = deep(store, v, fuel).unwrap();
    let kids = kids_of(v);
    if kids.len() > 0 {
        assert forall|i: int| 0 <= i < t.kids.len() implies tree_height(#[trigger] t.kids[i])
            <= fuel - 1 by {
            assert(deep_at(store, kids[i], (fuel - 1) as nat).is_some());
            lemma_deep_height(store, resolved(store, kids[i]).unwrap(), (fuel - 1) as nat);
        }
        lemma_heights_bounded(t.kids, t.kids.len(), (fuel - 1) as nat);
    }
}

pub proof fn lemma_heights_bounded(kids: Seq<Tree>, n: nat, bound: nat)
    requires
        n <= kids.len(),
        forall|i: int| 0 <= i < kids.len() ==> tree_height(#[trigger] kids[i]) <= bound,
    ensures
        heights_max(kids, n) <= bound,
    decreases n,
{
    if n > 0 {
        lemma_heights_bounded(kids, (n - 1) as nat, bound);
    }
}

/// A count, cut off just above the limit of the arena.
pub open spec fn capped(n: nat) -> nat {
    if n > ARENA_LIMIT {
        (ARENA_LIMIT + 1) as nat
    } else {
        n
    }
}

/// Checks that a document is read as a value and counts the values that
/// reading it inserts into the arena, up to just above the arena's limit.
fn measure(j: &Json) -> (r: Option<u64>)
    ensures
        match tree_of(j@) {
            Some(t) => r.is_some() && r.unwrap() == capped(inner_nodes(t)),
            None => r.is_none(),
        },
    decreases json_size(j@),
{
    let (shape, parts) = match read_shape(j) {
        Some(read) => read,
        None => {
            return None;
        },
    };
    proof {
        lemma_unwire_parts(j@);
    }
    let ghost wire = refs_view(parts@);
    let mut total: u64 = 0;
    let mut i: usize = 0;
    while i < parts.len()
        invariant
            i <= parts.len(),
            wire == refs_view(parts@),
            shape_unwire(j@) == Some((shape@, wire)),
            forall|k: int| 0 <= k < wire.len() ==> json_size(#[trigger] wire[k]) < json_size(j@),
            forall|k: int| 0 <= k < i ==> tree_of_part(j@, #[trigger] wire[k]).is_some(),
            total == capped(nodes_sum(tree_kids(j@, wire), i as nat)),
        decreases parts.len() - i,
    {
        assert(wire[i as int] == parts@[i as int]@);
        let ghost kids = tree_kids(j@, wire);
        match measure(parts[i]) {
            Some(count) => {
                assert(kids[i as int] == tree_of(wire[i as int]).unwrap());
                total = total + count + 1;
                if total > ARENA_LIMIT {
                    total = ARENA_LIMIT + 1;
                }
            },
            None => {
                assert(tree_of_part(j@, wire[i as int]).is_none());
                return None;
            },
        }
        i = i + 1;
    }
    assert(tree_of(j@).unwrap().kids == tree_kids(j@, wire));
    Some(total)
}

/// Reads a document that is read as a value, with room in the arena for the
/// values that this inserts.
fn decode_tree(arena: &mut Arena, j: &Json) -> (r: Value)
    requires
        tree_of(j@).is_some(),
        old(arena).has_room(inner_nodes(tree_of(j@).unwrap())),
    ensures
        deep(final(arena)@, r@, tree_height(tree_of(j@).unwrap())) == tree_of(j@),
        extends(final(arena)@, old(arena)@),
        final(arena).count() == old(arena).count() + inner_nodes(tree_of(j@).unwrap()),
    decreases json_size(j@),
{
    let ghost t = tree_of(j@).unwrap();
    let ghost height = tree_height(t);
    let (shape, parts) = match read_shape(j) {
        Some(read) => read,
        None => {
            return Value::Unit;
        },
    };
    proof {
        lemma_unwire_parts(j@);
    }
    let ghost wire = refs_view(parts@);
    assert(t.kids == tree_kids(j@, wire));
    let mut kids: Vec<u64> = Vec::new();
    let mut i: usize = 0;
    while i < parts.len()
        invariant
            i <= parts.len(),
            wire == refs_view(parts@),
            t == tree_of(j@).unwrap(),
            height == tree_height(t),
            t.kids == tree_kids(j@, wire),
            t.kids.len() == wire.len(),
            forall|k: int| 0 <= k < wire.len() ==> json_size(#[trigger] wire[k]) < json_size(j@),
            forall|k: int| 0 <= k < wire.len() ==> tree_of_part(j@, #[trigger] wire[k]).is_some(),
            old(arena).count() + inner_nodes(t) <= ARENA_LIMIT,
            arena.count() == old(arena).count() + nodes_sum(t.kids, i as nat),
            extends(arena@, old(arena)@),
            kids@.len() == i,
            forall|k: int|
                0 <= k < i ==> canonical_handle(#[trigger] kids@[k]) == kids@[k] && arena@.dom().contains(
                    kids@[k],
                ),
            forall|k: int|
                0 <= k < i ==> deep_at(arena@, #[trigger] kids@[k], (height - 1) as nat) == Some(
                    t.kids[k],
                ),
        decreases parts.len() - i,
    {
        let ghost before = arena@;
        let ghost kid = t.kids[i as int];
        proof {
            assert(wire[i as int] == parts@[i as int]@);
            assert(tree_of_part(j@, wire[i as int]).is_some());
            assert(kid == tree_of(wire[i as int]).unwrap());
            lemma_nodes_sum_grows(t.kids, (i + 1) as nat, t.kids.len());
            lemma_height_of_kid(t.kids, t.kids.len(), i as int);
        }
        let child = decode_tree(arena, parts[i]);
        let ghost middle = arena@;
        let h = arena.insert(child);
        kids.push(h);
        proof {
            assert(extends(arena@, middle));
            lemma_extends_transitive(arena@, middle, before);
            lemma_extends_transitive(arena@, before, old(arena)@);
            lemma_deep_stays(middle, child@, tree_height(kid), arena@, (height - 1) as nat);
            assert(deep_at(arena@, h, (height - 1) as nat) == Some(kid));
            assert forall|k: int| 0 <= k < i implies deep_at(
                arena@,
                #[trigger] kids@[k],
                (height - 1) as nat,
            ) == Some(t.kids[k]) by {
                lemma_deep_stays(
                    before,
                    resolved(before, kids@[k]).unwrap(),
                    (height - 1) as nat,
                    arena@,
                    (height - 1) as nat,
                );
            }
        }
        i = i + 1;
    }
    proof {
        lemma_shape_of_rebuilt(shape@, kids@);
        let v = rebuilt(shape@, kids@);
        if kids@.len() > 0 {
            assert(forall|k: int|
                0 <= k < kids@.len() ==> deep_at(arena@, #[trigger] kids@[k], (height - 1) as nat)
                    .is_some());
            assert(deep(arena@, v, height).unwrap().kids =~= t.kids);
        } else {
            assert(t.kids =~= Seq::<Tree>::empty());
        }
    }
    build(shape, kids)
}

/// How the outcome of reading a document stands to the arena before and
/// after. A document that is read as no value gives an error, and so does
/// one whose values the arena has no room for; the arena is then as it was.
/// Else the value read has in the arena the tree that the document is read
/// as, the arena holds all that it held, and it holds as many more values
/// as the tree has below its root.
pub open spec fn decoded_as(before: Arena, j: JsonView, after: Arena, r: VMResult<Value>) -> bool {
    match tree_of(j) {
        None => r matches Err(e) && e@ == ErrorView::DeserializeErr(malformed()) && after@
            == before@,
        Some(t) => if before.has_room(inner_nodes(t)) {
            &&& r matches Ok(v) && deep(after@, v@, tree_height(t)) == Some(t)
            &&& extends(after@, before@)
            &&& after.count() == before.count() + inner_nodes(t)
        } else {
            r matches Err(e) && e@ == ErrorView::DeserializeErr(no_room()) && after@ == before@
        },
    }
}

/// Reads a document as a value. The values of its parts are inserted into
/// the arena, and the value holds their handles, in the order of the
/// document. Nothing is inserted where the document is read as no value or
/// the arena has no room for all that would be inserted.
pub fn decode(arena: &mut Arena, j: &Json) -> (r: VMResult<Value>)
    ensures
        decoded_as(*old(arena), j@, *final(arena), r),
{
    let count = match measure(j) {
        Some(count) => count,
        None => {
            return Err(VmError::DeserializeErr("unexpected sequence".to_string()));
        },
    };
    let held = arena.len();
    if held as u64 > ARENA_LIMIT || count > ARENA_LIMIT - held as u64 {
        return Err(VmError::DeserializeErr("arena exhausted".to_string()));
    }
    Ok(decode_tree(arena, j))
}

/// The reader of values from documents.
#[derive(Debug, Clone, Copy)]
pub struct ValueVisitor;

impl ValueVisitor {
    /// Reads a document as a value, as `decode` does.
    pub fn visit_seq(&self, arena: &mut Arena, j: &Json) -> (r: VMResult<Value>)
        ensures
            decoded_as(*old(arena), j@, *final(arena), r),
    {
        decode(arena, j)
    }
}

impl Value {
    /// Writes the value as a document, as `encode` does.
    pub fn serialize(&self, arena: &Arena) -> (r: VMResult<Json>)
        ensures
            match encoded(arena@, self@, MAX_DEPTH as nat) {
                Some(j) => r.is_ok() && r.unwrap()@ == j,
                None => r.is_err() && r.unwrap_err()@ == ErrorView::RuntimeErr(
                    not_serializable(),
                ),
            },
    {
        encode(arena, self)
    }

    /// Reads a document as a value, as `decode` does.
    pub fn deserialize(arena: &mut Arena, j: &Json) -> (r: VMResult<Value>)
        ensures
            decoded_as(*old(arena), j@, *final(arena), r),
    {
        decode(arena, j)
    }
}

/// Values survive the wire. Let a value in one store be written as a
/// document, and let the document be read into another store. Then the value
/// read is, down to the last of its parts, the value written: in its store it
/// has the tree that the value written has in its own. It is therefore
/// written as the same document again.
pub proof fn lemma_round_trip(
    store: Map<u64, ValueView>,
    v: ValueView,
    j: JsonView,
    fuel: nat,
    store2: Map<u64, ValueView>,
    v2: ValueView,
)
    requires
        encoded(store, v, fuel) == Some(j),
        tree_of(j).is_some() ==> deep(store2, v2, tree_height(tree_of(j).unwrap())) == tree_of(j),
    ensures
        tree_of(j).is_some(),
        deep(store2, v2, fuel) == deep(store, v, fuel),
        encoded(store2, v2, fuel) == Some(j),
{
    let t = deep(store, v, fuel).unwrap();
    lemma_wire_round_trip(t);
    lemma_deep_height(store, v, fuel);
    lemma_deep_stays(store2, v2, tree_height(t), store2, fuel);
}


/// Writes a value as JSON text.
pub fn to_json_string(arena: &Arena, v: &Value) -> (r: VMResult<String>)
    ensures
        match encoded(arena@, v@, MAX_DEPTH as nat) {
            Some(j) => r.is_ok() && r.unwrap()@ == json_text(j),
            None => r.is_err() && r.unwrap_err()@ == ErrorView::RuntimeErr(not_serializable()),
        },
{
    let j = encode(arena, v)?;
    Ok(render(&j))
}

/// Reads a value from JSON text. A text that is no JSON is read as no
/// value.
pub fn from_json_str(arena: &mut Arena, text: &str) -> (r: VMResult<Value>)
    ensures
        match json_tree(text@) {
            None => (r matches Err(e) && e@ == ErrorView::DeserializeErr(malformed()))
                && final(arena)@ == old(arena)@,
            Some(j) => decoded_as(*old(arena), j, *final(arena), r),
        },
{
    match parse(text) {
        None => Err(VmError::DeserializeErr("unexpected sequence".to_string())),
        Some(j) => decode(arena, &j),
    }
}

/// Whether a document is read as a value.
pub fn is_value(j: &Json) -> (r: bool)
    ensures
        r == tree_of(j@).is_some(),
{
    measure(j).is_some()
}

} // verus!
