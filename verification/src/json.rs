//! JSON documents as trees.
//!
//! The wire formats of values and messages are stated over these trees.
//! Reading a text as a tree and quoting a string are the work of
//! `serde_json`; what it gives is named by [`json_tree`] and
//! [`json_quoted`]. The text of a tree is written here, around the quoted
//! strings.

use serde_json::Value as Outside;
use vstd::prelude::*;
use vstd::string::StringExecFns;

use crate::integer::{decimal_text, Integer};

verus! {

/// A JSON document. A number is kept as its text.
#[derive(Debug, PartialEq, Eq)]
pub enum Json {
    Null,
    Bool(bool),
    Number(String),
    String(String),
    Array(Vec<Json>),
    Object(Vec<Member>),
}

/// A member of a JSON object: a name and a document.
#[derive(Debug, PartialEq, Eq)]
pub struct Member {
    pub name: String,
    pub value: Json,
}

/// What a JSON document is.
pub enum JsonView {
    Null,
    Bool(bool),
    Number(Seq<char>),
    String(Seq<char>),
    Array(Seq<JsonView>),
    Object(Seq<MemberView>),
}

/// What a member of a JSON object is.
pub struct MemberView {
    pub name: Seq<char>,
    pub value: JsonView,
}

/// What the documents of a vector are.
pub open spec fn items_view(items: Seq<Json>) -> Seq<JsonView> {
    Seq::new(items.len(), |i: int| items[i]@)
}

impl View for Json {
    type V = JsonView;

    open spec fn view(&self) -> JsonView
        decreases self,
    {
        match self {
            Json::Null => JsonView::Null,
            Json::Bool(b) => JsonView::Bool(*b),
            Json::Number(n) => JsonView::Number(n@),
            Json::String(s) => JsonView::String(s@),
            Json::Array(items) => JsonView::Array(
                Seq::new(
                    items@.len(),
                    |i: int|
                        if 0 <= i < items@.len() {
                            items@[i].view()
                        } else {
                            JsonView::Null
                        },
                ),
            ),
            Json::Object(fields) => JsonView::Object(
                Seq::new(
                    fields@.len(),
                    |i: int|
                        if 0 <= i < fields@.len() {
                            MemberView { name: fields@[i].name@, value: fields@[i].value.view() }
                        } else {
                            MemberView { name: Seq::empty(), value: JsonView::Null }
                        },
                ),
            ),
        }
    }
}

/// The view of an array is the array of the views of its items.
pub proof fn lemma_array_view(items: Vec<Json>)
    ensures
        Json::Array(items)@ == JsonView::Array(items_view(items@)),
{
    assert(Json::Array(items)@->Array_0 =~= items_view(items@));
}

/// The size of a document: the number of documents in it, itself included.
pub open spec fn json_size(j: JsonView) -> nat
    decreases j,
{
    match j {
        JsonView::Array(items) => 1 + sizes_sum(items, items.len()),
        JsonView::Object(fields) => 1 + fields_sum(fields, fields.len()),
        _ => 1,
    }
}

/// The sum of the sizes of the first `n` documents of a sequence.
pub open spec fn sizes_sum(items: Seq<JsonView>, n: nat) -> nat
    decreases items, n,
{
    if n == 0 || n > items.len() {
        0
    } else {
        sizes_sum(items, (n - 1) as nat) + json_size(items[n - 1])
    }
}

/// The sum of the sizes of the first `n` fields of a sequence.
pub open spec fn fields_sum(fields: Seq<MemberView>, n: nat) -> nat
    decreases fields, n,
{
    if n == 0 || n > fields.len() {
        0
    } else {
        fields_sum(fields, (n - 1) as nat) + json_size(fields[n - 1].value)
    }
}

/// Each of the first `n` documents of a sequence is no larger than the sum
/// of their sizes.
pub proof fn lemma_item_size(items: Seq<JsonView>, n: nat, i: int)
    requires
        0 <= i < n <= items.len(),
    ensures
        json_size(items[i]) <= sizes_sum(items, n),
    decreases n,
{
    if i < n - 1 {
        lemma_item_size(items, (n - 1) as nat, i);
    }
}

/// A document in an array is smaller than the array.
pub proof fn lemma_item_smaller(j: JsonView, i: int)
    requires
        j is Array,
        0 <= i < j->Array_0.len(),
    ensures
        json_size(j->Array_0[i]) < json_size(j),
{
    lemma_item_size(j->Array_0, j->Array_0.len(), i);
}


/// The JSON string literal of a text: the text between quotes, with the
/// characters escaped that JSON asks to escape.
pub uninterp spec fn json_quoted(text: Seq<char>) -> Seq<char>;

/// The document that a JSON text stands for, if it is a JSON text.
pub uninterp spec fn json_tree(text: Seq<char>) -> Option<JsonView>;

/// `serde_json::to_string` on a text: its JSON string literal.
#[verifier::external_body]
fn quote(text: &str) -> (literal: String)
    ensures
        literal@ == json_quoted(text@),
{
    serde_json::to_string(text).unwrap_or_default()
}

/// `serde_json::from_str`: the document that a JSON text stands for, or
/// nothing where the text is no JSON. The document of `serde_json` is taken
/// over variant by variant; a number is kept as the text that `serde_json`
/// prints for it, and what an array or an object holds is read in the same
/// way from the text that `serde_json` prints for it.
#[verifier::external_body]
fn read_document(text: &str) -> (document: Option<Json>)
    ensures
        match document {
            Some(j) => json_tree(text@) == Some(j@),
            None => json_tree(text@).is_none(),
        },
{
    Some(match serde_json::from_str(text).ok()? {
        Outside::Null => Json::Null,
        Outside::Bool(b) => Json::Bool(b),
        Outside::Number(n) => Json::Number(n.to_string()),
        Outside::String(s) => Json::String(s),
        Outside::Array(a) => Json::Array(
            a.iter().map(|v| read_document(&v.to_string())).collect::<Option<_>>()?,
        ),
        Outside::Object(o) => Json::Object(
            o.iter().map(|(k, v)| Some(Member { name: k.clone(), value: read_document(&v.to_string())? }))
                .collect::<Option<_>>()?,
        ),
    })
}

/// Reads a JSON text as a document: `None` where the text is no JSON.
pub fn parse(text: &str) -> (document: Option<Json>)
    ensures
        match document {
            Some(j) => json_tree(text@) == Some(j@),
            None => json_tree(text@).is_none(),
        },
{
    read_document(text)
}

/// The JSON text of a document, without any space between its tokens.
pub open spec fn json_text(j: JsonView) -> Seq<char>
    decreases j,
{
    match j {
        JsonView::Null => "null"@,
        JsonView::Bool(b) => if b {
            "true"@
        } else {
            "false"@
        },
        JsonView::Number(n) => n,
        JsonView::String(s) => json_quoted(s),
        JsonView::Array(items) => "["@ + items_text(items, items.len()) + "]"@,
        JsonView::Object(fields) => "{"@ + fields_text(fields, fields.len()) + "}"@,
    }
}

/// The texts of the first `n` documents of a sequence, with commas between
/// them.
pub open spec fn items_text(items: Seq<JsonView>, n: nat) -> Seq<char>
    decreases items, n,
{
    if n == 0 || n > items.len() {
        Seq::empty()
    } else if n == 1 {
        json_text(items[0])
    } else {
        items_text(items, (n - 1) as nat) + ","@ + json_text(items[n - 1])
    }
}

/// The texts of the first `n` fields of a sequence, each a quoted name, a
/// colon and a document, with commas between them.
pub open spec fn fields_text(fields: Seq<MemberView>, n: nat) -> Seq<char>
    decreases fields, n,
{
    if n == 0 || n > fields.len() {
        Seq::empty()
    } else if n == 1 {
        json_quoted(fields[0].name) + ":"@ + json_text(fields[0].value)
    } else {
        fields_text(fields, (n - 1) as nat) + ","@ + json_quoted(fields[n - 1].name) + ":"@
            + json_text(fields[n - 1].value)
    }
}

/// What the fields of a vector are.
pub open spec fn fields_view(fields: Seq<Member>) -> Seq<MemberView> {
    Seq::new(fields.len(), |i: int| MemberView { name: fields[i].name@, value: fields[i].value@ })
}

/// The view of an object is the object of the views of its fields.
pub proof fn lemma_object_view(fields: Vec<Member>)
    ensures
        Json::Object(fields)@ == JsonView::Object(fields_view(fields@)),
{
    let whole = Json::Object(fields);
    assert(whole@ is Object);
    let shown = whole@->Object_0;
    assert(shown.len() == fields@.len());
    assert forall|i: int| 0 <= i < shown.len() implies shown[i] == fields_view(fields@)[i] by {
        assert(shown[i].name == fields@[i].name@);
        assert(shown[i].value == fields@[i].value@);
    }
    assert(shown =~= fields_view(fields@));
}

/// A field of an object is smaller than the object.
pub proof fn lemma_field_smaller(j: JsonView, i: int)
    requires
        j is Object,
        0 <= i < j->Object_0.len(),
    ensures
        json_size(j->Object_0[i].value) < json_size(j),
{
    lemma_field_size(j->Object_0, j->Object_0.len(), i);
}

pub proof fn lemma_field_size(fields: Seq<MemberView>, n: nat, i: int)
    requires
        0 <= i < n <= fields.len(),
    ensures
        json_size(fields[i].value) <= fields_sum(fields, n),
    decreases n,
{
    if i < n - 1 {
        lemma_field_size(fields, (n - 1) as nat, i);
    }
}

/// Appends the JSON text of a document to a text.
fn render_into(j: &Json, out: &mut String)
    ensures
        final(out)@ == old(out)@ + json_text(j@),
    decreases json_size(j@),
{
    match j {
        Json::Null => {
            out.append("null");
        },
        Json::Bool(b) => {
            if *b {
                out.append("true");
            } else {
                out.append("false");
            }
        },
        Json::Number(n) => {
            out.append(n.as_str());
        },
        Json::String(s) => {
            let literal = quote(s.as_str());
            out.append(literal.as_str());
        },
        Json::Array(items) => {
            proof {
                lemma_array_view(*items);
            }
            out.append("[");
            let ghost opened = out@;
            let mut i: usize = 0;
            assert(opened + items_text(items_view(items@), 0) =~= opened);
            while i < items.len()
                invariant
                    i <= items.len(),
                    j@ == JsonView::Array(items_view(items@)),
                    out@ == opened + items_text(items_view(items@), i as nat),
                decreases items.len() - i,
            {
                let ghost before = out@;
                if i > 0 {
                    out.append(",");
                }
                proof {
                    lemma_item_smaller(j@, i as int);
                }
                render_into(&items[i], out);
                i = i + 1;
                assert(out@ =~= opened + items_text(items_view(items@), i as nat));
            }
            out.append("]");
            assert(out@ =~= old(out)@ + json_text(j@));
        },
        Json::Object(fields) => {
            proof {
                lemma_object_view(*fields);
            }
            out.append("{");
            let ghost opened = out@;
            let mut i: usize = 0;
            assert(opened + fields_text(fields_view(fields@), 0) =~= opened);
            while i < fields.len()
                invariant
                    i <= fields.len(),
                    j@ == JsonView::Object(fields_view(fields@)),
                    out@ == opened + fields_text(fields_view(fields@), i as nat),
                decreases fields.len() - i,
            {
                if i > 0 {
                    out.append(",");
                }
                let name = quote(fields[i].name.as_str());
                out.append(name.as_str());
                out.append(":");
                proof {
                    lemma_field_smaller(j@, i as int);
                }
                render_into(&fields[i].value, out);
                i = i + 1;
                assert(out@ =~= opened + fields_text(fields_view(fields@), i as nat));
            }
            out.append("}");
            assert(out@ =~= old(out)@ + json_text(j@));
        },
    }
}

/// The JSON text of a document.
pub fn render(j: &Json) -> (text: String)
    ensures
        text@ == json_text(j@),
{
    let mut text = String::new();
    render_into(j, &mut text);
    assert(Seq::<char>::empty() + json_text(j@) =~= json_text(j@));
    text
}


/// A copy of a document.
pub fn duplicate(j: &Json) -> (r: Json)
    ensures
        r@ == j@,
    decreases json_size(j@),
{
    match j {
        Json::Null => Json::Null,
        Json::Bool(b) => Json::Bool(*b),
        Json::Number(n) => Json::Number(n.clone()),
        Json::String(s) => Json::String(s.clone()),
        Json::Array(items) => {
            proof {
                lemma_array_view(*items);
            }
            let mut copy: Vec<Json> = Vec::new();
            let mut i: usize = 0;
            while i < items.len()
                invariant
                    i <= items.len(),
                    j@ == JsonView::Array(items_view(items@)),
                    copy@.len() == i,
                    forall|k: int| 0 <= k < i ==> copy@[k]@ == items@[k]@,
                decreases items.len() - i,
            {
                proof {
                    lemma_item_smaller(j@, i as int);
                }
                copy.push(duplicate(&items[i]));
                i = i + 1;
            }
            proof {
                lemma_array_view(copy);
                assert(items_view(copy@) =~= items_view(items@));
            }
            Json::Array(copy)
        },
        Json::Object(fields) => {
            proof {
                lemma_object_view(*fields);
            }
            let mut copy: Vec<Member> = Vec::new();
            let mut i: usize = 0;
            while i < fields.len()
                invariant
                    i <= fields.len(),
                    j@ == JsonView::Object(fields_view(fields@)),
                    copy@.len() == i,
                    forall|k: int|
                        0 <= k < i ==> copy@[k].name@ == fields@[k].name@ && copy@[k].value@
                            == fields@[k].value@,
                decreases fields.len() - i,
            {
                proof {
                    lemma_field_smaller(j@, i as int);
                }
                copy.push(Member { name: fields[i].name.clone(), value: duplicate(&fields[i].value) });
                i = i + 1;
            }
            proof {
                lemma_object_view(copy);
                assert(fields_view(copy@) =~= fields_view(fields@));
            }
            Json::Object(copy)
        },
    }
}

/// The document of the first member with the given name, from index
/// `start` on.
pub open spec fn member_from(fields: Seq<MemberView>, name: Seq<char>, start: nat) -> Option<
    JsonView,
>
    decreases fields.len() - start,
{
    if start >= fields.len() {
        None
    } else if fields[start as int].name == name {
        Some(fields[start as int].value)
    } else {
        member_from(fields, name, start + 1)
    }
}

/// The document of the first member of an object with the given name;
/// nothing for a document that is no object or has no such member.
pub open spec fn member_of(j: JsonView, name: Seq<char>) -> Option<JsonView> {
    match j {
        JsonView::Object(fields) => member_from(fields, name, 0),
        _ => None,
    }
}

/// The first member of an object with the given name.
pub fn member<'a>(j: &'a Json, name: &str) -> (r: Option<&'a Json>)
    ensures
        match member_of(j@, name@) {
            Some(found) => r.is_some() && r.unwrap()@ == found,
            None => r.is_none(),
        },
{
    match j {
        Json::Object(fields) => {
            proof {
                lemma_object_view(*fields);
            }
            let mut i: usize = 0;
            while i < fields.len()
                invariant
                    i <= fields.len(),
                    j@ == JsonView::Object(fields_view(fields@)),
                    member_of(j@, name@) == member_from(fields_view(fields@), name@, i as nat),
                decreases fields.len() - i,
            {
                if crate::codec::same_text(fields[i].name.as_str(), name) {
                    return Some(&fields[i].value);
                }
                i = i + 1;
            }
            None
        },
        _ => None,
    }
}

/// The text of a document that is a string.
pub open spec fn text_of(j: JsonView) -> Option<Seq<char>> {
    match j {
        JsonView::String(s) => Some(s),
        _ => None,
    }
}

/// The text of a document that is a string.
pub fn as_text(j: &Json) -> (r: Option<&String>)
    ensures
        match text_of(j@) {
            Some(s) => r.is_some() && r.unwrap()@ == s,
            None => r.is_none(),
        },
{
    match j {
        Json::String(s) => Some(s),
        _ => None,
    }
}

/// The items of a document that is an array.
pub open spec fn items_of(j: JsonView) -> Option<Seq<JsonView>> {
    match j {
        JsonView::Array(items) => Some(items),
        _ => None,
    }
}

/// The items of a document that is an array.
pub fn as_items(j: &Json) -> (r: Option<&Vec<Json>>)
    ensures
        match items_of(j@) {
            Some(items) => r.is_some() && items_view(r.unwrap()@) == items,
            None => r.is_none(),
        },
{
    match j {
        Json::Array(items) => {
            proof {
                lemma_array_view(*items);
            }
            Some(items)
        },
        _ => None,
    }
}

/// The value of a decimal digit character, if it is one.
pub open spec fn digit_value(c: char) -> Option<u8> {
    if '0' <= c <= '9' {
        Some((c as u8 - '0' as u8) as u8)
    } else {
        None
    }
}

/// The number that a run of decimal digit characters denotes, if the text
/// is one.
pub open spec fn digits_number(text: Seq<char>) -> Option<nat>
    decreases text.len(),
{
    if text.len() == 0 {
        Some(0)
    } else {
        match (digits_number(text.drop_last()), digit_value(text.last())) {
            (Some(high), Some(d)) => Some(high * 10 + d as nat),
            _ => None,
        }
    }
}

/// The machine integer that the text of a JSON number denotes: the text
/// has to be a run of one or more digits whose number fits.
pub open spec fn u64_of(text: Seq<char>) -> Option<u64> {
    match digits_number(text) {
        Some(n) => if text.len() > 0 && n <= u64::MAX {
            Some(n as u64)
        } else {
            None
        },
        None => None,
    }
}

pub proof fn lemma_digits_number_grows(text: Seq<char>, i: int)
    requires
        0 <= i <= text.len(),
        digits_number(text).is_some(),
    ensures
        digits_number(text.take(i)).is_some(),
        digits_number(text.take(i)).unwrap() <= digits_number(text).unwrap(),
    decreases text.len() - i,
{
    if i < text.len() {
        lemma_digits_number_grows(text, i + 1);
        assert(text.take(i + 1).drop_last() =~= text.take(i));
    } else {
        assert(text.take(i) =~= text);
    }
}

pub proof fn lemma_digits_number_fails(text: Seq<char>, i: int)
    requires
        0 <= i <= text.len(),
        digits_number(text.take(i)).is_none(),
    ensures
        digits_number(text).is_none(),
    decreases text.len() - i,
{
    if i < text.len() {
        assert(text.take(i + 1).drop_last() =~= text.take(i));
        lemma_digits_number_fails(text, i + 1);
    } else {
        assert(text.take(i) =~= text);
    }
}

/// Reads the text of a JSON number as a machine integer.
pub fn parse_u64(text: &str) -> (r: Option<u64>)
    ensures
        r == u64_of(text@),
{
    if !text.is_ascii() {
        proof {
            assert(!vstd::utf8::is_ascii_chars(text@));
            let k = choose|k: int|
                0 <= k < text@.len() && !('\0' <= #[trigger] text@[k] <= '\u{7f}');
            assert(text@.take(k + 1).drop_last() =~= text@.take(k));
            assert(digit_value(text@[k]).is_none());
            assert(digits_number(text@.take(k + 1)).is_none());
            lemma_digits_number_fails(text@, k + 1);
        }
        return None;
    }
    let bytes = text.as_bytes();
    proof {
        vstd::string::is_ascii_spec_bytes(text);
    }
    if bytes.len() == 0 {
        return None;
    }
    let mut value: u64 = 0;
    let mut i: usize = 0;
    assert(text@.take(0) =~= Seq::<char>::empty());
    while i < bytes.len()
        invariant
            i <= bytes.len(),
            bytes@.len() == text@.len(),
            forall|k: int| 0 <= k < text@.len() ==> bytes@[k] == text@[k] as u8,
            forall|k: int| 0 <= k < text@.len() ==> '\0' <= #[trigger] text@[k] <= '\u{7f}',
            digits_number(text@.take(i as int)) == Some(value as nat),
        decreases bytes.len() - i,
    {
        let b = bytes[i];
        let ghost c = text@[i as int];
        proof {
            assert(text@.take(i as int + 1).drop_last() =~= text@.take(i as int));
            assert(text@.take(i as int + 1).last() == c);
            assert(b == c as u8);
            assert('\0' <= c <= '\u{7f}');
        }
        if b < 48 || b > 57 {
            proof {
                assert(digit_value(c).is_none());
                lemma_digits_number_fails(text@, i as int + 1);
            }
            return None;
        }
        let digit = (b - 48) as u64;
        assert(digit_value(c) == Some((b - 48) as u8));
        if value > (u64::MAX - digit) / 10 {
            proof {
                assert(digits_number(text@.take(i as int + 1)) == Some(
                    (value * 10 + digit) as nat,
                ));
                if digits_number(text@).is_some() {
                    lemma_digits_number_grows(text@, i as int + 1);
                }
            }
            return None;
        }
        value = value * 10 + digit;
        i = i + 1;
    }
    assert(text@.take(i as int) =~= text@);
    Some(value)
}

/// The document of a machine integer.
pub fn number(n: u64) -> (r: Json)
    ensures
        r@ == JsonView::Number(decimal_text(n as int)),
{
    Json::Number(Integer::from_u64(n).to_decimal())
}


/// The object with the given members.
pub fn object(members: Vec<Member>) -> (r: Json)
    ensures
        r@ == JsonView::Object(fields_view(members@)),
{
    proof {
        lemma_object_view(members);
    }
    Json::Object(members)
}

/// The array of the given documents.
pub fn array(items: Vec<Json>) -> (r: Json)
    ensures
        r@ == JsonView::Array(items_view(items@)),
{
    proof {
        lemma_array_view(items);
    }
    Json::Array(items)
}

/// A member with the given name.
pub fn named(name: &str, value: Json) -> (r: Member)
    ensures
        r.name@ == name@,
        r.value@ == value@,
{
    Member { name: name.to_string(), value }
}

} // verus!
