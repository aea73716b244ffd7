//! JSON documents, read and written by `serde_json`
//!
//! A parsed document is a [`serde_json::Value`], whose content is modelled as a
//! [`Tree`]. This module opens a value one level at a time and builds one up again;
//! what the levels mean is decided by the callers.

use vstd::prelude::*;

verus! {

/// The content of a JSON value
///
/// A number that is not an unsigned 64-bit integer is only known to be a number.
pub enum Tree {
    Null,
    Bool(bool),
    Number(Option<u64>),
    Text(Seq<char>),
    Array(Seq<Tree>),
    Object(Seq<(Seq<char>, Tree)>),
}

/// One level of a JSON value
pub enum Node {
    Null,
    Bool(bool),
    Number(Option<u64>),
    Text(String),
    Array(Vec<serde_json::Value>),
    Object(Vec<(String, serde_json::Value)>),
}

/// An outside type, carried but never looked into
#[verifier::external_type_specification]
#[verifier::external_body]
pub struct ExValue(serde_json::Value);

/// An outside type, carried but never looked into
#[verifier::external_type_specification]
#[verifier::external_body]
pub struct ExJsonError(serde_json::Error);

/// The content of a `serde_json::Value`
pub uninterp spec fn value_tree(value: serde_json::Value) -> Tree;

/// What `serde_json::from_slice` reads from a document, or what it says of bytes that are none
pub uninterp spec fn document(bytes: Seq<u8>) -> Result<Tree, Seq<char>>;

/// The compact text `serde_json::to_vec` writes for a value
pub uninterp spec fn document_text(tree: Tree) -> Seq<u8>;

/// How deep `serde_json` follows nested arrays and objects before it gives up
pub open spec fn max_depth() -> nat {
    127
}

/// Content of each of several values
pub open spec fn trees(values: Seq<serde_json::Value>) -> Seq<Tree> {
    values.map_values(|v: serde_json::Value| value_tree(v))
}

/// Content of each of several members
pub open spec fn members(fields: Seq<(String, serde_json::Value)>) -> Seq<(Seq<char>, Tree)> {
    fields.map_values(|f: (String, serde_json::Value)| (f.0@, value_tree(f.1)))
}

/// Content of an opened level
pub open spec fn node_tree(node: Node) -> Tree {
    match node {
        Node::Null => Tree::Null,
        Node::Bool(b) => Tree::Bool(b),
        Node::Number(n) => Tree::Number(n),
        Node::Text(s) => Tree::Text(s@),
        Node::Array(items) => Tree::Array(trees(items@)),
        Node::Object(fields) => Tree::Object(members(fields@)),
    }
}

/// No member name occurs twice
pub open spec fn distinct_names(fields: Seq<(Seq<char>, Tree)>) -> bool {
    forall|i: int, j: int|
        0 <= i < j < fields.len() ==> #[trigger] fields[i].0 != #[trigger] fields[j].0
}

/// Whether a tree nests at most `depth` levels, with unsigned integers for its numbers and
/// distinct member names
pub open spec fn is_plain(tree: Tree, depth: nat) -> bool
    decreases depth,
{
    match tree {
        Tree::Number(n) => n is Some,
        Tree::Array(items) => depth > 0 && forall|i: int|
            0 <= i < items.len() ==> is_plain(#[trigger] items[i], (depth - 1) as nat),
        Tree::Object(fields) => depth > 0 && distinct_names(fields) && forall|i: int|
            0 <= i < fields.len() ==> is_plain((#[trigger] fields[i]).1, (depth - 1) as nat),
        _ => true,
    }
}

/// The first member of a given name
pub open spec fn member(fields: Seq<(Seq<char>, Tree)>, name: Seq<char>) -> Option<Tree>
    decreases fields.len(),
{
    if fields.len() == 0 {
        None
    } else if fields[0].0 == name {
        Some(fields[0].1)
    } else {
        member(fields.drop_first(), name)
    }
}

/// Read a document with `serde_json::from_slice`
///
/// Claims that the outcome named `document` depends on the bytes alone: the content of a value,
/// or the text that the error displays.
#[verifier::external_body]
pub(crate) fn parse(bytes: &[u8]) -> (result: Result<serde_json::Value, String>)
    ensures
        match result {
            Ok(value) => document(bytes@) == Ok::<Tree, Seq<char>>(value_tree(value)),
            Err(trouble) => document(bytes@) == Err::<Tree, Seq<char>>(trouble@),
        },
{
    match serde_json::from_slice(bytes) {
        Ok(value) => Ok(value),
        Err(error) => Err(error.to_string()),
    }
}

/// Tell the variants of a `serde_json::Value` apart
///
/// Claims that the level that comes out has the content of the value, with a number taken
/// by `Number::as_u64` and the members of a `serde_json::Map` in its own order, and that a
/// `Map` holds no name twice.
#[verifier::external_body]
pub(crate) fn open(value: serde_json::Value) -> (node: Node)
    ensures
        node_tree(node) == value_tree(value),
        node matches Node::Object(fields) ==> distinct_names(members(fields@)),
{
    match value {
        serde_json::Value::Null => Node::Null,
        serde_json::Value::Bool(b) => Node::Bool(b),
        serde_json::Value::Number(n) => Node::Number(n.as_u64()),
        serde_json::Value::String(s) => Node::Text(s),
        serde_json::Value::Array(items) => Node::Array(items),
        serde_json::Value::Object(fields) => Node::Object(fields.into_iter().collect()),
    }
}

/// A boolean, by `serde_json::Value::from`
///
/// Claims that the value holds that boolean.
#[verifier::external_body]
pub(crate) fn boolean(b: bool) -> (value: serde_json::Value)
    ensures
        value_tree(value) == Tree::Bool(b),
{
    serde_json::Value::from(b)
}

/// An unsigned integer, by `serde_json::Value::from`
///
/// Claims that the value is a number that reads back as that integer.
#[verifier::external_body]
pub(crate) fn number(n: u64) -> (value: serde_json::Value)
    ensures
        value_tree(value) == Tree::Number(Some(n)),
{
    serde_json::Value::from(n)
}

/// A string, by `serde_json::Value::from`
///
/// Claims that the value holds that string.
#[verifier::external_body]
pub(crate) fn string(s: String) -> (value: serde_json::Value)
    ensures
        value_tree(value) == Tree::Text(s@),
{
    serde_json::Value::from(s)
}

/// An array, by `serde_json::Value::from`
///
/// Claims that the value holds those items in that order.
#[verifier::external_body]
pub(crate) fn array(items: Vec<serde_json::Value>) -> (value: serde_json::Value)
    ensures
        value_tree(value) == Tree::Array(trees(items@)),
{
    serde_json::Value::from(items)
}

/// An object, collected into a `serde_json::Map`
///
/// Claims that members of distinct names are held in the order they are given, which is
/// what a `Map` does under the `preserve_order` feature.
#[verifier::external_body]
pub(crate) fn object(fields: Vec<(String, serde_json::Value)>) -> (value: serde_json::Value)
    requires
        distinct_names(members(fields@)),
    ensures
        value_tree(value) == Tree::Object(members(fields@)),
{
    serde_json::Value::Object(fields.into_iter().collect())
}

/// Write a document with `serde_json::to_vec`
///
/// Claims that a plain value can always be written, as the text named `document_text`, and
/// that reading that text gives its content back.
#[verifier::external_body]
fn to_vec(value: &serde_json::Value) -> (result: Result<Vec<u8>, serde_json::Error>)
    requires
        is_plain(value_tree(*value), max_depth()),
    ensures
        result is Ok,
        result->Ok_0@ == document_text(value_tree(*value)),
        document(result->Ok_0@) is Ok,
        document(result->Ok_0@)->Ok_0 == value_tree(*value),
{
    serde_json::to_vec(value)
}

/// Write a document
pub(crate) fn write(value: &serde_json::Value) -> (bytes: Option<Vec<u8>>)
    requires
        is_plain(value_tree(*value), max_depth()),
    ensures
        bytes matches Some(bytes) && bytes@ == document_text(value_tree(*value)) && document(bytes@)
            == Ok::<Tree, Seq<char>>(value_tree(*value)),
{
    match to_vec(value) {
        Ok(bytes) => Some(bytes),
        Err(_) => None,
    }
}

/// Removing a member of another name leaves a lookup as it was
proof fn member_after_remove(fields: Seq<(Seq<char>, Tree)>, at: int, name: Seq<char>)
    requires
        0 <= at < fields.len(),
        fields[at].0 != name,
    ensures
        member(fields.remove(at), name) == member(fields, name),
    decreases fields.len(),
{
    if at == 0 {
        assert(fields.remove(0) =~= fields.drop_first());
    } else {
        assert(fields.remove(at)[0] == fields[0]);
        assert(fields.remove(at).drop_first() =~= fields.drop_first().remove(at - 1));
        if fields[0].0 != name {
            member_after_remove(fields.drop_first(), at - 1, name);
        }
    }
}

/// Where a lookup finds its member
pub proof fn member_at(fields: Seq<(Seq<char>, Tree)>, at: int)
    requires
        distinct_names(fields),
        0 <= at < fields.len(),
    ensures
        member(fields, fields[at].0) == Some(fields[at].1),
    decreases fields.len(),
{
    if at > 0 {
        assert(fields[0].0 != fields[at].0);
        let rest = fields.drop_first();
        assert(rest[at - 1] == fields[at]);
        assert forall|i: int, j: int| 0 <= i < j < rest.len() implies #[trigger] rest[i].0
            != #[trigger] rest[j].0 by {
            assert(rest[i] == fields[i + 1] && rest[j] == fields[j + 1]);
        }
        member_at(rest, at - 1);
    }
}

/// A name that no member has is not found
pub proof fn member_absent(fields: Seq<(Seq<char>, Tree)>, name: Seq<char>)
    requires
        forall|i: int| 0 <= i < fields.len() ==> #[trigger] fields[i].0 != name,
    ensures
        member(fields, name) is None,
    decreases fields.len(),
{
    if fields.len() > 0 {
        assert(fields[0].0 != name);
        let rest = fields.drop_first();
        assert forall|i: int| 0 <= i < rest.len() implies #[trigger] rest[i].0 != name by {
            assert(rest[i] == fields[i + 1]);
        }
        member_absent(rest, name);
    }
}

/// Take a member out of an opened object
pub(crate) fn take_member(fields: &mut Vec<(String, serde_json::Value)>, name: &str) -> (value: Option<
    serde_json::Value,
>)
    requires
        distinct_names(members(old(fields)@)),
    ensures
        match value {
            Some(value) => member(members(old(fields)@), name@) == Some(value_tree(value)),
            None => member(members(old(fields)@), name@) is None,
        },
        distinct_names(members(final(fields)@)),
        forall|other: Seq<char>|
            other != name@ ==> #[trigger] member(members(final(fields)@), other) == member(
                members(old(fields)@),
                other,
            ),
{
    let ghost before = members(fields@);
    let mut i: usize = 0;
    while i < fields.len()
        invariant
            i <= fields@.len(),
            members(fields@) == before,
            fields@ == old(fields)@,
            distinct_names(before),
            forall|k: int| 0 <= k < i ==> (#[trigger] before[k]).0 != name@,
        decreases fields.len() - i,
    {
        if text_same(&fields[i].0, name) {
            proof {
                member_at(before, i as int);
                assert forall|other: Seq<char>| other != name@ implies #[trigger] member(
                    before.remove(i as int),
                    other,
                ) == member(before, other) by {
                    member_after_remove(before, i as int, other);
                }
            }
            let field = fields.remove(i);
            proof {
                let after = before.remove(i as int);
                assert(members(fields@) =~= after);
                assert forall|p: int, q: int| 0 <= p < q < after.len() implies #[trigger] after[p].0
                    != #[trigger] after[q].0 by {
                    let p1 = if p < i { p } else { p + 1 };
                    let q1 = if q < i { q } else { q + 1 };
                    assert(after[p] == before[p1] && after[q] == before[q1]);
                }
            }
            return Some(field.1);
        }
        assert(before[i as int].0 == fields@[i as int].0@);
        i = i + 1;
    }
    proof {
        member_absent(before, name@);
    }
    None
}

fn text_same(a: &String, b: &str) -> (equal: bool)
    ensures
        equal == (a@ == b@),
{
    crate::text::same(a.as_str(), b)
}

} // verus!
