//! The TOML document adapter.
//!
//! toml_edit parses the text and owns its tree; a verified walk turns
//! that tree into the crate's own [`DocValue`], one level at a time. The
//! model of an opaque toml_edit item is named by [`toml_node`], and the
//! model of what a text parses to by [`toml_doc`]; the trusted items
//! below tie both names to toml_edit's behaviour.
//!
//! Tables, arrays of tables, inline tables and inline arrays all become
//! table and array nodes; integer, string and boolean values become the
//! matching scalar nodes; floats and date-times become untracked scalars.
use vstd::prelude::*;

use crate::adapter::{shallow_matches, Shallow};
use crate::doc::{lemma_entries_of, lemma_nodes_of, DocValue, Node};
use toml_edit::{Item, Value};

verus! {

broadcast use
    vstd::seq::axiom_seq_index_decreases;

#[verifier::external_type_specification]
#[verifier::external_body]
pub struct ExTomlItem(Item);

#[verifier::external_type_specification]
#[verifier::external_body]
pub struct ExTomlValue(Value);

/// The node model of a toml_edit tree. The tree is opaque here; the
/// trusted items below say how toml_edit's behaviour reflects it.
pub uninterp spec fn toml_node(v: Item) -> Node;

/// The node model of a plain toml_edit value, before it is wrapped
/// into an item.
pub uninterp spec fn toml_value_node(w: Value) -> Node;

/// What a text parses to as TOML: the model of its root table, or
/// nothing where the text is not valid TOML.
pub uninterp spec fn toml_doc(text: Seq<char>) -> Option<Node>;

/// Relies on toml_edit::DocumentMut's FromStr: parsing succeeds exactly
/// on valid TOML text, and the tree is a function of the text alone; the
/// document's root item is taken out whole.
#[verifier::external_body]
fn toml_parse(text: &str) -> (r: Option<Item>)
    ensures
        r is Some <==> toml_doc(text@) is Some,
        r is Some ==> toml_node(r->Some_0) == toml_doc(text@)->Some_0,
{
    match text.parse::<toml_edit::DocumentMut>() {
        Ok(mut d) => Some(std::mem::take(d.as_item_mut())),
        Err(_) => None,
    }
}

/// Relies on toml_edit::Item's variants and the IntoIterator impls of
/// Table and ArrayOfTables: one arm per variant, handing children
/// through unchanged and a plain value out for the companion wrapper.
#[verifier::external_body]
fn toml_item_shallow(v: Item) -> (r: Result<Shallow<Item>, Value>)
    ensures
        match r {
            Ok(sh) => shallow_matches(sh, |c: Item| toml_node(c), toml_node(v)),
            Err(w) => toml_value_node(w) == toml_node(v),
        },
{
    match v {
        Item::Table(t) => Ok(Shallow::Table(t.into_iter().collect())),
        Item::ArrayOfTables(a) => Ok(Shallow::Arr(a.into_iter().map(Item::Table).collect())),
        Item::Value(w) => Err(w),
        Item::None => Ok(Shallow::Other),
    }
}

/// Relies on toml_edit::Value's variants and the IntoIterator impls of
/// Array and InlineTable: one arm per tracked variant, handing each
/// child through wrapped back into an Item; floats and date-times fall
/// to the untracked arm.
#[verifier::external_body]
fn toml_value_shallow(w: Value) -> (r: Shallow<Item>)
    ensures
        shallow_matches(r, |c: Item| toml_node(c), toml_value_node(w)),
{
    match w {
        Value::String(s) => Shallow::Str(s.into_value()),
        Value::Integer(i) => Shallow::Int(i.into_value()),
        Value::Boolean(b) => Shallow::Bool(b.into_value()),
        Value::Array(a) => Shallow::Arr(a.into_iter().map(Item::Value).collect()),
        Value::InlineTable(t) => Shallow::Table(t.into_iter().map(|(k, c)| (k, Item::Value(c))).collect()),
        _ => Shallow::Other,
    }
}

/// Converts a toml_edit tree into the crate's own tree, level by level.
#[verifier::loop_isolation(false)]
fn toml_to_doc(v: Item) -> (r: DocValue)
    ensures
        r@ == toml_node(v),
    decreases toml_node(v),
{
    let ghost n = toml_node(v);
    let sh = match toml_item_shallow(v) {
        Ok(sh) => sh,
        Err(w) => toml_value_shallow(w),
    };
    match sh {
        Shallow::Null => DocValue::Null,
        Shallow::Bool(b) => DocValue::Bool(b),
        Shallow::Int(i) => DocValue::Int(i),
        Shallow::Str(s) => DocValue::Str(s),
        Shallow::Arr(vs) => {
            let mut vs = vs;
            let mut out: Vec<DocValue> = Vec::new();
            while vs.len() > 0
                invariant
                    n is Arr,
                    out@.len() + vs@.len() == n->Arr_0.len(),
                    forall|j: int| 0 <= j < out@.len() ==> (#[trigger] out@[j])@ == n->Arr_0[j],
                    forall|j: int|
                        0 <= j < vs@.len() ==> toml_node(#[trigger] vs@[j]) == n->Arr_0[out@.len()
                            + j],
                decreases vs@.len(),
            {
                let child = vs.remove(0);
                proof {
                    assert(toml_node(child) == n->Arr_0[out@.len() as int]);
                    assert(decreases_to!(n => n->Arr_0[out@.len() as int]));
                }
                out.push(toml_to_doc(child));
            }
            proof {
                lemma_nodes_of(out@);
                assert(crate::doc::nodes_of(out@) =~= n->Arr_0);
            }
            DocValue::Arr(out)
        },
        Shallow::Table(es) => {
            let mut es = es;
            let mut out: Vec<(String, DocValue)> = Vec::new();
            while es.len() > 0
                invariant
                    n is Table,
                    out@.len() + es@.len() == n->Table_0.len(),
                    forall|j: int|
                        0 <= j < out@.len() ==> (#[trigger] out@[j]).0@ == n->Table_0[j].0
                            && out@[j].1@ == n->Table_0[j].1,
                    forall|j: int|
                        0 <= j < es@.len() ==> (#[trigger] es@[j]).0@ == n->Table_0[out@.len()
                            + j].0 && toml_node(es@[j].1) == n->Table_0[out@.len() + j].1,
                decreases es@.len(),
            {
                let entry = es.remove(0);
                proof {
                    assert(toml_node(entry.1) == n->Table_0[out@.len() as int].1);
                    assert(decreases_to!(n => n->Table_0[out@.len() as int].1));
                }
                out.push((entry.0, toml_to_doc(entry.1)));
            }
            proof {
                lemma_entries_of(out@);
                assert(crate::doc::entries_of(out@) =~= n->Table_0);
            }
            DocValue::Table(out)
        },
        Shallow::Other => DocValue::Other,
    }
}

/// Parses a text as TOML into the crate's own tree.
pub fn parse_toml(text: &str) -> (r: Option<DocValue>)
    ensures
        r is Some <==> toml_doc(text@) is Some,
        r is Some ==> r->Some_0@ == toml_doc(text@)->Some_0,
{
    match toml_parse(text) {
        None => None,
        Some(v) => Some(toml_to_doc(v)),
    }
}

} // verus!
