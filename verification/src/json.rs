//! The JSON document adapter.
//!
//! serde_json parses the text and owns its tree; a verified walk turns
//! that tree into the crate's own [`DocValue`], one level at a time. The
//! model of an opaque serde_json tree is named by [`json_node`], and the
//! model of what a text parses to by [`json_doc`]; the trusted items
//! below tie both names to serde_json's behaviour.
//!
//! JSON numbers that fit an `i64` become integer nodes; any other number
//! (a float, a larger integer) becomes an untracked scalar.
use vstd::prelude::*;

use crate::adapter::{shallow_matches, Shallow};
use crate::doc::{lemma_entries_of, lemma_nodes_of, DocValue, Node};

verus! {

broadcast use
    vstd::seq::axiom_seq_index_decreases;

#[verifier::external_type_specification]
#[verifier::external_body]
pub struct ExJsonValue(serde_json::Value);

/// The node model of a serde_json tree. The tree is opaque here; the
/// trusted items below say how serde_json's behaviour reflects it.
pub uninterp spec fn json_node(v: serde_json::Value) -> Node;

/// What a text parses to as JSON: the model of its tree, or nothing
/// where the text is not valid JSON.
pub uninterp spec fn json_doc(text: Seq<char>) -> Option<Node>;

/// Relies on serde_json::from_str: parsing succeeds exactly on valid
/// JSON text, and the tree is a function of the text alone.
#[verifier::external_body]
fn json_parse(text: &str) -> (r: Option<serde_json::Value>)
    ensures
        r is Some <==> json_doc(text@) is Some,
        r is Some ==> json_node(r->Some_0) == json_doc(text@)->Some_0,
{
    serde_json::from_str(text).ok()
}

/// Relies on serde_json::Value's variants and Number::as_i64: one arm
/// per variant, handing the children through unchanged.
#[verifier::external_body]
fn json_shallow(v: serde_json::Value) -> (r: Shallow<serde_json::Value>)
    ensures
        shallow_matches(r, |c: serde_json::Value| json_node(c), json_node(v)),
{
    match v {
        serde_json::Value::Null => Shallow::Null,
        serde_json::Value::Bool(b) => Shallow::Bool(b),
        serde_json::Value::Number(n) => match n.as_i64() {
            Some(i) => Shallow::Int(i),
            None => Shallow::Other,
        },
        serde_json::Value::String(s) => Shallow::Str(s),
        serde_json::Value::Array(a) => Shallow::Arr(a),
        serde_json::Value::Object(m) => Shallow::Table(m.into_iter().collect()),
    }
}

/// Converts a serde_json tree into the crate's own tree, level by level.
#[verifier::loop_isolation(false)]
fn json_to_doc(v: serde_json::Value) -> (r: DocValue)
    ensures
        r@ == json_node(v),
    decreases json_node(v),
{
    let ghost n = json_node(v);
    match json_shallow(v) {
        Shallow::Null => DocValue::Null,
        Shallow::Bool(b) => DocValue::Bool(b),
        Shallow::Int(i) => DocValue::Int(i),
        Shallow::Str(s) => DocValue::Str(s),
        Shallow::Arr(vs) => {
            let mut vs = vs;
            let mut out: Vec<DocValue> = Vec::new();
            while vs.len() > 0
                invariant
                    n is Arr,
                    out@.len() + vs@.len() == n->Arr_0.len(),
                    forall|j: int| 0 <= j < out@.len() ==> (#[trigger] out@[j])@ == n->Arr_0[j],
                    forall|j: int|
                        0 <= j < vs@.len() ==> json_node(#[trigger] vs@[j]) == n->Arr_0[out@.len()
                            + j],
                decreases vs@.len(),
            {
                let child = vs.remove(0);
                proof {
                    assert(json_node(child) == n->Arr_0[out@.len() as int]);
                    assert(decreases_to!(n => n->Arr_0[out@.len() as int]));
                }
                out.push(json_to_doc(child));
            }
            proof {
                lemma_nodes_of(out@);
                assert(crate::doc::nodes_of(out@) =~= n->Arr_0);
            }
            DocValue::Arr(out)
        },
        Shallow::Table(es) => {
            let mut es = es;
            let mut out: Vec<(String, DocValue)> = Vec::new();
            while es.len() > 0
                invariant
                    n is Table,
                    out@.len() + es@.len() == n->Table_0.len(),
                    forall|j: int|
                        0 <= j < out@.len() ==> (#[trigger] out@[j]).0@ == n->Table_0[j].0
                            && out@[j].1@ == n->Table_0[j].1,
                    forall|j: int|
                        0 <= j < es@.len() ==> (#[trigger] es@[j]).0@ == n->Table_0[out@.len()
                            + j].0 && json_node(es@[j].1) == n->Table_0[out@.len() + j].1,
                decreases es@.len(),
            {
                let entry = es.remove(0);
                proof {
                    assert(json_node(entry.1) == n->Table_0[out@.len() as int].1);
                    assert(decreases_to!(n => n->Table_0[out@.len() as int].1));
                }
                out.push((entry.0, json_to_doc(entry.1)));
            }
            proof {
                lemma_entries_of(out@);
                assert(crate::doc::entries_of(out@) =~= n->Table_0);
            }
            DocValue::Table(out)
        },
        Shallow::Other => DocValue::Other,
    }
}

/// Parses a text as JSON into the crate's own tree.
pub fn parse_json(text: &str) -> (r: Option<DocValue>)
    ensures
        r is Some <==> json_doc(text@) is Some,
        r is Some ==> r->Some_0@ == json_doc(text@)->Some_0,
{
    match json_parse(text) {
        None => None,
        Some(v) => Some(json_to_doc(v)),
    }
}

} // verus!
