//! The in-memory document model.
//!
//! A parsed configuration document, whatever its on-disk format, is held as
//! a [`DocValue`]: a tree of tables, arrays and scalars. Scalars a
//! configuration structure cannot be built from (floating-point numbers,
//! dates) are collapsed into [`DocValue::Other`]; they can be carried
//! through a document but never deserialized.
//!
//! The mathematical model of a `DocValue` is a [`Node`], reached through
//! the `View` impl.
use vstd::prelude::*;

verus! {

broadcast use
    vstd::std_specs::vec::axiom_vec_decreases_to_view,
    vstd::seq::axiom_seq_index_decreases,
    vstd::seq::axiom_seq_subrange_decreases;

/// The mathematical model of a document tree.
pub enum Node {
    Null,
    Bool(bool),
    Int(int),
    Str(Seq<char>),
    Arr(Seq<Node>),
    Table(Seq<(Seq<char>, Node)>),
    /// A scalar the model does not track (a float, a date).
    Other,
}

/// A parsed document tree, detached from any parser's own representation.
pub enum DocValue {
    Null,
    Bool(bool),
    Int(i64),
    Str(String),
    Arr(Vec<DocValue>),
    Table(Vec<(String, DocValue)>),
    /// A scalar the model does not track (a float, a date).
    Other,
}

/// The model of a document tree: scalars become their spec values, a table
/// becomes the sequence of its entries in document order.
pub open spec fn node_of(d: DocValue) -> Node
    decreases d,
{
    match d {
        DocValue::Null => Node::Null,
        DocValue::Bool(b) => Node::Bool(b),
        DocValue::Int(i) => Node::Int(i as int),
        DocValue::Str(s) => Node::Str(s@),
        DocValue::Arr(vs) => Node::Arr(nodes_of(vs@)),
        DocValue::Table(es) => Node::Table(entries_of(es@)),
        DocValue::Other => Node::Other,
    }
}

/// The models of the elements of an array, in order.
pub open spec fn nodes_of(vs: Seq<DocValue>) -> Seq<Node>
    decreases vs,
{
    if vs.len() == 0 {
        Seq::empty()
    } else {
        nodes_of(vs.drop_last()).push(node_of(vs.last()))
    }
}

/// The models of the entries of a table, in document order.
pub open spec fn entries_of(es: Seq<(String, DocValue)>) -> Seq<(Seq<char>, Node)>
    decreases es,
{
    if es.len() == 0 {
        Seq::empty()
    } else {
        entries_of(es.drop_last()).push((es.last().0@, node_of(es.last().1)))
    }
}

/// `nodes_of` maps the element models pointwise.
pub broadcast proof fn lemma_nodes_of(vs: Seq<DocValue>)
    ensures
        (#[trigger] nodes_of(vs)).len() == vs.len(),
        forall|i: int| 0 <= i < vs.len() ==> nodes_of(vs)[i] == node_of(vs[i]),
    decreases vs.len(),
{
    if vs.len() > 0 {
        lemma_nodes_of(vs.drop_last());
    }
}

/// `entries_of` maps the entry models pointwise.
pub broadcast proof fn lemma_entries_of(es: Seq<(String, DocValue)>)
    ensures
        (#[trigger] entries_of(es)).len() == es.len(),
        forall|i: int|
            0 <= i < es.len() ==> entries_of(es)[i] == (es[i].0@, node_of(es[i].1)),
    decreases es.len(),
{
    if es.len() > 0 {
        lemma_entries_of(es.drop_last());
    }
}

impl View for DocValue {
    type V = Node;

    open spec fn view(&self) -> Node {
        node_of(*self)
    }
}

/// Looks a key up among table entries; the first entry with that key wins.
pub open spec fn table_lookup(es: Seq<(Seq<char>, Node)>, key: Seq<char>) -> Option<Node>
    decreases es.len(),
{
    if es.len() == 0 {
        None
    } else if es[0].0 == key {
        Some(es[0].1)
    } else {
        table_lookup(es.drop_first(), key)
    }
}

/// A key lookup on a node: defined on tables only, `None` anywhere else.
pub open spec fn node_get(n: Node, key: Seq<char>) -> Option<Node> {
    match n {
        Node::Table(es) => table_lookup(es, key),
        _ => None,
    }
}

/// String equality, decided character by character.
pub fn str_eq(a: &str, b: &str) -> (r: bool)
    ensures
        r == (a@ == b@),
{
    let alen = a.unicode_len();
    let blen = b.unicode_len();
    if alen != blen {
        return false;
    }
    let mut i: usize = 0;
    while i < alen
        invariant
            alen == a@.len(),
            alen == b@.len(),
            i <= alen,
            forall|j: int| 0 <= j < i ==> a@[j] == b@[j],
        decreases alen - i,
    {
        if a.get_char(i) != b.get_char(i) {
            return false;
        }
        i = i + 1;
    }
    proof {
        assert(a@ =~= b@);
    }
    true
}

/// Skipping entries whose key misses leaves the lookup's result unchanged.
proof fn lemma_table_lookup_skip(es: Seq<(Seq<char>, Node)>, key: Seq<char>, i: int)
    requires
        0 <= i <= es.len(),
        forall|j: int| 0 <= j < i ==> es[j].0 != key,
    ensures
        table_lookup(es, key) == table_lookup(es.skip(i), key),
    decreases i,
{
    if i > 0 {
        lemma_table_lookup_skip(es.drop_first(), key, i - 1);
        assert(es.drop_first().skip(i - 1) =~= es.skip(i));
    } else {
        assert(es.skip(0) =~= es);
    }
}

impl DocValue {
    /// Key lookup on a table node; `None` on a missing key or on any
    /// node that is not a table.
    pub fn get<'a>(&'a self, key: &str) -> (r: Option<&'a DocValue>)
        ensures
            match r {
                Some(v) => node_get(self@, key@) == Some(v@),
                None => node_get(self@, key@) is None,
            },
    {
        match self {
            DocValue::Table(es) => {
                let n = es.len();
                let mut i: usize = 0;
                while i < n
                    invariant
                        n == es@.len(),
                        i <= n,
                        self@ == Node::Table(entries_of(es@)),
                        forall|j: int| 0 <= j < i ==> es@[j].0@ != key@,
                    decreases n - i,
                {
                    if str_eq(es[i].0.as_str(), key) {
                        proof {
                            lemma_entries_of(es@);
                            let ents = entries_of(es@);
                            lemma_table_lookup_skip(ents, key@, i as int);
                            assert(ents.skip(i as int)[0] == ents[i as int]);
                            assert(table_lookup(ents, key@) == Some(ents[i as int].1));
                        }
                        return Some(&es[i].1);
                    }
                    i = i + 1;
                }
                proof {
                    lemma_entries_of(es@);
                    let ents = entries_of(es@);
                    lemma_table_lookup_skip(ents, key@, n as int);
                    assert(ents.skip(n as int).len() == 0);
                }
                None
            },
            _ => None,
        }
    }

    /// A detached copy of the tree, independent of the original's storage.
    pub fn deep_clone(&self) -> (r: DocValue)
        ensures
            r@ == self@,
        decreases self,
    {
        broadcast use lemma_nodes_of, lemma_entries_of;

        match self {
            DocValue::Null => DocValue::Null,
            DocValue::Bool(b) => DocValue::Bool(*b),
            DocValue::Int(i) => DocValue::Int(*i),
            DocValue::Str(s) => DocValue::Str(s.clone()),
            DocValue::Arr(vs) => {
                let n = vs.len();
                let mut out: Vec<DocValue> = Vec::new();
                let mut i: usize = 0;
                while i < n
                    invariant
                        n == vs@.len(),
                        i <= n,
                        out@.len() == i,
                        *self == DocValue::Arr(*vs),
                        forall|j: int| 0 <= j < i ==> out@[j]@ == vs@[j]@,
                    decreases n - i,
                {
                    proof {
                        assert((*self)->Arr_0 == *vs);
                        assert(decreases_to!(*self => (*self)->Arr_0@[i as int]));
                    }
                    out.push(vs[i].deep_clone());
                    i = i + 1;
                }
                proof {
                    lemma_nodes_of(out@);
                    lemma_nodes_of(vs@);
                    assert(nodes_of(out@) =~= nodes_of(vs@));
                }
                DocValue::Arr(out)
            },
            DocValue::Table(es) => {
                let n = es.len();
                let mut out: Vec<(String, DocValue)> = Vec::new();
                let mut i: usize = 0;
                while i < n
                    invariant
                        n == es@.len(),
                        i <= n,
                        out@.len() == i,
                        *self == DocValue::Table(*es),
                        forall|j: int|
                            0 <= j < i ==> out@[j].0@ == es@[j].0@ && out@[j].1@ == es@[j].1@,
                    decreases n - i,
                {
                    proof {
                        assert((*self)->Table_0 == *es);
                        assert(decreases_to!(*self => (*self)->Table_0@[i as int].1));
                    }
                    out.push((es[i].0.clone(), es[i].1.deep_clone()));
                    i = i + 1;
                }
                proof {
                    lemma_entries_of(out@);
                    lemma_entries_of(es@);
                    assert(entries_of(out@) =~= entries_of(es@));
                }
                DocValue::Table(out)
            },
            DocValue::Other => DocValue::Other,
        }
    }
}

} // verus!
