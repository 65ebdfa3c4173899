//! The binding registry.
//!
//! A process binds each configuration type once, to one document
//! reference; the registry is the process-wide bookkeeping behind that.
//! Every binding is stored under a caller-chosen key that stands for the
//! bound type, and holds the parsed reference, the format served, and
//! the handle of the latest load attempt. The reload step reads bindings;
//! only the load transition rewrites a binding's handle.
use vstd::prelude::*;

use crate::adapter::FormatKind;
use crate::path::ConfigReference;

verus! {

/// The identity of one load attempt of a document. Successive load
/// attempts of the same location get distinct handles, which is what
/// lets the reload step reject notifications of superseded attempts.
#[derive(Clone, Copy, Debug, PartialEq, Eq, Structural)]
pub struct DocumentHandle {
    pub id: u64,
}

/// One configuration type's binding: where its document lives, which
/// format serves it, and the latest load attempt's handle.
pub struct ConfigBinding {
    pub reference: ConfigReference,
    pub format: FormatKind,
    pub handle: DocumentHandle,
}

/// The model of a binding: its reference parts, format and handle.
pub struct BindingModel {
    pub location: Seq<char>,
    pub sub_path: Option<Seq<char>>,
    pub format: FormatKind,
    pub handle: DocumentHandle,
}

impl View for ConfigBinding {
    type V = BindingModel;

    open spec fn view(&self) -> BindingModel {
        BindingModel {
            location: self.reference.location@,
            sub_path: crate::path::opt_text(self.reference.sub_path),
            format: self.format,
            handle: self.handle,
        }
    }
}

/// Looks a key up among registry entries; keys are unique, so at most
/// one entry can match.
pub open spec fn reg_lookup(s: Seq<(u64, ConfigBinding)>, k: u64) -> Option<ConfigBinding>
    decreases s.len(),
{
    if s.len() == 0 {
        None
    } else if s[0].0 == k {
        Some(s[0].1)
    } else {
        reg_lookup(s.drop_first(), k)
    }
}

/// Whether no two entries share a key.
pub open spec fn distinct_keys(s: Seq<(u64, ConfigBinding)>) -> bool {
    forall|i: int, j: int| 0 <= i < j < s.len() ==> (#[trigger] s[i]).0 != (#[trigger] s[j]).0
}

proof fn lemma_distinct_drop_first(s: Seq<(u64, ConfigBinding)>)
    requires
        s.len() > 0,
        distinct_keys(s),
    ensures
        distinct_keys(s.drop_first()),
{
    assert forall|i: int, j: int|
        0 <= i < j < s.drop_first().len() implies (#[trigger] s.drop_first()[i]).0 != (
    #[trigger] s.drop_first()[j]).0 by {
        assert(s.drop_first()[i] == s[i + 1]);
        assert(s.drop_first()[j] == s[j + 1]);
    }
}

/// A key held by no entry looks up to nothing.
proof fn lemma_reg_lookup_miss(s: Seq<(u64, ConfigBinding)>, k: u64)
    requires
        forall|i: int| 0 <= i < s.len() ==> (#[trigger] s[i]).0 != k,
    ensures
        reg_lookup(s, k) is None,
    decreases s.len(),
{
    if s.len() > 0 {
        assert forall|i: int| 0 <= i < s.drop_first().len() implies (#[trigger] s.drop_first()[i]).0
            != k by {
            assert(s.drop_first()[i] == s[i + 1]);
        }
        lemma_reg_lookup_miss(s.drop_first(), k);
    }
}

/// Under distinct keys, the entry at any index is what its key looks
/// up to.
proof fn lemma_reg_lookup_at(s: Seq<(u64, ConfigBinding)>, i: int)
    requires
        distinct_keys(s),
        0 <= i < s.len(),
    ensures
        reg_lookup(s, s[i].0) == Some(s[i].1),
    decreases s.len(),
{
    if i > 0 {
        lemma_distinct_drop_first(s);
        assert(s.drop_first()[i - 1] == s[i]);
        lemma_reg_lookup_at(s.drop_first(), i - 1);
    }
}

/// Appending an entry under a fresh key adds exactly that association.
proof fn lemma_reg_lookup_push(s: Seq<(u64, ConfigBinding)>, e: (u64, ConfigBinding), k2: u64)
    ensures
        reg_lookup(s.push(e), k2) == if k2 == e.0 && reg_lookup(s, k2) is None {
            Some(e.1)
        } else {
            reg_lookup(s, k2)
        },
    decreases s.len(),
{
    if s.len() == 0 {
        assert(s.push(e).len() == 1);
        assert(s.push(e)[0] == e);
        if k2 == e.0 {
            assert(reg_lookup(s.push(e), k2) == Some(e.1));
        } else {
            assert(s.push(e).drop_first() =~= Seq::<(u64, ConfigBinding)>::empty());
            assert(reg_lookup(s.push(e), k2) == reg_lookup(s.push(e).drop_first(), k2));
            assert(reg_lookup(s.push(e), k2) is None);
        }
    } else {
        assert(s.push(e)[0] == s[0]);
        assert(s.push(e).drop_first() =~= s.drop_first().push(e));
        lemma_reg_lookup_push(s.drop_first(), e, k2);
        if s[0].0 == k2 {
            assert(reg_lookup(s.push(e), k2) == Some(s[0].1));
            assert(reg_lookup(s, k2) == Some(s[0].1));
        } else {
            assert(reg_lookup(s.push(e), k2) == reg_lookup(s.drop_first().push(e), k2));
            assert(reg_lookup(s, k2) == reg_lookup(s.drop_first(), k2));
        }
    }
}

/// Replacing the entry at an index, key kept, rewrites that key's
/// association and no other.
proof fn lemma_reg_lookup_update(
    s: Seq<(u64, ConfigBinding)>,
    i: int,
    e: (u64, ConfigBinding),
    k2: u64,
)
    requires
        distinct_keys(s),
        0 <= i < s.len(),
        s[i].0 == e.0,
    ensures
        reg_lookup(s.update(i, e), k2) == if k2 == e.0 {
            Some(e.1)
        } else {
            reg_lookup(s, k2)
        },
    decreases s.len(),
{
    let t = s.update(i, e);
    assert(t.len() == s.len());
    if i == 0 {
        assert(t[0] == e);
        assert(t.drop_first() =~= s.drop_first());
    } else {
        assert(t[0] == s[0]);
        if k2 == e.0 {
            assert(s[0].0 != e.0);
        }
        lemma_distinct_drop_first(s);
        assert(t.drop_first() =~= s.drop_first().update(i - 1, e));
        assert(s.drop_first()[i - 1] == s[i]);
        lemma_reg_lookup_update(s.drop_first(), i - 1, e, k2);
    }
}

/// The process-wide registry: one binding per bound configuration type,
/// each under the key standing for that type.
pub struct Registry {
    entries: Vec<(u64, ConfigBinding)>,
}

impl Registry {
    /// Well-formed: no two bindings share a key.
    pub closed spec fn wf(&self) -> bool {
        distinct_keys(self.entries@)
    }

    /// The binding a key is associated with, if the key is bound.
    pub closed spec fn spec_get(&self, k: u64) -> Option<ConfigBinding> {
        reg_lookup(self.entries@, k)
    }

    /// An empty registry: nothing bound yet.
    pub fn new() -> (r: Registry)
        ensures
            r.wf(),
            forall|k: u64| r.spec_get(k) is None,
    {
        let r = Registry { entries: Vec::new() };
        proof {
            assert forall|k: u64| r.spec_get(k) is None by {
                lemma_reg_lookup_miss(r.entries@, k);
            }
        }
        r
    }

    /// The index of the entry holding a key, if any.
    fn find(&self, key: u64) -> (r: Option<usize>)
        requires
            self.wf(),
        ensures
            match r {
                Some(i) => i < self.entries@.len() && self.entries@[i as int].0 == key
                    && self.spec_get(key) == Some(self.entries@[i as int].1),
                None => self.spec_get(key) is None,
            },
    {
        let n = self.entries.len();
        let mut i: usize = 0;
        while i < n
            invariant
                n == self.entries@.len(),
                i <= n,
                self.wf(),
                forall|j: int| 0 <= j < i ==> (#[trigger] self.entries@[j]).0 != key,
            decreases n - i,
        {
            if self.entries[i].0 == key {
                proof {
                    lemma_reg_lookup_at(self.entries@, i as int);
                }
                return Some(i);
            }
            i = i + 1;
        }
        proof {
            lemma_reg_lookup_miss(self.entries@, key);
        }
        None
    }

    /// Whether a key is bound.
    pub fn contains(&self, key: u64) -> (r: bool)
        requires
            self.wf(),
        ensures
            r == (self.spec_get(key) is Some),
    {
        self.find(key).is_some()
    }

    /// Binds a key to a binding. A key already bound stays as it was
    /// and the call reports failure: each type is bound exactly once.
    pub fn bind(&mut self, key: u64, binding: ConfigBinding) -> (r: bool)
        requires
            old(self).wf(),
        ensures
            final(self).wf(),
            r == (old(self).spec_get(key) is None),
            final(self).spec_get(key) == if r {
                Some(binding)
            } else {
                old(self).spec_get(key)
            },
            forall|k2: u64| k2 != key ==> final(self).spec_get(k2) == old(self).spec_get(k2),
    {
        match self.find(key) {
            Some(_) => false,
            None => {
                proof {
                    let s = self.entries@;
                    assert forall|j: int| 0 <= j < s.len() implies (#[trigger] s[j]).0 != key by {
                        if s[j].0 == key {
                            lemma_reg_lookup_at(s, j);
                        }
                    }
                    assert forall|i: int, j: int|
                        0 <= i < j < s.push((key, binding)).len() implies (#[trigger] s.push(
                        (key, binding),
                    )[i]).0 != (#[trigger] s.push((key, binding))[j]).0 by {
                        if j < s.len() {
                            assert(s.push((key, binding))[i] == s[i]);
                            assert(s.push((key, binding))[j] == s[j]);
                        } else {
                            assert(s.push((key, binding))[i] == s[i]);
                            assert(s.push((key, binding))[j] == (key, binding));
                        }
                    }
                    assert forall|k2: u64| true implies reg_lookup(s.push((key, binding)), k2)
                        == if k2 == key && reg_lookup(s, k2) is None {
                        Some((key, binding).1)
                    } else {
                        reg_lookup(s, k2)
                    } by {
                        lemma_reg_lookup_push(s, (key, binding), k2);
                    }
                }
                self.entries.push((key, binding));
                true
            },
        }
    }

    /// The binding under a key, if the key is bound.
    pub fn get<'a>(&'a self, key: u64) -> (r: Option<&'a ConfigBinding>)
        requires
            self.wf(),
        ensures
            match r {
                Some(b) => self.spec_get(key) == Some(*b),
                None => self.spec_get(key) is None,
            },
    {
        match self.find(key) {
            Some(i) => Some(&self.entries[i].1),
            None => None,
        }
    }

    /// Records the handle of a new load attempt on a bound key: the
    /// load transition's one write into the registry. An unbound key
    /// changes nothing and the call reports failure.
    pub fn set_handle(&mut self, key: u64, handle: DocumentHandle) -> (r: bool)
        requires
            old(self).wf(),
        ensures
            final(self).wf(),
            r == (old(self).spec_get(key) is Some),
            final(self).spec_get(key) == if r {
                Some(
                    ConfigBinding {
                        handle,
                        ..old(self).spec_get(key)->Some_0
                    },
                )
            } else {
                old(self).spec_get(key)
            },
            forall|k2: u64| k2 != key ==> final(self).spec_get(k2) == old(self).spec_get(k2),
    {
        match self.find(key) {
            None => false,
            Some(i) => {
                let ghost s0 = self.entries@;
                let mut e = self.entries.remove(i);
                e.1.handle = handle;
                self.entries.insert(i, e);
                proof {
                    assert(self.entries@ =~= s0.update(i as int, e));
                    assert forall|i2: int, j2: int|
                        0 <= i2 < j2 < s0.update(i as int, e).len() implies (#[trigger] s0.update(
                        i as int,
                        e,
                    )[i2]).0 != (#[trigger] s0.update(i as int, e)[j2]).0 by {
                        assert(s0.update(i as int, e)[i2].0 == s0[i2].0);
                        assert(s0.update(i as int, e)[j2].0 == s0[j2].0);
                    }
                    assert forall|k2: u64| true implies reg_lookup(s0.update(i as int, e), k2)
                        == if k2 == key {
                        Some(e.1)
                    } else {
                        reg_lookup(s0, k2)
                    } by {
                        lemma_reg_lookup_update(s0, i as int, e, k2);
                    }
                }
                true
            },
        }
    }
}

} // verus!
