//! The reload pipeline.
//!
//! Per bound configuration type the pipeline runs a small state machine:
//! unbound until the binding is made, loading until a document first
//! deserializes, live from then on. Every "document changed" notification
//! drives one [`reload_step`]: the notification is dropped unless its
//! handle matches the binding's current handle and its format matches the
//! format the binding serves; then the bound sub-path is cut out of the
//! document and deserialized. Only a fully successful step touches the
//! live value — a missing sub-path or a mismatched shape is absorbed
//! silently, keeping the last good configuration. There is no terminal
//! state and no retry: the next notification is the retry.
use vstd::prelude::*;

use crate::adapter::{
    extract, extract_spec, parse_document, parse_spec, scheme_of, FormatKind, ParseError,
};
use crate::binding::{BindingModel, ConfigBinding, DocumentHandle};
use crate::doc::{DocValue, Node};

verus! {

/// What a change notification reports about a document.
#[derive(Clone, Copy, Debug, PartialEq, Eq, Structural)]
pub enum EventKind {
    /// The document was loaded for the first time.
    Added,
    /// The document's contents changed.
    Modified,
    /// The document and everything it depends on finished loading.
    LoadedWithDependencies,
    /// The document was dropped by the loader; not a change.
    Removed,
}

impl EventKind {
    /// Whether the event announces current document contents.
    pub open spec fn spec_is_change(self) -> bool {
        match self {
            EventKind::Added => true,
            EventKind::Modified => true,
            EventKind::LoadedWithDependencies => true,
            EventKind::Removed => false,
        }
    }

    /// Whether the event announces current document contents.
    #[verifier::when_used_as_spec(spec_is_change)]
    pub fn is_change(self) -> (r: bool)
        ensures
            r == self.spec_is_change(),
    {
        match self {
            EventKind::Added => true,
            EventKind::Modified => true,
            EventKind::LoadedWithDependencies => true,
            EventKind::Removed => false,
        }
    }
}

/// One "document changed" notification: what happened, to which load
/// attempt, in which format, and the document contents now current.
pub struct Notification {
    pub kind: EventKind,
    pub handle: DocumentHandle,
    pub format: FormatKind,
    pub doc: DocValue,
}

/// The model of a notification: the document as its node model.
pub struct NotificationModel {
    pub kind: EventKind,
    pub handle: DocumentHandle,
    pub format: FormatKind,
    pub doc: Node,
}

impl View for Notification {
    type V = NotificationModel;

    open spec fn view(&self) -> NotificationModel {
        NotificationModel {
            kind: self.kind,
            handle: self.handle,
            format: self.format,
            doc: self.doc@,
        }
    }
}

/// A configuration type that deserializes from a document tree by
/// structural field mapping. `from_node` is the mapping's meaning;
/// `from_doc` computes it.
pub trait FromDoc: Sized {
    /// What the type's deserialization makes of a node, if anything.
    spec fn from_node(n: Node) -> Option<Self>;

    /// Deserializes a document tree into the type.
    fn from_doc(d: &DocValue) -> (r: Option<Self>)
        ensures
            r == Self::from_node(d@),
    ;
}

/// What one notification does to the live value: nothing unless the
/// notification reports a change of the binding's own load attempt in
/// the binding's own format and its document yields the bound sub-path
/// and deserializes; then the deserialized value replaces the live one,
/// or becomes it where none existed yet.
pub open spec fn reload_step<T: FromDoc>(
    b: BindingModel,
    live: Option<T>,
    n: NotificationModel,
) -> Option<T> {
    if !n.kind.spec_is_change() {
        live
    } else if n.handle != b.handle {
        live
    } else if n.format != b.format {
        live
    } else {
        match extract_spec(n.doc, b.sub_path, crate::adapter::spec_scheme_of(b.format)) {
            None => live,
            Some(sub) => match T::from_node(sub) {
                None => live,
                Some(v) => Some(v),
            },
        }
    }
}

/// What a batch of notifications does: the steps, folded left to right,
/// so the last notification that passes every check wins.
pub open spec fn reload_fold<T: FromDoc>(
    b: BindingModel,
    live: Option<T>,
    ns: Seq<NotificationModel>,
) -> Option<T>
    decreases ns.len(),
{
    if ns.len() == 0 {
        live
    } else {
        reload_fold(b, reload_step(b, live, ns[0]), ns.drop_first())
    }
}

/// Folding one more notification is stepping after the fold.
pub proof fn lemma_reload_fold_snoc<T: FromDoc>(
    b: BindingModel,
    live: Option<T>,
    ns: Seq<NotificationModel>,
    n: NotificationModel,
)
    ensures
        reload_fold(b, live, ns.push(n)) == reload_step(b, reload_fold(b, live, ns), n),
    decreases ns.len(),
{
    if ns.len() == 0 {
        assert(ns.push(n).len() == 1);
        assert(ns.push(n)[0] == n);
        assert(ns.push(n).drop_first() =~= Seq::<NotificationModel>::empty());
        assert(reload_fold(b, live, ns.push(n)) == reload_fold(
            b,
            reload_step(b, live, n),
            Seq::<NotificationModel>::empty(),
        ));
        assert(reload_fold(b, live, ns) == live);
    } else {
        assert(ns.push(n)[0] == ns[0]);
        assert(ns.push(n).drop_first() =~= ns.drop_first().push(n));
        lemma_reload_fold_snoc(b, reload_step(b, live, ns[0]), ns.drop_first(), n);
        assert(reload_fold(b, live, ns.push(n)) == reload_fold(
            b,
            reload_step(b, live, ns[0]),
            ns.drop_first().push(n),
        ));
        assert(reload_fold(b, live, ns) == reload_fold(
            b,
            reload_step(b, live, ns[0]),
            ns.drop_first(),
        ));
    }
}

/// Whether a notification passes every check of the reload step for a
/// binding: it reports a change of the binding's own load attempt in the
/// binding's own format, and its document yields the bound sub-path and
/// deserializes.
pub open spec fn step_applies<T: FromDoc>(b: BindingModel, n: NotificationModel) -> bool {
    &&& n.kind.spec_is_change()
    &&& n.handle == b.handle
    &&& n.format == b.format
    &&& match extract_spec(n.doc, b.sub_path, crate::adapter::spec_scheme_of(b.format)) {
        Some(sub) => T::from_node(sub) is Some,
        None => false,
    }
}

/// The value a passing notification publishes: its document's bound
/// sub-path, deserialized.
pub open spec fn step_value<T: FromDoc>(b: BindingModel, n: NotificationModel) -> Option<T> {
    match extract_spec(n.doc, b.sub_path, crate::adapter::spec_scheme_of(b.format)) {
        Some(sub) => T::from_node(sub),
        None => None,
    }
}

/// A passing notification publishes exactly its value; one that does
/// not pass leaves the live value alone.
pub proof fn lemma_step_outcome<T: FromDoc>(
    b: BindingModel,
    live: Option<T>,
    n: NotificationModel,
)
    ensures
        step_applies::<T>(b, n) ==> reload_step(b, live, n) == step_value::<T>(b, n),
        !step_applies::<T>(b, n) ==> reload_step(b, live, n) == live,
{
}

/// A batch in which no notification passes leaves the live value alone.
pub proof fn lemma_fold_none_pass<T: FromDoc>(
    b: BindingModel,
    live: Option<T>,
    ns: Seq<NotificationModel>,
)
    requires
        forall|j: int| 0 <= j < ns.len() ==> !step_applies::<T>(b, #[trigger] ns[j]),
    ensures
        reload_fold(b, live, ns) == live,
    decreases ns.len(),
{
    if ns.len() > 0 {
        lemma_step_outcome(b, live, ns[0]);
        assert forall|j: int| 0 <= j < ns.drop_first().len() implies !step_applies::<T>(
            b,
            #[trigger] ns.drop_first()[j],
        ) by {
            assert(ns.drop_first()[j] == ns[j + 1]);
        }
        lemma_fold_none_pass(b, live, ns.drop_first());
    }
}

/// The live value after a batch reflects the last notification in it
/// that passed every check: whatever came before it, and however many
/// failing notifications follow it, its value is what is published.
pub proof fn lemma_fold_last_pass<T: FromDoc>(
    b: BindingModel,
    live: Option<T>,
    ns: Seq<NotificationModel>,
    i: int,
)
    requires
        0 <= i < ns.len(),
        step_applies::<T>(b, ns[i]),
        forall|j: int| i < j < ns.len() ==> !step_applies::<T>(b, #[trigger] ns[j]),
    ensures
        reload_fold(b, live, ns) == step_value::<T>(b, ns[i]),
    decreases ns.len(),
{
    let stepped = reload_step(b, live, ns[0]);
    assert(reload_fold(b, live, ns) == reload_fold(b, stepped, ns.drop_first()));
    if i == 0 {
        lemma_step_outcome(b, live, ns[0]);
        assert forall|j: int| 0 <= j < ns.drop_first().len() implies !step_applies::<T>(
            b,
            #[trigger] ns.drop_first()[j],
        ) by {
            assert(ns.drop_first()[j] == ns[j + 1]);
        }
        lemma_fold_none_pass(b, stepped, ns.drop_first());
    } else {
        assert(ns.drop_first()[i - 1] == ns[i]);
        assert forall|j: int| i - 1 < j < ns.drop_first().len() implies !step_applies::<T>(
            b,
            #[trigger] ns.drop_first()[j],
        ) by {
            assert(ns.drop_first()[j] == ns[j + 1]);
        }
        lemma_fold_last_pass(b, stepped, ns.drop_first(), i - 1);
    }
}

/// Re-delivering a notification changes nothing more: the step is
/// idempotent, so one delivery and two leave the same live value.
pub proof fn lemma_reload_idempotent<T: FromDoc>(
    b: BindingModel,
    live: Option<T>,
    n: NotificationModel,
)
    ensures
        reload_step(b, reload_step(b, live, n), n) == reload_step(b, live, n),
{
}

/// A notification whose handle is not the binding's current handle
/// never touches the live value, whatever state the pipeline is in.
pub proof fn lemma_stale_handle_ignored<T: FromDoc>(
    b: BindingModel,
    live: Option<T>,
    n: NotificationModel,
)
    requires
        n.handle != b.handle,
    ensures
        reload_step(b, live, n) == live,
{
}

/// A notification whose document lacks the bound sub-path leaves an
/// existing live value unchanged and creates none where none existed.
pub proof fn lemma_missing_sub_path_ignored<T: FromDoc>(
    b: BindingModel,
    live: Option<T>,
    n: NotificationModel,
)
    requires
        extract_spec(n.doc, b.sub_path, crate::adapter::spec_scheme_of(b.format)) is None,
    ensures
        reload_step(b, live, n) == live,
{
}

/// Of two notifications delivered in one batch, the later one wins: if
/// the second passes every check and deserializes, the live value after
/// the batch is the second document's value, whatever the first did.
pub proof fn lemma_last_wins<T: FromDoc>(
    b: BindingModel,
    live: Option<T>,
    n1: NotificationModel,
    n2: NotificationModel,
)
    requires
        n2.kind.spec_is_change(),
        n2.handle == b.handle,
        n2.format == b.format,
        extract_spec(n2.doc, b.sub_path, crate::adapter::spec_scheme_of(b.format)) is Some,
        T::from_node(
            extract_spec(n2.doc, b.sub_path, crate::adapter::spec_scheme_of(b.format))->Some_0,
        ) is Some,
    ensures
        reload_fold(b, live, seq![n1, n2]) == T::from_node(
            extract_spec(n2.doc, b.sub_path, crate::adapter::spec_scheme_of(b.format))->Some_0,
        ),
{
    let ns = seq![n1, n2];
    let once = reload_step(b, live, n1);
    assert(ns[0] == n1);
    assert(ns.drop_first() =~= Seq::<NotificationModel>::empty().push(n2));
    assert(reload_fold(b, live, ns) == reload_fold(b, once, ns.drop_first()));
    lemma_reload_fold_snoc(b, once, Seq::<NotificationModel>::empty(), n2);
    assert(reload_fold(b, once, Seq::<NotificationModel>::empty()) == once);
}

/// Applies one notification to the live value.
pub fn process_notification<T: FromDoc>(
    binding: &ConfigBinding,
    live: &mut Option<T>,
    n: &Notification,
)
    ensures
        *final(live) == reload_step(binding@, *old(live), n@),
{
    if !n.kind.is_change() {
        return;
    }
    if n.handle.id != binding.handle.id {
        return;
    }
    if n.format != binding.format {
        return;
    }
    let sub = match extract(&n.doc, &binding.reference.sub_path, scheme_of(binding.format)) {
        Some(sub) => sub,
        None => {
            return;
        },
    };
    match T::from_doc(&sub) {
        Some(v) => {
            *live = Some(v);
        },
        None => {},
    }
}

/// Applies a batch of notifications to the live value, in delivery
/// order.
pub fn process_batch<T: FromDoc>(
    binding: &ConfigBinding,
    live: &mut Option<T>,
    ns: &Vec<Notification>,
)
    ensures
        *final(live) == reload_fold(
            binding@,
            *old(live),
            ns@.map_values(|n: Notification| n@),
        ),
{
    let ghost models = ns@.map_values(|n: Notification| n@);
    let count = ns.len();
    let mut i: usize = 0;
    proof {
        assert(models.take(0) =~= Seq::<NotificationModel>::empty());
    }
    while i < count
        invariant
            count == ns@.len(),
            i <= count,
            models == ns@.map_values(|n: Notification| n@),
            *live == reload_fold(binding@, *old(live), models.take(i as int)),
        decreases count - i,
    {
        process_notification(binding, live, &ns[i]);
        proof {
            assert(models.take(i + 1) =~= models.take(i as int).push(models[i as int]));
            lemma_reload_fold_snoc(binding@, *old(live), models.take(i as int), models[i as int]);
        }
        i = i + 1;
    }
    proof {
        assert(models.take(count as int) =~= models);
    }
}

/// One full reload cycle from raw bytes: parse them under a format,
/// then apply the resulting notification. Bytes that do not parse are
/// reported and change nothing — in particular, a syntactically invalid
/// document never touches the live value.
pub fn apply_document_bytes<T: FromDoc>(
    binding: &ConfigBinding,
    live: &mut Option<T>,
    kind: EventKind,
    handle: DocumentHandle,
    format: FormatKind,
    bytes: &[u8],
) -> (r: Result<(), ParseError>)
    ensures
        match r {
            Ok(_) => parse_spec(bytes@, format) matches Ok(node) && *final(live) == reload_step(
                binding@,
                *old(live),
                NotificationModel { kind, handle, format, doc: node },
            ),
            Err(e) => parse_spec(bytes@, format) == Err::<Node, ParseError>(e) && *final(live)
                == *old(live),
        },
{
    let doc = match parse_document(bytes, format) {
        Ok(doc) => doc,
        Err(e) => {
            return Err(e);
        },
    };
    let n = Notification { kind, handle, format, doc };
    process_notification(binding, live, &n);
    Ok(())
}

} // verus!
