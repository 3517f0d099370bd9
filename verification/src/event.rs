//! Extension event subscriptions: declared subscriptions projected from the
//! manifest, the high-frequency pattern rule, and the extension-owned ledger
//! of subscription handles.

use vstd::prelude::*;
use vstd::string::*;

use crate::models::EventSubscriptionRegistration;
use crate::seqs::{
    clone_opt, first_error, indices, lemma_first_error_ends, lemma_first_error_hit, lemma_first_error_step,
};
use crate::text::{concat3, concat5, is_blank, owned, starts_with, str_eq, trim, trim_str};

verus! {

// ---------------------------------------------------------------------------
// Handles
// ---------------------------------------------------------------------------

/// Opaque handle of a registered EventBus subscription.
#[derive(Debug, Clone, PartialEq, Eq)]
pub struct SubscriptionId {
    value: String,
}

impl SubscriptionId {
    pub fn new(value: &str) -> (r: Self)
        ensures
            r@ == value@,
    {
        SubscriptionId { value: owned(value) }
    }

    pub closed spec fn view(&self) -> Seq<char> {
        self.value@
    }

    pub fn as_str(&self) -> (r: &str)
        ensures
            r@ == self@,
    {
        self.value.as_str()
    }

    pub fn duplicate(&self) -> (r: Self)
        ensures
            r@ == self@,
    {
        SubscriptionId { value: owned(self.value.as_str()) }
    }
}

/// EventBus topic (exact or glob pattern).
#[derive(Debug, Clone, PartialEq, Eq)]
pub struct Topic {
    value: String,
}

impl Topic {
    pub fn new(value: &str) -> (r: Self)
        ensures
            r@ == value@,
    {
        Topic { value: owned(value) }
    }

    pub closed spec fn view(&self) -> Seq<char> {
        self.value@
    }

    pub fn as_str(&self) -> (r: &str)
        ensures
            r@ == self@,
    {
        self.value.as_str()
    }
}

// ---------------------------------------------------------------------------
// Declared subscriptions
// ---------------------------------------------------------------------------

/// A declared subscription as registered on the EventBus: the handler
/// reference of the manifest is not part of it.
#[derive(Debug, Clone, PartialEq, Eq)]
pub struct DeclaredEventSubscription {
    pub id: String,
    pub topic: String,
    pub scope_key: Option<String>,
}

pub open spec fn opt_str_view(o: Option<String>) -> Option<Seq<char>> {
    match o {
        Some(s) => Some(s@),
        None => None,
    }
}

fn copy_opt(o: &Option<String>) -> (r: Option<String>)
    ensures
        opt_str_view(r) == opt_str_view(*o),
{
    match o {
        Some(s) => Some(owned(s.as_str())),
        None => None,
    }
}

/// A manifest declaration projects to its id, topic and scope key.
impl<'a> From<&'a EventSubscriptionRegistration> for DeclaredEventSubscription {
    fn from(registration: &'a EventSubscriptionRegistration) -> (r: Self)
        ensures
            r.id == registration.id,
            r.topic == registration.topic,
            r.scope_key == registration.scope_key,
    {
        DeclaredEventSubscription {
            id: registration.id.clone(),
            topic: registration.topic.clone(),
            scope_key: clone_opt(&registration.scope_key),
        }
    }
}

impl<'a> vstd::std_specs::convert::FromSpecImpl<&'a EventSubscriptionRegistration> for DeclaredEventSubscription {
    open spec fn obeys_from_spec() -> bool {
        true
    }

    open spec fn from_spec(v: &'a EventSubscriptionRegistration) -> Self {
        DeclaredEventSubscription { id: v.id, topic: v.topic, scope_key: v.scope_key }
    }
}

// ---------------------------------------------------------------------------
// High-frequency patterns
// ---------------------------------------------------------------------------

pub open spec fn is_stream_family(kind: Seq<char>) -> bool {
    kind == "agent"@ || kind == "terminal"@ || kind == "task"@
}

/// `p` is `kind` or starts with `kind` followed by `.`, `:` or `/`.
pub open spec fn in_family(p: Seq<char>, kind: Seq<char>) -> bool {
    p == kind || (kind + "."@).is_prefix_of(p) || (kind + ":"@).is_prefix_of(p) || (kind
        + "/"@).is_prefix_of(p)
}

/// Patterns of the `agent`, `terminal` and `task` families (after trimming)
/// must use the stream channel, not the EventBus.
pub open spec fn is_high_frequency(pattern: Seq<char>) -> bool {
    let p = trim(pattern);
    in_family(p, "agent"@) || in_family(p, "terminal"@) || in_family(p, "task"@)
}

fn in_pattern_family(p: &str, kind: &str) -> (r: bool)
    ensures
        r == in_family(p@, kind@),
{
    let dot = concat3(kind, ".", "");
    let colon = concat3(kind, ":", "");
    let slash = concat3(kind, "/", "");
    proof {
        reveal_strlit("");
        assert(dot@ =~= kind@ + "."@);
        assert(colon@ =~= kind@ + ":"@);
        assert(slash@ =~= kind@ + "/"@);
    }
    str_eq(p, kind) || starts_with(p, dot.as_str()) || starts_with(p, colon.as_str())
        || starts_with(p, slash.as_str())
}

pub fn is_high_frequency_pattern(pattern: &str) -> (r: bool)
    ensures
        r == is_high_frequency(pattern@),
{
    let p = trim_str(pattern);
    in_pattern_family(p.as_str(), "agent") || in_pattern_family(p.as_str(), "terminal")
        || in_pattern_family(p.as_str(), "task")
}

/// Why a batch of declared subscriptions is refused before any registration.
#[derive(Debug, Clone, PartialEq)]
pub enum DeclaredSubscriptionError {
    EmptyExtensionId,
    HighFrequencyPattern { topic: String, extension_id: String },
}

impl DeclaredSubscriptionError {
    /// The description of the error, as a value.
    pub open spec fn text(&self) -> Seq<char> {
        match self {
            DeclaredSubscriptionError::EmptyExtensionId => "Extension ID must not be empty"@,
            DeclaredSubscriptionError::HighFrequencyPattern { topic, extension_id } => "Event topic '"@ + topic@
                + "' declared by Extension '"@ + extension_id@
                + "' is a high-frequency stream pattern (agent/terminal/task) and must use the stream channel"@,
        }
    }

    pub fn to_string(&self) -> (r: String)
        ensures
            r@ == self.text(),
    {
        match self {
            DeclaredSubscriptionError::EmptyExtensionId => owned("Extension ID must not be empty"),
            DeclaredSubscriptionError::HighFrequencyPattern { topic, extension_id } => concat5(
                "Event topic '",
                topic.as_str(),
                "' declared by Extension '",
                extension_id.as_str(),
                "' is a high-frequency stream pattern (agent/terminal/task) and must use the stream channel",
            ),
        }
    }
}

pub open spec fn high_frequency_check() -> spec_fn(DeclaredEventSubscription) -> Option<Seq<char>> {
    |d: DeclaredEventSubscription|
        if is_high_frequency(d.topic@) {
            Some(d.topic@)
        } else {
            None
        }
}

/// The batch rule applied before declared subscriptions reach the EventBus:
/// the extension id must not be blank, and no declared topic may be a
/// high-frequency pattern; the first such topic is reported and nothing is
/// registered.
pub fn check_declared_subscriptions(
    extension_id: &str,
    declarations: &Vec<DeclaredEventSubscription>,
) -> (r: Result<(), DeclaredSubscriptionError>)
    ensures
        trim(extension_id@).len() == 0 ==> r == Err::<(), DeclaredSubscriptionError>(
            DeclaredSubscriptionError::EmptyExtensionId,
        ),
        trim(extension_id@).len() != 0 ==> match first_error(declarations@, high_frequency_check()) {
            None => r is Ok,
            Some(t) => r matches Err(DeclaredSubscriptionError::HighFrequencyPattern { topic, extension_id: e })
                && topic@ == t && e@ == extension_id@,
        },
{
    if is_blank(extension_id) {
        return Err(DeclaredSubscriptionError::EmptyExtensionId);
    }
    let ghost f = high_frequency_check();
    proof {
        lemma_first_error_ends(declarations@, f);
    }
    let n = declarations.len();
    for i in 0..n
        invariant
            n == declarations@.len(),
            trim(extension_id@).len() != 0,
            f == high_frequency_check(),
            first_error(declarations@, f) == first_error(declarations@.skip(i as int), f),
    {
        let d = &declarations[i];
        if is_high_frequency_pattern(d.topic.as_str()) {
            proof { lemma_first_error_hit(declarations@, f, i as int); }
            return Err(
                DeclaredSubscriptionError::HighFrequencyPattern {
                    topic: owned(d.topic.as_str()),
                    extension_id: owned(extension_id),
                },
            );
        }
        proof { lemma_first_error_step(declarations@, f, i as int); }
    }
    Ok(())
}

// ---------------------------------------------------------------------------
// Subscription ledger
// ---------------------------------------------------------------------------

/// A subscription the EventBus has registered for an extension.
#[derive(Debug, Clone, PartialEq, Eq)]
pub struct ExtensionSubscriptionRecord {
    pub subscription_id: SubscriptionId,
    pub topic: Topic,
    pub scope_key: Option<String>,
}

/// A record as a value: handle, topic, scope key.
pub type RecordView = (Seq<char>, Seq<char>, Option<Seq<char>>);

impl ExtensionSubscriptionRecord {
    pub open spec fn view(&self) -> RecordView {
        (self.subscription_id@, self.topic@, opt_str_view(self.scope_key))
    }

    pub fn duplicate(&self) -> (r: Self)
        ensures
            r@ == self@,
    {
        ExtensionSubscriptionRecord {
            subscription_id: self.subscription_id.duplicate(),
            topic: Topic::new(self.topic.as_str()),
            scope_key: copy_opt(&self.scope_key),
        }
    }
}

pub open spec fn record_views(rs: Seq<ExtensionSubscriptionRecord>) -> Seq<RecordView> {
    rs.map_values(|r: ExtensionSubscriptionRecord| r@)
}

/// One owned subscription: the owning extension and the record.
#[derive(Debug, Clone)]
struct OwnedRecord {
    extension_id: String,
    record: ExtensionSubscriptionRecord,
}

/// Ledger contents: owned records in registration order.
pub type LedgerView = Seq<(Seq<char>, RecordView)>;

spec fn entries_view(entries: Seq<OwnedRecord>) -> LedgerView {
    entries.map_values(|e: OwnedRecord| (e.extension_id@, e.record@))
}

/// The records `ledger` holds for `ext`, in registration order.
pub open spec fn owned_by(ledger: LedgerView, ext: Seq<char>) -> Seq<RecordView>
    decreases ledger.len(),
{
    if ledger.len() == 0 {
        Seq::empty()
    } else if ledger.last().0 == ext {
        owned_by(ledger.drop_last(), ext).push(ledger.last().1)
    } else {
        owned_by(ledger.drop_last(), ext)
    }
}

/// Whether some extension owns the handle `id`.
pub open spec fn owns_handle(ledger: LedgerView, id: Seq<char>) -> bool {
    exists|i: int| 0 <= i < ledger.len() && (#[trigger] ledger[i]).1.0 == id
}

/// Whether `ext` owns the handle `id`.
pub open spec fn ext_owns_handle(ledger: LedgerView, ext: Seq<char>, id: Seq<char>) -> bool {
    exists|i: int| 0 <= i < ledger.len() && (#[trigger] ledger[i]).0 == ext && ledger[i].1.0 == id
}

/// Whether `ext` owns anything.
pub open spec fn has_owner(ledger: LedgerView, ext: Seq<char>) -> bool {
    exists|i: int| 0 <= i < ledger.len() && (#[trigger] ledger[i]).0 == ext
}

/// No handle is owned twice.
pub open spec fn handles_unique(ledger: LedgerView) -> bool {
    forall|i: int, j: int|
        0 <= i < ledger.len() && 0 <= j < ledger.len() && i != j ==> (#[trigger] ledger[i]).1.0
            != (#[trigger] ledger[j]).1.0
}

/// The ledger without `ext`'s record of handle `id`.
pub open spec fn without(ledger: LedgerView, ext: Seq<char>, id: Seq<char>) -> LedgerView
    decreases ledger.len(),
{
    if ledger.len() == 0 {
        Seq::empty()
    } else if ledger.last().0 == ext && ledger.last().1.0 == id {
        without(ledger.drop_last(), ext, id)
    } else {
        without(ledger.drop_last(), ext, id).push(ledger.last())
    }
}

/// `records` tagged with their owner.
pub open spec fn tagged(ext: Seq<char>, records: Seq<RecordView>) -> LedgerView {
    records.map_values(|r: RecordView| (ext, r))
}

/// Why a batch of records is refused.
#[derive(Debug, Clone, PartialEq, Eq)]
pub enum LedgerError {
    EmptyExtensionId,
    DuplicatedInBatch(String),
    AlreadyOwned(String),
}

impl LedgerError {
    /// The description of the error, as a value.
    pub open spec fn text(&self) -> Seq<char> {
        match self {
            LedgerError::EmptyExtensionId => "Extension ID must not be empty"@,
            LedgerError::DuplicatedInBatch(id) => "Event subscription '"@ + id@
                + "' is duplicated in the registration batch"@,
            LedgerError::AlreadyOwned(id) => "Event subscription '"@ + id@ + "' is already owned"@,
        }
    }

    pub fn to_string(&self) -> (r: String)
        ensures
            r@ == self.text(),
    {
        match self {
            LedgerError::EmptyExtensionId => owned("Extension ID must not be empty"),
            LedgerError::DuplicatedInBatch(id) => concat3(
                "Event subscription '",
                id.as_str(),
                "' is duplicated in the registration batch",
            ),
            LedgerError::AlreadyOwned(id) => concat3(
                "Event subscription '",
                id.as_str(),
                "' is already owned",
            ),
        }
    }
}

/// What a batch breaks, as the handle it names.
#[derive(Debug, Clone, Copy, PartialEq, Eq)]
pub enum BatchFault {
    DuplicatedInBatch,
    AlreadyOwned,
}

pub open spec fn batch_fault_at(
    ledger: LedgerView,
    batch: Seq<RecordView>,
    i: int,
) -> Option<(BatchFault, Seq<char>)> {
    let id = batch[i].0;
    if batch.subrange(0, i).map_values(|r: RecordView| r.0).contains(id) {
        Some((BatchFault::DuplicatedInBatch, id))
    } else if owns_handle(ledger, id) {
        Some((BatchFault::AlreadyOwned, id))
    } else {
        None
    }
}

pub open spec fn batch_fault(ledger: LedgerView, batch: Seq<RecordView>) -> Option<
    (BatchFault, Seq<char>),
> {
    first_error(indices(batch.len()), |i: int| batch_fault_at(ledger, batch, i))
}

pub open spec fn ledger_error_matches(e: LedgerError, f: (BatchFault, Seq<char>)) -> bool {
    match f.0 {
        BatchFault::DuplicatedInBatch => e matches LedgerError::DuplicatedInBatch(id) && id@ == f.1,
        BatchFault::AlreadyOwned => e matches LedgerError::AlreadyOwned(id) && id@ == f.1,
    }
}

/// The extension-owned record of registered subscription handles. It holds
/// only handles the EventBus has registered, each owned by one extension.
#[derive(Debug)]
pub struct ExtensionSubscriptionLedger {
    entries: Vec<OwnedRecord>,
}

impl ExtensionSubscriptionLedger {
    pub closed spec fn view(&self) -> LedgerView {
        entries_view(self.entries@)
    }

    /// Every handle is owned once.
    pub open spec fn wf(&self) -> bool {
        handles_unique(self@)
    }

    pub fn new() -> (r: Self)
        ensures
            r@ == Seq::<(Seq<char>, RecordView)>::empty(),
            r.wf(),
    {
        let r = ExtensionSubscriptionLedger { entries: Vec::new() };
        assert(r@ =~= Seq::<(Seq<char>, RecordView)>::empty());
        r
    }

    fn owns(&self, id: &SubscriptionId) -> (r: bool)
        ensures
            r == owns_handle(self@, id@),
    {
        let n = self.entries.len();
        for i in 0..n
            invariant
                n == self.entries@.len(),
                forall|k: int| 0 <= k < i ==> (#[trigger] self@[k]).1.0 != id@,
        {
            assert(self@[i as int] == (self.entries@[i as int].extension_id@, self.entries@[i as int].record@));
            if str_eq(self.entries[i].record.subscription_id.as_str(), id.as_str()) {
                return true;
            }
        }
        false
    }

    /// Records a batch of registered handles for `extension_id`, all or none.
    pub fn record_many(&mut self, extension_id: &str, records: &Vec<ExtensionSubscriptionRecord>) -> (r:
        Result<(), LedgerError>)
        requires
            old(self).wf(),
        ensures
            final(self).wf(),
            trim(extension_id@).len() == 0 ==> r == Err::<(), LedgerError>(
                LedgerError::EmptyExtensionId,
            ),
            trim(extension_id@).len() != 0 ==> match batch_fault(old(self)@, record_views(records@)) {
                None => r is Ok,
                Some(f) => r matches Err(e) && ledger_error_matches(e, f),
            },
            r is Ok ==> final(self)@ == old(self)@ + tagged(extension_id@, record_views(records@)),
            r is Err ==> final(self)@ == old(self)@,
    {
        if is_blank(extension_id) {
            return Err(LedgerError::EmptyExtensionId);
        }
        let ghost batch = record_views(records@);
        let ghost f = |i: int| batch_fault_at(self@, batch, i);
        let ghost idx = indices(batch.len());
        proof {
            lemma_first_error_ends(idx, f);
        }
        let n = records.len();
        let mut ids: Vec<String> = Vec::new();
        for i in 0..n
            invariant
                n == records@.len(),
                trim(extension_id@).len() != 0,
                self@ == old(self)@,
                self.wf(),
                batch == record_views(records@),
                batch.len() == n,
                idx == indices(batch.len()),
                f == (|i: int| batch_fault_at(self@, batch, i)),
                first_error(idx, f) == first_error(idx.skip(i as int), f),
                crate::seqs::views(ids@) == batch.subrange(0, i as int).map_values(|r: RecordView| r.0),
        {
            assert(idx[i as int] == i);
            let rec = &records[i];
            assert(batch[i as int] == rec@);
            if crate::seqs::contains_text(&ids, rec.subscription_id.as_str()) {
                proof { lemma_first_error_hit(idx, f, i as int); }
                return Err(LedgerError::DuplicatedInBatch(owned(rec.subscription_id.as_str())));
            }
            if self.owns(&rec.subscription_id) {
                proof { lemma_first_error_hit(idx, f, i as int); }
                return Err(LedgerError::AlreadyOwned(owned(rec.subscription_id.as_str())));
            }
            proof { lemma_first_error_step(idx, f, i as int); }
            let ghost before = ids@;
            ids.push(owned(rec.subscription_id.as_str()));
            proof {
                assert(crate::seqs::views(ids@) =~= crate::seqs::views(before).push(rec@.0)) by {
                    assert forall|k: int| 0 <= k < ids@.len() implies #[trigger] crate::seqs::views(ids@)[k]
                        == crate::seqs::views(before).push(rec@.0)[k] by {
                        if k < before.len() {
                            assert(ids@[k] == before[k]);
                        }
                    }
                }
                assert(batch.subrange(0, i + 1).map_values(|r: RecordView| r.0) =~= batch.subrange(
                    0,
                    i as int,
                ).map_values(|r: RecordView| r.0).push(rec@.0));
            }
        }
        proof {
            crate::seqs::lemma_first_error_none(idx, f);
            assert(batch.subrange(0, n as int) =~= batch);
        }
        // The batch is free of duplicates and of handles already owned.
        let ghost start = self@;
        for i in 0..n
            invariant
                n == records@.len(),
                trim(extension_id@).len() != 0,
                start == old(self)@,
                batch == record_views(records@),
                batch.len() == n,
                idx == indices(batch.len()),
                start.len() <= self@.len(),
                self@ == start + tagged(extension_id@, batch.subrange(0, i as int)),
                handles_unique(start),
                forall|k: int| 0 <= k < n ==> (#[trigger] f(idx[k])) is None,
                f == (|i: int| batch_fault_at(start, batch, i)),
                handles_unique(self@),
        {
            let entry = OwnedRecord {
                extension_id: owned(extension_id),
                record: records[i].duplicate(),
            };
            let ghost before = self@;
            self.entries.push(entry);
            proof {
                assert(idx[i as int] == i);
                assert(f(idx[i as int]) is None);
                assert(self@ =~= before.push((extension_id@, batch[i as int])));
                assert(tagged(extension_id@, batch.subrange(0, i + 1)) =~= tagged(
                    extension_id@,
                    batch.subrange(0, i as int),
                ).push((extension_id@, batch[i as int])));
                let id = batch[i as int].0;
                assert(!owns_handle(start, id));
                assert(!batch.subrange(0, i as int).map_values(|r: RecordView| r.0).contains(id));
                assert forall|a: int, b: int|
                    0 <= a < self@.len() && 0 <= b < self@.len() && a != b implies (
                    #[trigger] self@[a]).1.0 != (#[trigger] self@[b]).1.0 by {
                    if a == before.len() || b == before.len() {
                        let o = if a == before.len() { b } else { a };
                        if o < start.len() {
                            assert(start[o] == self@[o]);
                        } else {
                            let k = o - start.len();
                            assert(self@[o] == (extension_id@, batch[k]));
                            assert(batch.subrange(0, i as int).map_values(|r: RecordView| r.0)[k]
                                == batch[k].0);
                        }
                    } else {
                        assert(before[a] == self@[a]);
                        assert(before[b] == self@[b]);
                    }
                }
            }
        }
        proof {
            assert(batch.subrange(0, n as int) =~= batch);
        }
        Ok(())
    }

    /// The records owned by `extension_id`, in registration order.
    pub fn records(&self, extension_id: &str) -> (r: Vec<ExtensionSubscriptionRecord>)
        ensures
            record_views(r@) == owned_by(self@, extension_id@),
    {
        let mut out: Vec<ExtensionSubscriptionRecord> = Vec::new();
        let n = self.entries.len();
        for i in 0..n
            invariant
                n == self.entries@.len(),
                record_views(out@) == owned_by(self@.subrange(0, i as int), extension_id@),
        {
            let e = &self.entries[i];
            proof {
                assert(self@.subrange(0, i + 1).drop_last() =~= self@.subrange(0, i as int));
                assert(self@[i as int] == (e.extension_id@, e.record@));
            }
            if str_eq(e.extension_id.as_str(), extension_id) {
                let ghost before = out@;
                out.push(e.record.duplicate());
                proof {
                    assert(record_views(out@) =~= record_views(before).push(e.record@)) by {
                        assert forall|k: int| 0 <= k < out@.len() implies #[trigger] record_views(out@)[k]
                            == record_views(before).push(e.record@)[k] by {
                            if k < before.len() {
                                assert(out@[k] == before[k]);
                            }
                        }
                    }
                }
            }
        }
        proof {
            assert(self@.subrange(0, n as int) =~= self@);
        }
        out
    }

    /// Drops `extension_id`'s record of `subscription_id`; whether one was there.
    pub fn remove(&mut self, extension_id: &str, subscription_id: &SubscriptionId) -> (r: bool)
        requires
            old(self).wf(),
        ensures
            final(self).wf(),
            r == ext_owns_handle(old(self)@, extension_id@, subscription_id@),
            final(self)@ == without(old(self)@, extension_id@, subscription_id@),
    {
        let ghost start = self@;
        let mut kept: Vec<OwnedRecord> = Vec::new();
        let mut removed = false;
        let n = self.entries.len();
        for i in 0..n
            invariant
                n == self.entries@.len(),
                start == self@,
                entries_view(kept@) == without(
                    start.subrange(0, i as int),
                    extension_id@,
                    subscription_id@,
                ),
                removed == ext_owns_handle(start.subrange(0, i as int), extension_id@, subscription_id@),
        {
            let e = &self.entries[i];
            let ghost pre = start.subrange(0, i as int);
            let ghost post = start.subrange(0, i + 1);
            proof {
                assert(post.drop_last() =~= pre);
                assert(start[i as int] == (e.extension_id@, e.record@));
                assert(post.last() == start[i as int]);
            }
            let hit = str_eq(e.extension_id.as_str(), extension_id) && str_eq(
                e.record.subscription_id.as_str(),
                subscription_id.as_str(),
            );
            if hit {
                removed = true;
                proof {
                    assert(post[i as int] == start[i as int]);
                }
            } else {
                let ghost before = kept@;
                kept.push(OwnedRecord {
                    extension_id: owned(e.extension_id.as_str()),
                    record: e.record.duplicate(),
                });
                proof {
                    assert(entries_view(kept@) =~= entries_view(before).push(start[i as int])) by {
                        assert forall|k: int| 0 <= k < kept@.len() implies #[trigger] entries_view(kept@)[k]
                            == entries_view(before).push(start[i as int])[k] by {
                            if k < before.len() {
                                assert(kept@[k] == before[k]);
                            }
                        }
                    }
                }
            }
            proof {
                if ext_owns_handle(post, extension_id@, subscription_id@) {
                    let k = choose|k: int| 0 <= k < post.len() && (#[trigger] post[k]).0 == extension_id@
                        && post[k].1.0 == subscription_id@;
                    if k < i {
                        assert(pre[k] == post[k]);
                    }
                }
                if removed && !hit {
                    let k = choose|k: int| 0 <= k < pre.len() && (#[trigger] pre[k]).0 == extension_id@
                        && pre[k].1.0 == subscription_id@;
                    assert(post[k] == pre[k]);
                }
                if hit {
                    assert(post[i as int].0 == extension_id@);
                }
            }
        }
        self.entries = kept;
        proof {
            assert(start.subrange(0, n as int) =~= start);
            lemma_without_subsequence(start, extension_id@, subscription_id@);
        }
        removed
    }

    /// Whether `extension_id` owns any subscription.
    pub fn contains_extension(&self, extension_id: &str) -> (r: bool)
        ensures
            r == has_owner(self@, extension_id@),
    {
        let n = self.entries.len();
        for i in 0..n
            invariant
                n == self.entries@.len(),
                forall|k: int| 0 <= k < i ==> (#[trigger] self@[k]).0 != extension_id@,
        {
            assert(self@[i as int] == (self.entries@[i as int].extension_id@, self.entries@[i as int].record@));
            if str_eq(self.entries[i].extension_id.as_str(), extension_id) {
                return true;
            }
        }
        false
    }
}

/// Every entry of `without(l, ..)` is an entry of `l`, so removal keeps
/// handles unique.
pub proof fn lemma_without_subsequence(l: LedgerView, ext: Seq<char>, id: Seq<char>)
    requires
        handles_unique(l),
    ensures
        handles_unique(without(l, ext, id)),
        forall|k: int| 0 <= k < without(l, ext, id).len() ==> exists|j: int| 0 <= j < l.len() && l[j] == #[trigger] without(l, ext, id)[k],
    decreases l.len(),
{
    if l.len() > 0 {
        let p = l.drop_last();
        assert forall|i: int, j: int| 0 <= i < p.len() && 0 <= j < p.len() && i != j implies (#[trigger] p[i]).1.0
            != (#[trigger] p[j]).1.0 by {
            assert(p[i] == l[i] && p[j] == l[j]);
        }
        lemma_without_subsequence(p, ext, id);
        let w = without(l, ext, id);
        let wp = without(p, ext, id);
        if !(l.last().0 == ext && l.last().1.0 == id) {
            assert forall|k: int| 0 <= k < w.len() implies exists|j: int| 0 <= j < l.len() && l[j] == #[trigger] w[k] by {
                if k < wp.len() {
                    let j = choose|j: int| 0 <= j < p.len() && p[j] == #[trigger] wp[k];
                    assert(l[j] == p[j]);
                } else {
                    assert(l[l.len() - 1] == w[k]);
                }
            }
            assert forall|a: int, b: int| 0 <= a < w.len() && 0 <= b < w.len() && a != b implies (#[trigger] w[a]).1.0
                != (#[trigger] w[b]).1.0 by {
                if a == wp.len() || b == wp.len() {
                    let o = if a == wp.len() { b } else { a };
                    let j = choose|j: int| 0 <= j < p.len() && p[j] == #[trigger] wp[o];
                    assert(l[j] == p[j]);
                    assert(l[l.len() - 1] == l.last());
                } else {
                    assert(w[a] == wp[a] && w[b] == wp[b]);
                }
            }
        }
    }
}

/// Recording a batch for `ext` appends exactly that batch to what `ext`
/// owns, and leaves every other extension's records as they were.
pub proof fn law_record_then_records(
    ledger: LedgerView,
    ext: Seq<char>,
    batch: Seq<RecordView>,
    other: Seq<char>,
)
    ensures
        owned_by(ledger + tagged(ext, batch), ext) == owned_by(ledger, ext) + batch,
        other != ext ==> owned_by(ledger + tagged(ext, batch), other) == owned_by(ledger, other),
    decreases batch.len(),
{
    if batch.len() == 0 {
        assert(ledger + tagged(ext, batch) =~= ledger);
        assert(owned_by(ledger, ext) + batch =~= owned_by(ledger, ext));
    } else {
        let front = batch.drop_last();
        law_record_then_records(ledger, ext, front, other);
        let grown = ledger + tagged(ext, batch);
        assert(grown.drop_last() =~= ledger + tagged(ext, front));
        assert(grown.last() == (ext, batch.last()));
        assert(owned_by(ledger, ext) + batch =~= (owned_by(ledger, ext) + front).push(batch.last()));
    }
}

/// After `ext`'s record of `id` is removed, `ext` no longer owns `id`, and
/// what any other extension owns is unchanged.
pub proof fn law_remove_then_not_owned(
    ledger: LedgerView,
    ext: Seq<char>,
    id: Seq<char>,
    other: Seq<char>,
)
    ensures
        !ext_owns_handle(without(ledger, ext, id), ext, id),
        other != ext ==> owned_by(without(ledger, ext, id), other) == owned_by(ledger, other),
    decreases ledger.len(),
{
    if ledger.len() > 0 {
        let p = ledger.drop_last();
        law_remove_then_not_owned(p, ext, id, other);
        let w = without(ledger, ext, id);
        let wp = without(p, ext, id);
        if !(ledger.last().0 == ext && ledger.last().1.0 == id) {
            assert(w == wp.push(ledger.last()));
            assert(w.drop_last() =~= wp);
            if ext_owns_handle(w, ext, id) {
                let k = choose|k: int| 0 <= k < w.len() && (#[trigger] w[k]).0 == ext && w[k].1.0 == id;
                if k < wp.len() {
                    assert(wp[k] == w[k]);
                }
            }
        }
    }
}

/// An extension shows as present exactly when it owns at least one record.
pub proof fn law_contains_iff_records(ledger: LedgerView, ext: Seq<char>)
    ensures
        has_owner(ledger, ext) <==> owned_by(ledger, ext).len() > 0,
    decreases ledger.len(),
{
    if ledger.len() > 0 {
        let p = ledger.drop_last();
        law_contains_iff_records(p, ext);
        if has_owner(ledger, ext) && ledger.last().0 != ext {
            let k = choose|k: int| 0 <= k < ledger.len() && (#[trigger] ledger[k]).0 == ext;
            assert(p[k] == ledger[k]);
        }
        if has_owner(p, ext) {
            let k = choose|k: int| 0 <= k < p.len() && (#[trigger] p[k]).0 == ext;
            assert(ledger[k] == p[k]);
        }
        if ledger.last().0 == ext {
            assert(ledger[ledger.len() - 1].0 == ext);
        }
    }
}

/// Removing `ext`'s record of `id` drops exactly that ownership.
pub proof fn lemma_without_owns(l: LedgerView, ext: Seq<char>, id: Seq<char>, e: Seq<char>, h: Seq<char>)
    ensures
        ext_owns_handle(without(l, ext, id), e, h) <==> (ext_owns_handle(l, e, h) && !(e == ext && h == id)),
    decreases l.len(),
{
    if l.len() > 0 {
        let p = l.drop_last();
        lemma_without_owns(p, ext, id, e, h);
        let w = without(l, ext, id);
        let wp = without(p, ext, id);
        if ext_owns_handle(l, e, h) && !(e == ext && h == id) {
            let k = choose|k: int| 0 <= k < l.len() && (#[trigger] l[k]).0 == e && l[k].1.0 == h;
            if k < p.len() {
                assert(p[k] == l[k]);
                assert(ext_owns_handle(p, e, h));
                let j = choose|j: int| 0 <= j < wp.len() && (#[trigger] wp[j]).0 == e && wp[j].1.0 == h;
                if !(l.last().0 == ext && l.last().1.0 == id) {
                    assert(w[j] == wp[j]);
                }
            } else {
                assert(w[w.len() - 1] == l.last());
            }
        }
        if ext_owns_handle(w, e, h) {
            let k = choose|k: int| 0 <= k < w.len() && (#[trigger] w[k]).0 == e && w[k].1.0 == h;
            if l.last().0 == ext && l.last().1.0 == id {
                assert(ext_owns_handle(wp, e, h));
                let j = choose|j: int| 0 <= j < p.len() && (#[trigger] p[j]).0 == e && p[j].1.0 == h;
                assert(l[j] == p[j]);
            } else if k < wp.len() {
                assert(w[k] == wp[k]);
                assert(ext_owns_handle(wp, e, h));
                let j = choose|j: int| 0 <= j < p.len() && (#[trigger] p[j]).0 == e && p[j].1.0 == h;
                assert(l[j] == p[j]);
            } else {
                assert(l[l.len() - 1] == l.last());
            }
        }
    }
}

/// A handle `ext` owns appears among the records of `ext`.
pub proof fn lemma_owned_record(l: LedgerView, ext: Seq<char>, id: Seq<char>)
    requires
        ext_owns_handle(l, ext, id),
    ensures
        exists|k: int| 0 <= k < owned_by(l, ext).len() && (#[trigger] owned_by(l, ext)[k]).0 == id,
    decreases l.len(),
{
    let p = l.drop_last();
    let o = owned_by(l, ext);
    let k = choose|k: int| 0 <= k < l.len() && (#[trigger] l[k]).0 == ext && l[k].1.0 == id;
    if k == l.len() - 1 {
        assert(o[o.len() - 1].0 == id);
    } else {
        assert(p[k] == l[k]);
        lemma_owned_record(p, ext, id);
        let j = choose|j: int| 0 <= j < owned_by(p, ext).len() && (#[trigger] owned_by(p, ext)[j]).0 == id;
        if l.last().0 == ext {
            assert(o[j] == owned_by(p, ext)[j]);
        }
    }
}

impl Default for ExtensionSubscriptionLedger {
    fn default() -> (r: Self)
        ensures
            r@ == Seq::<(Seq<char>, RecordView)>::empty(),
            r.wf(),
    {
        ExtensionSubscriptionLedger::new()
    }
}

} // verus!
