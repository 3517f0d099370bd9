//! The EventBus adapter of extension subscriptions: which extension owns
//! each registered handle, declared subscriptions registered as a batch, and
//! their removal.

use vstd::prelude::*;
use vstd::string::*;

use crate::event::{
    high_frequency_check,
    check_declared_subscriptions, opt_str_view, DeclaredEventSubscription, ExtensionSubscriptionRecord,
    SubscriptionId, Topic,
};
use crate::text::{concat3, concat6, is_blank, owned, str_eq, trim};
use crate::seqs::first_error;

verus! {

/// The kernel EventBus, as the adapter uses it. The handler that turns a
/// kernel event into an extension event is attached by the implementation.
pub trait KernelEventBus {
    fn subscribe(&self, topic: &Topic, scope_key: Option<String>) -> Result<SubscriptionId, String>;

    fn unsubscribe(&self, id: &SubscriptionId) -> Result<(), String>;
}

/// Extension event subscriptions, as the lifecycle uses them: it depends on
/// this port only, never on the EventBus itself.
pub trait EventSubscriptionPort {
    fn subscribe_extension(&mut self, extension_id: &str, topic: String, scope_key: Option<String>) -> Result<
        SubscriptionId,
        String,
    >;

    fn unsubscribe_extension(&mut self, extension_id: &str, subscription_id: &SubscriptionId) -> Result<
        (),
        String,
    >;
}

/// One call the adapter made on its EventBus, with the answer it got: the
/// topic and scope key handed to `subscribe` and the handle it gave back,
/// or the handle handed to `unsubscribe` and whether it was accepted.
pub enum BusCall {
    Subscribe { topic: Seq<char>, scope_key: Option<Seq<char>>, handle: Option<Seq<char>> },
    Unsubscribe { handle: Seq<char>, accepted: bool },
}

/// The accepted subscriptions of `declarations`, in order, with the handles
/// the EventBus gave back.
pub open spec fn subscribe_calls(declarations: Seq<DeclaredEventSubscription>, handles: Seq<Seq<char>>) -> Seq<BusCall> {
    Seq::new(
        declarations.len(),
        |i: int|
            BusCall::Subscribe {
                topic: declarations[i].topic@,
                scope_key: opt_str_view(declarations[i].scope_key),
                handle: Some(handles[i]),
            },
    )
}

/// Withdrawals of `handles`, last first, with whether each was accepted
/// (`accepted[j]` for `handles[j]`).
pub open spec fn withdraw_calls(handles: Seq<Seq<char>>, accepted: Seq<bool>) -> Seq<BusCall> {
    Seq::new(
        handles.len(),
        |p: int| BusCall::Unsubscribe { handle: handles[handles.len() - 1 - p], accepted: accepted[handles.len() - 1 - p] },
    )
}

/// How a batch of declared subscriptions ended when the EventBus refused
/// declaration `k`: the first `k` were subscribed (getting `handles`), the
/// refused one was asked for, then the handles were withdrawn last first
/// (`accepted[j]` for `handles[j]`); the error names the refused topic;
/// every withdrawal that was accepted leaves its handle unowned, every
/// refused one leaves it with the extension, and every other handle keeps
/// its owner.
pub open spec fn refused_at(
    before_calls: Seq<BusCall>,
    after_calls: Seq<BusCall>,
    before_owners: OwnersView,
    after_owners: OwnersView,
    extension_id: Seq<char>,
    declarations: Seq<DeclaredEventSubscription>,
    k: int,
    handles: Seq<Seq<char>>,
    accepted: Seq<bool>,
    message: Seq<char>,
) -> bool {
    &&& 0 <= k < declarations.len()
    &&& handles.len() == k
    &&& accepted.len() == k
    &&& after_calls == before_calls + subscribe_calls(declarations.take(k), handles) + seq![
        BusCall::Subscribe {
            topic: declarations[k].topic@,
            scope_key: opt_str_view(declarations[k].scope_key),
            handle: None,
        },
    ] + withdraw_calls(handles, accepted)
    &&& ("Extension '"@ + extension_id + "' failed to subscribe to event topic '"@ + declarations[k].topic@
        + "': "@).is_prefix_of(message)
    &&& forall|j: int| 0 <= j < k && accepted[j] ==> !has_handle(after_owners, #[trigger] handles[j])
    &&& forall|j: int|
        0 <= j < k && !accepted[j] && (forall|j2: int| 0 <= j2 < k && accepted[j2] ==> handles[j2] != handles[j])
            ==> owns(after_owners, #[trigger] handles[j], extension_id)
    &&& forall|key: Seq<char>, e: Seq<char>|
        owns(before_owners, key, e) && (forall|j: int| 0 <= j < k ==> #[trigger] handles[j] != key) ==> owns(
            after_owners,
            key,
            e,
        )
}

/// The EventBus refused some declaration of the batch, and the batch ended
/// as `refused_at` describes for it.
pub open spec fn batch_refused(
    before_calls: Seq<BusCall>,
    after_calls: Seq<BusCall>,
    before_owners: OwnersView,
    after_owners: OwnersView,
    extension_id: Seq<char>,
    declarations: Seq<DeclaredEventSubscription>,
    message: Seq<char>,
) -> bool {
    exists|k: int, handles: Seq<Seq<char>>, accepted: Seq<bool>|
        #[trigger] refused_at(
            before_calls,
            after_calls,
            before_owners,
            after_owners,
            extension_id,
            declarations,
            k,
            handles,
            accepted,
            message,
        )
}

/// The handles of a list of records, in order.
pub open spec fn record_handles(records: Seq<ExtensionSubscriptionRecord>) -> Seq<Seq<char>> {
    records.map_values(|r: ExtensionSubscriptionRecord| r.subscription_id@)
}

/// Removals of handles, in order, with whether each was accepted.
pub open spec fn unsubscribe_calls(us: Seq<(Seq<char>, bool)>) -> Seq<BusCall> {
    us.map_values(|u: (Seq<char>, bool)| BusCall::Unsubscribe { handle: u.0, accepted: u.1 })
}

/// The start of the error for a handle of `extension_id` whose removal the
/// EventBus refused; the EventBus's own message follows it.
pub open spec fn unsubscribe_error_prefix(extension_id: Seq<char>, handle: Seq<char>) -> Seq<char> {
    "Extension '"@ + extension_id + "' failed to unsubscribe event subscription '"@ + handle + "': "@
}

/// How removing every handle of `extension_id` ended, handle by handle
/// (`removals`, in the order the EventBus was asked, with whether it
/// accepted): each handle the extension owned was handed to `unsubscribe`
/// exactly once and no other handle was; an accepted one is no longer owned,
/// a refused one is still owned by the extension; no other extension's
/// handle changed; the outcome is `None` when every removal was accepted,
/// else the error naming the first refused handle.
pub open spec fn removals_ended(
    before_calls: Seq<BusCall>,
    after_calls: Seq<BusCall>,
    before_owners: OwnersView,
    after_owners: OwnersView,
    extension_id: Seq<char>,
    removals: Seq<(Seq<char>, bool)>,
    outcome: Option<Seq<char>>,
) -> bool {
    &&& after_calls == before_calls + unsubscribe_calls(removals)
    &&& forall|a: int, b: int|
        0 <= a < removals.len() && 0 <= b < removals.len() && a != b ==> (#[trigger] removals[a]).0 != (
        #[trigger] removals[b]).0
    &&& forall|id: Seq<char>|
        owns(before_owners, id, extension_id) <==> exists|k: int| 0 <= k < removals.len() && (#[trigger] removals[k]).0 == id
    &&& forall|k: int| 0 <= k < removals.len() && (#[trigger] removals[k]).1 ==> !has_handle(after_owners, removals[k].0)
    &&& forall|k: int| 0 <= k < removals.len() && !(#[trigger] removals[k]).1 ==> owns(after_owners, removals[k].0, extension_id)
    &&& forall|key: Seq<char>, e: Seq<char>| owns(after_owners, key, e) ==> owns(before_owners, key, e)
    &&& forall|key: Seq<char>, e: Seq<char>|
        owns(before_owners, key, e) && e != extension_id ==> owns(after_owners, key, e)
    &&& outcome is None <==> forall|k: int| 0 <= k < removals.len() ==> (#[trigger] removals[k]).1
    &&& outcome matches Some(m) ==> exists|k: int|
        0 <= k < removals.len() && !(#[trigger] removals[k]).1 && (forall|j: int| 0 <= j < k ==> (#[trigger] removals[j]).1)
            && unsubscribe_error_prefix(extension_id, removals[k].0).is_prefix_of(m)
}

/// Some order of removals ended as `removals_ended` describes.
pub open spec fn removed_all(
    before_calls: Seq<BusCall>,
    after_calls: Seq<BusCall>,
    before_owners: OwnersView,
    after_owners: OwnersView,
    extension_id: Seq<char>,
    outcome: Option<Seq<char>>,
) -> bool {
    exists|removals: Seq<(Seq<char>, bool)>|
        #[trigger] removals_ended(before_calls, after_calls, before_owners, after_owners, extension_id, removals, outcome)
}

/// An owner table as a value: handle and owning extension, per entry.
pub type OwnersView = Seq<(Seq<char>, Seq<char>)>;

/// `ext` owns handle `id` in `s`.
pub open spec fn owns(s: OwnersView, id: Seq<char>, ext: Seq<char>) -> bool {
    exists|i: int| 0 <= i < s.len() && #[trigger] s[i] == (id, ext)
}

/// Some extension owns handle `id` in `s`.
pub open spec fn has_handle(s: OwnersView, id: Seq<char>) -> bool {
    exists|i: int| 0 <= i < s.len() && (#[trigger] s[i]).0 == id
}

/// No handle appears twice.
pub open spec fn ids_distinct(s: OwnersView) -> bool {
    forall|i: int, j: int| 0 <= i < s.len() && 0 <= j < s.len() && i != j ==> (#[trigger] s[i]).0 != (#[trigger] s[j]).0
}

/// `a` and `b` agree on every handle other than `id`.
pub open spec fn agree_except(a: OwnersView, b: OwnersView, id: Seq<char>) -> bool {
    forall|k: Seq<char>, e: Seq<char>| k != id ==> (owns(a, k, e) <==> owns(b, k, e))
}

/// Which extension owns each registered subscription handle.
#[derive(Debug)]
pub struct SubscriptionOwners {
    entries: Vec<(SubscriptionId, String)>,
}

impl SubscriptionOwners {
    pub closed spec fn view(&self) -> OwnersView {
        self.entries@.map_values(|e: (SubscriptionId, String)| (e.0@, e.1@))
    }

    pub open spec fn wf(&self) -> bool {
        ids_distinct(self@)
    }

    pub fn new() -> (r: Self)
        ensures
            r.wf(),
            r@.len() == 0,
    {
        SubscriptionOwners { entries: Vec::new() }
    }

    /// The extension that owns `id`, if any.
    pub fn owner_of(&self, id: &SubscriptionId) -> (r: Option<String>)
        requires
            self.wf(),
        ensures
            match r {
                Some(e) => owns(self@, id@, e@),
                None => !has_handle(self@, id@),
            },
            forall|e: Seq<char>| owns(self@, id@, e) ==> (r matches Some(x) && x@ == e),
    {
        let n = self.entries.len();
        for i in 0..n
            invariant
                n == self@.len(),
                ids_distinct(self@),
                forall|k: int| 0 <= k < i ==> (#[trigger] self@[k]).0 != id@,
        {
            assert(self@[i as int] == (self.entries@[i as int].0@, self.entries@[i as int].1@));
            if str_eq(self.entries[i].0.as_str(), id.as_str()) {
                let e = owned_string(&self.entries[i].1);
                proof {
                    assert forall|x: Seq<char>| owns(self@, id@, x) implies x == e@ by {
                        let j = choose|j: int| 0 <= j < self@.len() && #[trigger] self@[j] == (id@, x);
                        if j != i {
                            assert(self@[j].0 != self@[i as int].0);
                        }
                    }
                }
                return Some(e);
            }
        }
        None
    }

    /// Drops the entry of `id`, if any.
    pub fn remove(&mut self, id: &SubscriptionId)
        requires
            old(self).wf(),
        ensures
            final(self).wf(),
            !has_handle(final(self)@, id@),
            agree_except(final(self)@, old(self)@, id@),
    {
        let ghost before = self@;
        let mut kept: Vec<(SubscriptionId, String)> = Vec::new();
        let n = self.entries.len();
        let mut i: usize = 0;
        while i < n
            invariant
                i <= n,
                n == self@.len(),
                before == self@,
                ids_distinct(before),
                forall|k: int| 0 <= k < kept@.len() ==> (#[trigger] kept@[k]).0@ != id@,
                forall|k: int| #![trigger kept@[k]]
                    0 <= k < kept@.len() ==> exists|j: int| 0 <= j < i && #[trigger] before[j] == (kept@[k].0@, kept@[k].1@),
                forall|j: int|
                    0 <= j < i && (#[trigger] before[j]).0 != id@ ==> exists|k: int| 0 <= k < kept@.len() && (
                    kept@[k].0@, kept@[k].1@) == before[j],
                forall|a: int, b: int| 0 <= a < kept@.len() && 0 <= b < kept@.len() && a != b ==> (#[trigger] kept@[a]).0@ != (#[trigger] kept@[b]).0@,
            decreases n - i,
        {
            let (k, e) = &self.entries[i];
            assert(before[i as int] == (k@, e@));
            if !str_eq(k.as_str(), id.as_str()) {
                let ghost prev = kept@;
                kept.push((k.duplicate(), owned_string(e)));
                proof {
                    assert forall|a: int| #![trigger kept@[a]] 0 <= a < kept@.len() implies exists|j: int| 0 <= j < i + 1 && #[trigger] before[j] == (
                        kept@[a].0@,
                        kept@[a].1@,
                    ) by {
                        if a < prev.len() {
                            assert(kept@[a] == prev[a]);
                        } else {
                            assert(before[i as int] == (kept@[a].0@, kept@[a].1@));
                        }
                    }
                    assert forall|j: int| 0 <= j < i + 1 && (#[trigger] before[j]).0 != id@ implies exists|a: int| 0 <= a < kept@.len() && (
                        kept@[a].0@,
                        kept@[a].1@,
                    ) == before[j] by {
                        if j < i {
                            let a = choose|a: int| 0 <= a < prev.len() && (prev[a].0@, prev[a].1@) == before[j];
                            assert(kept@[a] == prev[a]);
                        } else {
                            assert((kept@[prev.len() as int].0@, kept@[prev.len() as int].1@) == before[j]);
                        }
                    }
                    assert forall|a: int, b: int| 0 <= a < kept@.len() && 0 <= b < kept@.len() && a != b implies (#[trigger] kept@[a]).0@
                        != (#[trigger] kept@[b]).0@ by {
                        if a < prev.len() && b < prev.len() {
                            assert(kept@[a] == prev[a] && kept@[b] == prev[b]);
                        } else if a < prev.len() {
                            assert(kept@[a] == prev[a]);
                            let j = choose|j: int| 0 <= j < i && #[trigger] before[j] == (prev[a].0@, prev[a].1@);
                            assert(before[j].0 != before[i as int].0);
                        } else if b < prev.len() {
                            assert(kept@[b] == prev[b]);
                            let j = choose|j: int| 0 <= j < i && #[trigger] before[j] == (prev[b].0@, prev[b].1@);
                            assert(before[j].0 != before[i as int].0);
                        }
                    }
                }
            } else {
                proof {
                    assert forall|a: int| #![trigger kept@[a]] 0 <= a < kept@.len() implies exists|j: int| 0 <= j < i + 1 && #[trigger] before[j] == (
                        kept@[a].0@,
                        kept@[a].1@,
                    ) by {
                        let j = choose|j: int| 0 <= j < i && #[trigger] before[j] == (kept@[a].0@, kept@[a].1@);
                    }
                }
            }
            i = i + 1;
        }
        self.entries = kept;
        proof {
            assert forall|a: int, b: int| 0 <= a < self@.len() && 0 <= b < self@.len() && a != b implies (#[trigger] self@[a]).0
                != (#[trigger] self@[b]).0 by {
                assert(self@[a] == (kept@[a].0@, kept@[a].1@));
                assert(self@[b] == (kept@[b].0@, kept@[b].1@));
            }
            assert forall|x: int| 0 <= x < self@.len() implies (#[trigger] self@[x]).0 != id@ by {
                assert(self@[x] == (kept@[x].0@, kept@[x].1@));
            }
            assert forall|k: Seq<char>, e: Seq<char>| k != id@ implies (owns(self@, k, e) <==> owns(before, k, e)) by {
                if owns(self@, k, e) {
                    let a = choose|a: int| 0 <= a < self@.len() && #[trigger] self@[a] == (k, e);
                    assert(self@[a] == (kept@[a].0@, kept@[a].1@));
                    let j = choose|j: int| 0 <= j < n && #[trigger] before[j] == (kept@[a].0@, kept@[a].1@);
                }
                if owns(before, k, e) {
                    let j = choose|j: int| 0 <= j < before.len() && #[trigger] before[j] == (k, e);
                    let a = choose|a: int| 0 <= a < kept@.len() && (kept@[a].0@, kept@[a].1@) == before[j];
                    assert(self@[a] == (kept@[a].0@, kept@[a].1@));
                }
            }
        }
    }

    /// Records that `ext` owns `id`, replacing any earlier owner of `id`.
    pub fn insert(&mut self, id: &SubscriptionId, ext: &str)
        requires
            old(self).wf(),
        ensures
            final(self).wf(),
            owns(final(self)@, id@, ext@),
            forall|e: Seq<char>| owns(final(self)@, id@, e) ==> e == ext@,
            agree_except(final(self)@, old(self)@, id@),
    {
        self.remove(id);
        let ghost mid = self@;
        self.entries.push((id.duplicate(), owned(ext)));
        proof {
            let last = self@.len() - 1;
            assert(self@[last] == (id@, ext@));
            assert forall|a: int| 0 <= a < mid.len() implies #[trigger] self@[a] == mid[a] by {}
            assert forall|a: int, b: int| 0 <= a < self@.len() && 0 <= b < self@.len() && a != b implies (#[trigger] self@[a]).0
                != (#[trigger] self@[b]).0 by {
                if a == last {
                    assert(self@[b] == mid[b]);
                } else if b == last {
                    assert(self@[a] == mid[a]);
                } else {
                    assert(self@[a] == mid[a] && self@[b] == mid[b]);
                }
            }
            assert forall|e: Seq<char>| owns(self@, id@, e) implies e == ext@ by {
                let a = choose|a: int| 0 <= a < self@.len() && #[trigger] self@[a] == (id@, e);
                if a != last {
                    assert(self@[a] == mid[a]);
                }
            }
            assert forall|k: Seq<char>, e: Seq<char>| k != id@ implies (owns(self@, k, e) <==> owns(mid, k, e)) by {
                if owns(self@, k, e) {
                    let a = choose|a: int| 0 <= a < self@.len() && #[trigger] self@[a] == (k, e);
                    assert(a != last);
                    assert(self@[a] == mid[a]);
                }
                if owns(mid, k, e) {
                    let a = choose|a: int| 0 <= a < mid.len() && #[trigger] mid[a] == (k, e);
                    assert(self@[a] == mid[a]);
                }
            }
        }
    }

    /// The handles `ext` owns.
    pub fn ids_of(&self, ext: &str) -> (r: Vec<SubscriptionId>)
        requires
            self.wf(),
        ensures
            forall|k: int| 0 <= k < r@.len() ==> owns(self@, #[trigger] r@[k]@, ext@),
            forall|id: Seq<char>| owns(self@, id, ext@) ==> exists|k: int| 0 <= k < r@.len() && #[trigger] r@[k]@ == id,
            forall|a: int, b: int| 0 <= a < r@.len() && 0 <= b < r@.len() && a != b ==> (#[trigger] r@[a])@ != (#[trigger] r@[b])@,
    {
        let mut out: Vec<SubscriptionId> = Vec::new();
        let n = self.entries.len();
        let mut i: usize = 0;
        while i < n
            invariant
                i <= n,
                n == self@.len(),
                ids_distinct(self@),
                forall|k: int| #![trigger out@[k]] 0 <= k < out@.len() ==> exists|j: int| 0 <= j < i && #[trigger] self@[j] == (out@[k]@, ext@),
                forall|j: int| 0 <= j < i && (#[trigger] self@[j]).1 == ext@ ==> exists|k: int| 0 <= k < out@.len() && out@[k]@ == self@[j].0,
                forall|a: int, b: int| 0 <= a < out@.len() && 0 <= b < out@.len() && a != b ==> (#[trigger] out@[a])@ != (#[trigger] out@[b])@,
            decreases n - i,
        {
            let (k, e) = &self.entries[i];
            assert(self@[i as int] == (k@, e@));
            if str_eq(e.as_str(), ext) {
                let ghost prev = out@;
                out.push(k.duplicate());
                proof {
                    assert forall|a: int| #![trigger out@[a]] 0 <= a < out@.len() implies exists|j: int| 0 <= j < i + 1 && #[trigger] self@[j] == (
                        out@[a]@,
                        ext@,
                    ) by {
                        if a < prev.len() {
                            assert(out@[a] == prev[a]);
                        } else {
                            assert(self@[i as int] == (out@[a]@, ext@));
                        }
                    }
                    assert forall|j: int| 0 <= j < i + 1 && (#[trigger] self@[j]).1 == ext@ implies exists|a: int| 0 <= a < out@.len() && out@[a]@
                        == self@[j].0 by {
                        if j < i {
                            let a = choose|a: int| 0 <= a < prev.len() && prev[a]@ == self@[j].0;
                            assert(out@[a] == prev[a]);
                        } else {
                            assert(out@[prev.len() as int]@ == self@[j].0);
                        }
                    }
                    assert forall|a: int, b: int| 0 <= a < out@.len() && 0 <= b < out@.len() && a != b implies (#[trigger] out@[a])@
                        != (#[trigger] out@[b])@ by {
                        if a < prev.len() && b < prev.len() {
                            assert(out@[a] == prev[a] && out@[b] == prev[b]);
                        } else if a < prev.len() {
                            assert(out@[a] == prev[a]);
                            let j = choose|j: int| 0 <= j < i && #[trigger] self@[j] == (prev[a]@, ext@);
                            assert(self@[j].0 != self@[i as int].0);
                        } else if b < prev.len() {
                            assert(out@[b] == prev[b]);
                            let j = choose|j: int| 0 <= j < i && #[trigger] self@[j] == (prev[b]@, ext@);
                            assert(self@[j].0 != self@[i as int].0);
                        }
                    }
                }
            } else {
                proof {
                    assert forall|a: int| #![trigger out@[a]] 0 <= a < out@.len() implies exists|j: int| 0 <= j < i + 1 && #[trigger] self@[j] == (
                        out@[a]@,
                        ext@,
                    ) by {
                        let j = choose|j: int| 0 <= j < i && #[trigger] self@[j] == (out@[a]@, ext@);
                    }
                }
            }
            i = i + 1;
        }
        proof {
            assert forall|k: int| 0 <= k < out@.len() implies owns(self@, #[trigger] out@[k]@, ext@) by {
                let j = choose|j: int| 0 <= j < n && #[trigger] self@[j] == (out@[k]@, ext@);
            }
            assert forall|id: Seq<char>| owns(self@, id, ext@) implies exists|k: int| 0 <= k < out@.len() && #[trigger] out@[k]@ == id by {
                let j = choose|j: int| 0 <= j < self@.len() && #[trigger] self@[j] == (id, ext@);
                assert(self@[j].1 == ext@);
            }
        }
        out
    }
}

fn owned_string(s: &String) -> (r: String)
    ensures
        r@ == s@,
{
    owned(s.as_str())
}

/// Every entry of `b` is an entry of `a` or belongs to `ext`.
pub open spec fn only_adds_for(a: OwnersView, b: OwnersView, ext: Seq<char>) -> bool {
    forall|k: Seq<char>, e: Seq<char>| owns(b, k, e) ==> owns(a, k, e) || e == ext
}

/// Adapts the kernel EventBus to extension subscriptions, remembering which
/// extension owns each handle it registered.
pub struct KernelEventSubscriptionAdapter<B: KernelEventBus> {
    event_bus: B,
    owners: SubscriptionOwners,
    calls: Ghost<Seq<BusCall>>,
}

impl<B: KernelEventBus> KernelEventSubscriptionAdapter<B> {
    /// Who owns which registered handle.
    pub closed spec fn owners(&self) -> OwnersView {
        self.owners@
    }

    #[verifier::type_invariant]
    spec fn owners_wf(&self) -> bool {
        self.owners.wf()
    }

    /// The calls made on the EventBus so far, in order.
    pub closed spec fn calls(&self) -> Seq<BusCall> {
        self.calls@
    }

    pub fn new(event_bus: B) -> (r: Self)
        ensures
            r.owners().len() == 0,
            r.bus() == event_bus,
            r.calls() == Seq::<BusCall>::empty(),
    {
        KernelEventSubscriptionAdapter { event_bus, owners: SubscriptionOwners::new(), calls: Ghost(Seq::empty()) }
    }

    /// The EventBus the adapter registers on, as a value.
    pub closed spec fn bus(&self) -> B {
        self.event_bus
    }

    /// The EventBus the adapter registers on.
    pub fn event_bus(&self) -> (r: &B)
        ensures
            *r == self.bus(),
    {
        &self.event_bus
    }

    fn set_owner(&mut self, id: &SubscriptionId, ext: &str)
        ensures
            owns(final(self).owners(), id@, ext@),
            forall|e: Seq<char>| owns(final(self).owners(), id@, e) ==> e == ext@,
            agree_except(final(self).owners(), old(self).owners(), id@),
            final(self).calls() == old(self).calls(),
    {
        proof {
            use_type_invariant(&*self);
        }
        let mut owners = SubscriptionOwners::new();
        std::mem::swap(&mut owners, &mut self.owners);
        owners.insert(id, ext);
        self.owners = owners;
    }

    fn drop_owner(&mut self, id: &SubscriptionId)
        ensures
            !has_handle(final(self).owners(), id@),
            agree_except(final(self).owners(), old(self).owners(), id@),
            final(self).calls() == old(self).calls(),
    {
        proof {
            use_type_invariant(&*self);
        }
        let mut owners = SubscriptionOwners::new();
        std::mem::swap(&mut owners, &mut self.owners);
        owners.remove(id);
        self.owners = owners;
    }


    /// Registers one subscription of `extension_id` on the EventBus and
    /// records its handle as owned by the extension.
    pub fn subscribe_extension(
        &mut self,
        extension_id: &str,
        topic: String,
        scope_key: Option<String>,
    ) -> (r: Result<SubscriptionId, String>)
        ensures
            trim(extension_id@).len() == 0 ==> (r matches Err(m) && m@ == "Extension ID must not be empty"@),
            r is Err ==> final(self).owners() == old(self).owners(),
            r matches Ok(id) ==> owns(final(self).owners(), id@, extension_id@) && agree_except(
                final(self).owners(),
                old(self).owners(),
                id@,
            ) && (forall|e: Seq<char>| owns(final(self).owners(), id@, e) ==> e == extension_id@),
            trim(extension_id@).len() == 0 ==> final(self).calls() == old(self).calls(),
            trim(extension_id@).len() != 0 ==> final(self).calls() == old(self).calls().push(
                BusCall::Subscribe {
                    topic: topic@,
                    scope_key: opt_str_view(scope_key),
                    handle: match r {
                        Ok(id) => Some(id@),
                        Err(_) => None,
                    },
                },
            ),
    {
        proof {
            reveal_strlit("Extension ID must not be empty");
        }
        if is_blank(extension_id) {
            return Err(owned("Extension ID must not be empty"));
        }
        proof {
            use_type_invariant(&*self);
        }
        let t = Topic::new(topic.as_str());
        let ghost scope_view = opt_str_view(scope_key);
        let answer = self.event_bus.subscribe(&t, scope_key);
        self.calls = Ghost(
            self.calls@.push(
                BusCall::Subscribe {
                    topic: t@,
                    scope_key: scope_view,
                    handle: if answer is Ok {
                        Some(answer->Ok_0@)
                    } else {
                        None
                    },
                },
            ),
        );
        let id = match answer {
            Ok(id) => id,
            Err(e) => return Err(e),
        };
        self.set_owner(&id, extension_id);
        Ok(id)
    }

    /// Removes one subscription `extension_id` owns: refused when no
    /// extension or another extension owns the handle. Ownership is dropped
    /// only once the EventBus confirms, so a failed removal can be retried.
    pub fn unsubscribe_extension(&mut self, extension_id: &str, subscription_id: &SubscriptionId) -> (r: Result<
        (),
        String,
    >)
        ensures
            !has_handle(old(self).owners(), subscription_id@) ==> (r matches Err(m) && m@ == "Event subscription '"@
                + subscription_id@ + "' is not owned by an Extension"@),
            (exists|e: Seq<char>| e != extension_id@ && owns(old(self).owners(), subscription_id@, e)) ==> r is Err,
            r is Err ==> final(self).owners() == old(self).owners(),
            r is Ok ==> owns(old(self).owners(), subscription_id@, extension_id@) && !has_handle(
                final(self).owners(),
                subscription_id@,
            ) && agree_except(final(self).owners(), old(self).owners(), subscription_id@),
            !owns(old(self).owners(), subscription_id@, extension_id@) ==> final(self).calls() == old(self).calls(),
            owns(old(self).owners(), subscription_id@, extension_id@) ==> final(self).calls() == old(self).calls().push(
                BusCall::Unsubscribe { handle: subscription_id@, accepted: r is Ok },
            ),
    {
        proof {
            use_type_invariant(&*self);
        }
        let owner = match self.owners.owner_of(subscription_id) {
            None => {
                return Err(
                    concat3(
                        "Event subscription '",
                        subscription_id.as_str(),
                        "' is not owned by an Extension",
                    ),
                );
            },
            Some(o) => o,
        };
        if !str_eq(owner.as_str(), extension_id) {
            return Err(
                concat6(
                    "Event subscription '",
                    subscription_id.as_str(),
                    "' belongs to Extension '",
                    owner.as_str(),
                    "', not '",
                    concat3(extension_id, "'", "").as_str(),
                ),
            );
        }
        let answer = self.event_bus.unsubscribe(subscription_id);
        self.calls = Ghost(
            self.calls@.push(BusCall::Unsubscribe { handle: subscription_id@, accepted: answer is Ok }),
        );
        if let Err(e) = answer {
            return Err(e);
        }
        self.drop_owner(subscription_id);
        Ok(())
    }

    /// Withdraws the handles of `records`, last first, dropping each one the
    /// EventBus confirms. Gives back, per record, whether its withdrawal was
    /// accepted.
    fn rollback_registered(
        &mut self,
        records: &Vec<ExtensionSubscriptionRecord>,
        Ghost(start): Ghost<OwnersView>,
        Ghost(ext): Ghost<Seq<char>>,
    ) -> (accepted: Ghost<Seq<bool>>)
        requires
            only_adds_for(start, old(self).owners(), ext),
        ensures
            only_adds_for(start, final(self).owners(), ext),
            accepted@.len() == records@.len(),
            final(self).calls() == old(self).calls() + withdraw_calls(record_handles(records@), accepted@),
            forall|j: int| 0 <= j < records@.len() && accepted@[j] ==> !has_handle(
                final(self).owners(),
                #[trigger] records@[j].subscription_id@,
            ),
            forall|k: Seq<char>, e: Seq<char>| owns(final(self).owners(), k, e) ==> owns(old(self).owners(), k, e),
            forall|k: Seq<char>, e: Seq<char>|
                owns(old(self).owners(), k, e) && (forall|j: int|
                    0 <= j < records@.len() && accepted@[j] ==> #[trigger] records@[j].subscription_id@ != k) ==> owns(
                    final(self).owners(),
                    k,
                    e,
                ),
    {
        proof {
            use_type_invariant(&*self);
        }
        let ghost s0 = self.owners();
        let ghost c0 = self.calls();
        let ghost ids = record_handles(records@);
        let ghost n = records@.len() as int;
        let ghost mut oks: Seq<bool> = Seq::new(records@.len(), |j: int| false);
        let mut i = records.len();
        while i > 0
            invariant
                i <= records@.len(),
                n == records@.len(),
                ids == record_handles(records@),
                oks.len() == n,
                only_adds_for(start, self.owners(), ext),
                s0 == old(self).owners(),
                self.calls() == c0 + withdraw_calls(ids, oks).take(n - i),
                forall|j: int| i <= j < n && oks[j] ==> !has_handle(self.owners(), #[trigger] records@[j].subscription_id@),
                forall|k: Seq<char>, e: Seq<char>| owns(self.owners(), k, e) ==> owns(s0, k, e),
                forall|k: Seq<char>, e: Seq<char>|
                    owns(s0, k, e) && (forall|j: int|
                        i <= j < n && oks[j] ==> #[trigger] records@[j].subscription_id@ != k) ==> owns(
                        self.owners(),
                        k,
                        e,
                    ),
            decreases i,
        {
            i = i - 1;
            let id = &records[i].subscription_id;
            proof {
                use_type_invariant(&*self);
            }
            let answer = self.event_bus.unsubscribe(id);
            let ghost ok = answer is Ok;
            let ghost prev_oks = oks;
            proof {
                oks = oks.update(i as int, ok);
                assert(ids[i as int] == id@);
                assert(withdraw_calls(ids, oks).take(n - i) =~= withdraw_calls(ids, prev_oks).take(n - i - 1).push(
                    BusCall::Unsubscribe { handle: id@, accepted: ok },
                ));
            }
            self.calls = Ghost(self.calls@.push(BusCall::Unsubscribe { handle: id@, accepted: ok }));
            if answer.is_ok() {
                let ghost before = self.owners();
                self.drop_owner(id);
                proof {
                    assert forall|k: Seq<char>, e: Seq<char>| owns(self.owners(), k, e) implies owns(s0, k, e) by {
                        if k == id@ {
                            assert(has_handle(self.owners(), k)) by {
                                let a = choose|a: int| 0 <= a < self.owners().len() && #[trigger] self.owners()[a] == (k, e);
                            }
                        } else {
                            assert(owns(before, k, e));
                        }
                    }
                    assert forall|j: int| i <= j < n && oks[j] implies !has_handle(
                        self.owners(),
                        #[trigger] records@[j].subscription_id@,
                    ) by {
                        if j != i && records@[j].subscription_id@ != id@ {
                            assert(prev_oks[j]);
                            if has_handle(self.owners(), records@[j].subscription_id@) {
                                let a = choose|a: int| 0 <= a < self.owners().len() && (#[trigger] self.owners()[a]).0
                                    == records@[j].subscription_id@;
                                assert(owns(self.owners(), records@[j].subscription_id@, self.owners()[a].1));
                                assert(owns(before, records@[j].subscription_id@, self.owners()[a].1));
                                assert(has_handle(before, records@[j].subscription_id@));
                            }
                        }
                    }
                    assert forall|k: Seq<char>, e: Seq<char>|
                        owns(s0, k, e) && (forall|j: int|
                            i <= j < n && oks[j] ==> #[trigger] records@[j].subscription_id@ != k) implies owns(
                        self.owners(),
                        k,
                        e,
                    ) by {
                        assert(records@[i as int].subscription_id@ != k);
                        assert forall|j: int| i + 1 <= j < n && prev_oks[j] implies #[trigger] records@[j].subscription_id@ != k by {
                            assert(oks[j] == prev_oks[j]);
                        }
                        assert(owns(before, k, e));
                    }
                    assert forall|k: Seq<char>, e: Seq<char>| owns(self.owners(), k, e) implies owns(start, k, e)
                        || e == ext by {
                        if k == id@ {
                            assert(has_handle(self.owners(), k)) by {
                                let a = choose|a: int| 0 <= a < self.owners().len() && #[trigger] self.owners()[a] == (k, e);
                            }
                        } else {
                            assert(owns(before, k, e));
                        }
                    }
                }
            } else {
                proof {
                    assert forall|j: int| i <= j < n && oks[j] implies !has_handle(
                        self.owners(),
                        #[trigger] records@[j].subscription_id@,
                    ) by {
                        assert(j != i);
                        assert(prev_oks[j]);
                    }
                    assert forall|k: Seq<char>, e: Seq<char>|
                        owns(s0, k, e) && (forall|j: int|
                            i <= j < n && oks[j] ==> #[trigger] records@[j].subscription_id@ != k) implies owns(
                        self.owners(),
                        k,
                        e,
                    ) by {
                        assert forall|j: int| i + 1 <= j < n && prev_oks[j] implies #[trigger] records@[j].subscription_id@ != k by {
                            assert(oks[j] == prev_oks[j]);
                        }
                    }
                }
            }
        }
        proof {
            assert(withdraw_calls(ids, oks).take(n) =~= withdraw_calls(ids, oks));
        }
        Ghost(oks)
    }

    /// After the EventBus refused declaration `i`, withdraws the handles of
    /// this batch, last first, and gives back the error naming the refused
    /// topic.
    fn withdraw_batch(
        &mut self,
        extension_id: &str,
        declarations: &Vec<DeclaredEventSubscription>,
        i: usize,
        registered: &Vec<ExtensionSubscriptionRecord>,
        bus_error: String,
        Ghost(start): Ghost<OwnersView>,
        Ghost(c0): Ghost<Seq<BusCall>>,
    ) -> (m: String)
        requires
            i < declarations@.len(),
            registered@.len() == i,
            only_adds_for(start, old(self).owners(), extension_id@),
            old(self).calls() == c0 + subscribe_calls(declarations@.take(i as int), record_handles(registered@)) + seq![
                BusCall::Subscribe {
                    topic: declarations@[i as int].topic@,
                    scope_key: opt_str_view(declarations@[i as int].scope_key),
                    handle: None,
                },
            ],
            forall|j: int| 0 <= j < i ==> owns(old(self).owners(), #[trigger] registered@[j].subscription_id@, extension_id@),
            forall|key: Seq<char>, e: Seq<char>|
                owns(start, key, e) && (forall|j: int| 0 <= j < i ==> #[trigger] registered@[j].subscription_id@ != key)
                    ==> owns(old(self).owners(), key, e),
        ensures
            only_adds_for(start, final(self).owners(), extension_id@),
            exists|a: Seq<bool>|
                refused_at(
                    c0,
                    final(self).calls(),
                    start,
                    final(self).owners(),
                    extension_id@,
                    declarations@,
                    i as int,
                    record_handles(registered@),
                    a,
                    m@,
                ),
    {
        let ghost mid = self.owners();
        let ghost mid_calls = self.calls();
        let accepted = self.rollback_registered(registered, Ghost(start), Ghost(extension_id@));
        let d = &declarations[i];
        let m = concat6(
            "Extension '",
            extension_id,
            "' failed to subscribe to event topic '",
            d.topic.as_str(),
            "': ",
            bus_error.as_str(),
        );
        proof {
            let handles = record_handles(registered@);
            let p = "Extension '"@ + extension_id@ + "' failed to subscribe to event topic '"@ + d.topic@ + "': "@;
            assert(m@.subrange(0, p.len() as int) =~= p);
            assert forall|j: int| 0 <= j < i && accepted@[j] implies !has_handle(self.owners(), #[trigger] handles[j]) by {
                assert(handles[j] == registered@[j].subscription_id@);
            }
            assert forall|j: int|
                0 <= j < i && !accepted@[j] && (forall|j2: int| 0 <= j2 < i && accepted@[j2] ==> handles[j2] != handles[j])
                    implies owns(self.owners(), #[trigger] handles[j], extension_id@) by {
                assert(handles[j] == registered@[j].subscription_id@);
                assert(owns(mid, registered@[j].subscription_id@, extension_id@));
                assert forall|j2: int|
                    0 <= j2 < registered@.len() && accepted@[j2] implies #[trigger] registered@[j2].subscription_id@
                    != handles[j] by {
                    assert(handles[j2] == registered@[j2].subscription_id@);
                }
            }
            assert forall|key: Seq<char>, e: Seq<char>|
                owns(start, key, e) && (forall|j: int| 0 <= j < i ==> #[trigger] handles[j] != key) implies owns(
                self.owners(),
                key,
                e,
            ) by {
                assert forall|j: int| 0 <= j < i implies #[trigger] registered@[j].subscription_id@ != key by {
                    assert(handles[j] == registered@[j].subscription_id@);
                }
                assert(owns(mid, key, e));
                assert forall|j: int| 0 <= j < registered@.len() && accepted@[j] implies #[trigger] registered@[j].subscription_id@
                    != key by {
                    assert(handles[j] == registered@[j].subscription_id@);
                }
            }
            assert(self.calls() =~= c0 + subscribe_calls(declarations@.take(i as int), handles) + seq![
                BusCall::Subscribe {
                    topic: declarations@[i as int].topic@,
                    scope_key: opt_str_view(declarations@[i as int].scope_key),
                    handle: None,
                },
            ] + withdraw_calls(handles, accepted@));
            assert(refused_at(c0, self.calls(), start, self.owners(), extension_id@, declarations@, i as int, handles, accepted@, m@));
        }
        m
    }

    /// Registers the declared subscriptions of `extension_id` on the
    /// EventBus and gives back their records, in declaration order. A blank
    /// extension id or a high-frequency topic refuses the whole batch before
    /// anything is registered; if the EventBus refuses one, the handles of
    /// this batch are withdrawn again, last first.
    pub fn subscribe_declared(&mut self, extension_id: &str, declarations: &Vec<DeclaredEventSubscription>) -> (r:
        Result<Vec<ExtensionSubscriptionRecord>, String>)
        ensures
            only_adds_for(old(self).owners(), final(self).owners(), extension_id@),
            trim(extension_id@).len() == 0 ==> (r matches Err(m) && m@ == "Extension ID must not be empty"@
                && final(self).owners() == old(self).owners()),
            trim(extension_id@).len() != 0 ==> match first_error(declarations@, high_frequency_check()) {
                Some(t) => (r matches Err(m) && m@ == "Event topic '"@ + t + "' declared by Extension '"@
                    + extension_id@
                    + "' is a high-frequency stream pattern (agent/terminal/task) and must use the stream channel"@
                    && final(self).owners() == old(self).owners()),
                None => declarations@.len() == 0 ==> (r matches Ok(rs) && rs@.len() == 0),
            },
            trim(extension_id@).len() == 0 || first_error(declarations@, high_frequency_check()) is Some
                ==> final(self).calls() == old(self).calls(),
            r matches Ok(rs) ==> final(self).calls() == old(self).calls() + subscribe_calls(
                declarations@,
                record_handles(rs@),
            ),
            trim(extension_id@).len() != 0 && first_error(declarations@, high_frequency_check()) is None
                ==> (r matches Err(m) ==> batch_refused(
                old(self).calls(),
                final(self).calls(),
                old(self).owners(),
                final(self).owners(),
                extension_id@,
                declarations@,
                m@,
            )),
            match r {
                Ok(rs) => rs@.len() == declarations@.len() && (forall|i: int|
                    0 <= i < rs@.len() ==> #[trigger] rs@[i].topic@ == declarations@[i].topic@
                        && opt_str_view(rs@[i].scope_key) == opt_str_view(declarations@[i].scope_key)
                        && owns(final(self).owners(), rs@[i].subscription_id@, extension_id@)) && (forall|
                    k: Seq<char>,
                    e: Seq<char>,
                |
                    owns(old(self).owners(), k, e) && (forall|i: int| 0 <= i < rs@.len() ==> #[trigger] rs@[i].subscription_id@ != k)
                        ==> owns(final(self).owners(), k, e)),
                Err(_) => true,
            },
    {
        if let Err(e) = check_declared_subscriptions(extension_id, declarations) {
            return Err(e.to_string());
        }
        let ghost start = self.owners();
        let ghost c0 = self.calls();
        let mut registered: Vec<ExtensionSubscriptionRecord> = Vec::new();
        let n = declarations.len();
        let mut i: usize = 0;
        while i < n
            invariant
                i <= n,
                n == declarations@.len(),
                start == old(self).owners(),
                c0 == old(self).calls(),
                self.calls() == c0 + subscribe_calls(declarations@.take(i as int), record_handles(registered@)),
                trim(extension_id@).len() != 0,
                first_error(declarations@, high_frequency_check()) is None,
                registered@.len() == i,
                forall|j: int|
                    0 <= j < i ==> #[trigger] registered@[j].topic@ == declarations@[j].topic@ && opt_str_view(
                        registered@[j].scope_key,
                    ) == opt_str_view(declarations@[j].scope_key) && owns(
                        self.owners(),
                        registered@[j].subscription_id@,
                        extension_id@,
                    ),
                only_adds_for(start, self.owners(), extension_id@),
                forall|k: Seq<char>, e: Seq<char>|
                    owns(start, k, e) && (forall|j: int| 0 <= j < i ==> #[trigger] registered@[j].subscription_id@ != k)
                        ==> owns(self.owners(), k, e),
            decreases n - i,
        {
            proof {
                use_type_invariant(&*self);
            }
            let d = &declarations[i];
            let topic = Topic::new(d.topic.as_str());
            let scope = copy_scope(&d.scope_key);
            let answer = self.event_bus.subscribe(&topic, copy_scope(&d.scope_key));
            let ghost prev_calls = self.calls();
            self.calls = Ghost(
                self.calls@.push(
                    BusCall::Subscribe {
                        topic: d.topic@,
                        scope_key: opt_str_view(d.scope_key),
                        handle: if answer is Ok {
                            Some(answer->Ok_0@)
                        } else {
                            None
                        },
                    },
                ),
            );
            let id = match answer {
                Ok(id) => id,
                Err(e) => {
                    proof {
                        assert forall|j: int| 0 <= j < i implies owns(
                            self.owners(),
                            #[trigger] registered@[j].subscription_id@,
                            extension_id@,
                        ) by {
                            assert(registered@[j].topic@ == declarations@[j].topic@);
                        }
                        assert(declarations@[i as int] == *d);
                        assert(self.calls() =~= c0 + subscribe_calls(
                            declarations@.take(i as int),
                            record_handles(registered@),
                        ) + seq![
                            BusCall::Subscribe {
                                topic: declarations@[i as int].topic@,
                                scope_key: opt_str_view(declarations@[i as int].scope_key),
                                handle: None,
                            },
                        ]);
                    }
                    let m = self.withdraw_batch(extension_id, declarations, i, &registered, e, Ghost(start), Ghost(c0));
                    proof {
                        let h = record_handles(registered@);
                        let a = choose|a: Seq<bool>|
                            refused_at(c0, self.calls(), start, self.owners(), extension_id@, declarations@, i as int, h, a, m@);
                        assert(refused_at(
                            old(self).calls(),
                            self.calls(),
                            old(self).owners(),
                            self.owners(),
                            extension_id@,
                            declarations@,
                            i as int,
                            h,
                            a,
                            m@,
                        ));
                        assert(batch_refused(
                            old(self).calls(),
                            self.calls(),
                            old(self).owners(),
                            self.owners(),
                            extension_id@,
                            declarations@,
                            m@,
                        ));
                    }
                    return Err(m);
                },
            };
            let ghost before = self.owners();
            self.set_owner(&id, extension_id);
            let ghost prev = registered@;
            registered.push(ExtensionSubscriptionRecord { subscription_id: id, topic, scope_key: scope });
            proof {
                assert forall|j: int| 0 <= j < i + 1 implies #[trigger] registered@[j].topic@ == declarations@[j].topic@
                    && opt_str_view(registered@[j].scope_key) == opt_str_view(declarations@[j].scope_key) && owns(
                    self.owners(),
                    registered@[j].subscription_id@,
                    extension_id@,
                ) by {
                    if j < i {
                        assert(registered@[j] == prev[j]);
                        assert(prev[j].topic@ == declarations@[j].topic@);
                        let k = prev[j].subscription_id@;
                        if k != id@ {
                            assert(owns(before, k, extension_id@));
                        }
                    } else {
                        assert(registered@[j] == ExtensionSubscriptionRecord { subscription_id: id, topic, scope_key: scope });
                        assert(registered@[j].topic@ == d.topic@);
                        assert(opt_str_view(registered@[j].scope_key) == opt_str_view(d.scope_key));
                        assert(owns(self.owners(), id@, extension_id@));
                    }
                }
                assert forall|k: Seq<char>, e: Seq<char>| owns(self.owners(), k, e) implies owns(start, k, e)
                    || e == extension_id@ by {
                    if k != id@ {
                        assert(owns(before, k, e));
                    }
                }
                assert forall|k: Seq<char>, e: Seq<char>|
                    owns(start, k, e) && (forall|j: int| 0 <= j < i + 1 ==> #[trigger] registered@[j].subscription_id@ != k)
                        implies owns(self.owners(), k, e) by {
                    assert forall|j: int| 0 <= j < i implies #[trigger] prev[j].subscription_id@ != k by {
                        assert(registered@[j] == prev[j]);
                    }
                    assert(registered@[i as int].subscription_id@ != k);
                    assert(owns(before, k, e));
                }
            }
            assert(forall|j: int| 0 <= j < i + 1 ==> #[trigger] registered@[j].topic@ == declarations@[j].topic@);
            assert(forall|j: int| 0 <= j < i + 1 ==> #[trigger] registered@[j].topic@ == declarations@[j].topic@ && opt_str_view(registered@[j].scope_key) == opt_str_view(declarations@[j].scope_key));
            assert(forall|j: int| 0 <= j < i + 1 ==> #[trigger] registered@[j].topic@ == declarations@[j].topic@ && owns(self.owners(), registered@[j].subscription_id@, extension_id@));
            i = i + 1;
        }
        Ok(registered)
    }

    /// Removes every subscription `extension_id` owns. A handle the EventBus
    /// fails to remove stays owned, for a retry, and the first such failure
    /// is returned; the others are still attempted.
    pub fn unsubscribe_all(&mut self, extension_id: &str) -> (r: Result<(), String>)
        ensures
            removed_all(
                old(self).calls(),
                final(self).calls(),
                old(self).owners(),
                final(self).owners(),
                extension_id@,
                match r {
                    Ok(_) => None,
                    Err(m) => Some(m@),
                },
            ),
            r is Ok <==> (forall|k: Seq<char>| !owns(final(self).owners(), k, extension_id@)),
    {
        proof {
            use_type_invariant(&*self);
        }
        let ids = self.owners.ids_of(extension_id);
        let ghost start = self.owners();
        let ghost c0 = self.calls();
        let ghost ext = extension_id@;
        let ghost mut us: Seq<(Seq<char>, bool)> = Seq::empty();
        let mut first_error: Option<String> = None;
        let n = ids.len();
        let mut i: usize = 0;
        while i < n
            invariant
                i <= n,
                n == ids@.len(),
                start == old(self).owners(),
                c0 == old(self).calls(),
                ext == extension_id@,
                ids_distinct(start),
                forall|k: int| 0 <= k < ids@.len() ==> owns(start, #[trigger] ids@[k]@, ext),
                forall|id: Seq<char>| owns(start, id, ext) ==> exists|k: int| 0 <= k < ids@.len() && #[trigger] ids@[k]@ == id,
                forall|a: int, b: int| 0 <= a < ids@.len() && 0 <= b < ids@.len() && a != b ==> (#[trigger] ids@[a])@ != (#[trigger] ids@[b])@,
                forall|k: Seq<char>, e: Seq<char>| owns(self.owners(), k, e) ==> owns(start, k, e),
                forall|k: Seq<char>, e: Seq<char>| owns(start, k, e) && e != ext ==> owns(self.owners(), k, e),
                forall|j: int| i <= j < n ==> owns(self.owners(), #[trigger] ids@[j]@, ext),
                us.len() == i,
                self.calls() == c0 + unsubscribe_calls(us),
                forall|k: int| 0 <= k < i ==> (#[trigger] us[k]).0 == ids@[k]@,
                forall|k: int| 0 <= k < i && (#[trigger] us[k]).1 ==> !has_handle(self.owners(), us[k].0),
                forall|k: int| 0 <= k < i && !(#[trigger] us[k]).1 ==> owns(self.owners(), us[k].0, ext),
                first_error is None <==> forall|k: int| 0 <= k < i ==> (#[trigger] us[k]).1,
                first_error matches Some(m) ==> exists|k: int|
                    0 <= k < i && !(#[trigger] us[k]).1 && (forall|j: int| 0 <= j < k ==> (#[trigger] us[j]).1)
                        && unsubscribe_error_prefix(ext, us[k].0).is_prefix_of(m@),
            decreases n - i,
        {
            let id = &ids[i];
            let ghost before = self.owners();
            let ghost prev = us;
            proof {
                use_type_invariant(&*self);
            }
            let answer = self.event_bus.unsubscribe(id);
            let ghost ok = answer is Ok;
            proof {
                us = us.push((id@, ok));
                assert(unsubscribe_calls(us) =~= unsubscribe_calls(prev).push(BusCall::Unsubscribe { handle: id@, accepted: ok }));
            }
            self.calls = Ghost(self.calls@.push(BusCall::Unsubscribe { handle: id@, accepted: ok }));
            match answer {
                Ok(()) => {
                    self.drop_owner(id);
                    proof {
                        assert forall|k: Seq<char>, e: Seq<char>| owns(self.owners(), k, e) implies owns(start, k, e) by {
                            if k == id@ {
                                let a = choose|a: int| 0 <= a < self.owners().len() && #[trigger] self.owners()[a] == (k, e);
                                assert(self.owners()[a].0 == k);
                            } else {
                                assert(owns(before, k, e));
                            }
                        }
                        assert forall|k: Seq<char>, e: Seq<char>| owns(start, k, e) && e != ext implies owns(self.owners(), k, e) by {
                            if k == id@ {
                                assert(owns(start, id@, ext));
                                let a = choose|a: int| 0 <= a < start.len() && #[trigger] start[a] == (k, e);
                                let b = choose|b: int| 0 <= b < start.len() && #[trigger] start[b] == (id@, ext);
                                if a != b {
                                    assert(start[a].0 != start[b].0);
                                }
                            } else {
                                assert(owns(before, k, e));
                            }
                        }
                        assert forall|j: int| i + 1 <= j < n implies owns(self.owners(), #[trigger] ids@[j]@, ext) by {
                            assert(ids@[j]@ != ids@[i as int]@);
                            assert(owns(before, ids@[j]@, ext));
                        }
                        assert forall|k: int| 0 <= k < i + 1 && (#[trigger] us[k]).1 implies !has_handle(self.owners(), us[k].0) by {
                            if k < i {
                                assert(us[k] == prev[k]);
                                if has_handle(self.owners(), us[k].0) {
                                    let a = choose|a: int| 0 <= a < self.owners().len() && (#[trigger] self.owners()[a]).0 == us[k].0;
                                    assert(owns(self.owners(), us[k].0, self.owners()[a].1));
                                    assert(ids@[k]@ != ids@[i as int]@);
                                    assert(owns(before, us[k].0, self.owners()[a].1));
                                    assert(has_handle(before, us[k].0));
                                }
                            }
                        }
                        assert forall|k: int| 0 <= k < i + 1 && !(#[trigger] us[k]).1 implies owns(self.owners(), us[k].0, ext) by {
                            assert(k < i);
                            assert(us[k] == prev[k]);
                            assert(ids@[k]@ != ids@[i as int]@);
                            assert(owns(before, us[k].0, ext));
                        }
                        assert(first_error is None <==> forall|k: int| 0 <= k < i + 1 ==> (#[trigger] us[k]).1) by {
                            if first_error is None {
                                assert forall|k: int| 0 <= k < i + 1 implies (#[trigger] us[k]).1 by {
                                    if k < i {
                                        assert(us[k] == prev[k]);
                                    }
                                }
                            } else {
                                let k = choose|k: int| 0 <= k < i && !(#[trigger] prev[k]).1;
                                assert(us[k] == prev[k]);
                            }
                        }
                        if first_error is Some {
                            let m = first_error->Some_0;
                            let k = choose|k: int|
                                0 <= k < i && !(#[trigger] prev[k]).1 && (forall|j: int| 0 <= j < k ==> (#[trigger] prev[j]).1)
                                    && unsubscribe_error_prefix(ext, prev[k].0).is_prefix_of(m@);
                            assert(us[k] == prev[k]);
                            assert forall|j: int| 0 <= j < k implies (#[trigger] us[j]).1 by {
                                assert(us[j] == prev[j]);
                            }
                        }
                    }
                },
                Err(e) => {
                    let ghost had = first_error;
                    if first_error.is_none() {
                        first_error = Some(
                            concat6(
                                "Extension '",
                                extension_id,
                                "' failed to unsubscribe event subscription '",
                                id.as_str(),
                                "': ",
                                e.as_str(),
                            ),
                        );
                    }
                    proof {
                        assert(owns(self.owners(), ids@[i as int]@, ext));
                        assert forall|k: int| 0 <= k < i + 1 && (#[trigger] us[k]).1 implies !has_handle(self.owners(), us[k].0) by {
                            assert(us[k] == prev[k]);
                        }
                        assert forall|k: int| 0 <= k < i + 1 && !(#[trigger] us[k]).1 implies owns(self.owners(), us[k].0, ext) by {
                            if k < i {
                                assert(us[k] == prev[k]);
                            }
                        }
                        assert(!us[i as int].1);
                        if had is None {
                            let m = first_error->Some_0;
                            let p = unsubscribe_error_prefix(ext, id@);
                            assert(m@.subrange(0, p.len() as int) =~= p);
                            assert forall|j: int| 0 <= j < i implies (#[trigger] us[j]).1 by {
                                assert(us[j] == prev[j]);
                            }
                            assert(unsubscribe_error_prefix(ext, us[i as int].0).is_prefix_of(m@));
                        } else {
                            let m = first_error->Some_0;
                            let k = choose|k: int|
                                0 <= k < i && !(#[trigger] prev[k]).1 && (forall|j: int| 0 <= j < k ==> (#[trigger] prev[j]).1)
                                    && unsubscribe_error_prefix(ext, prev[k].0).is_prefix_of(m@);
                            assert(us[k] == prev[k]);
                            assert forall|j: int| 0 <= j < k implies (#[trigger] us[j]).1 by {
                                assert(us[j] == prev[j]);
                            }
                        }
                    }
                },
            }
            i = i + 1;
        }
        let ghost outcome: Option<Seq<char>> = if first_error is Some {
            Some(first_error->Some_0@)
        } else {
            None
        };
        proof {
            assert forall|id: Seq<char>|
                owns(start, id, ext) <==> exists|k: int| 0 <= k < us.len() && (#[trigger] us[k]).0 == id by {
                if owns(start, id, ext) {
                    let k = choose|k: int| 0 <= k < ids@.len() && #[trigger] ids@[k]@ == id;
                    assert(us[k].0 == id);
                }
                if exists|k: int| 0 <= k < us.len() && (#[trigger] us[k]).0 == id {
                    let k = choose|k: int| 0 <= k < us.len() && (#[trigger] us[k]).0 == id;
                    assert(ids@[k]@ == id);
                }
            }
            assert forall|a: int, b: int| 0 <= a < us.len() && 0 <= b < us.len() && a != b implies (#[trigger] us[a]).0
                != (#[trigger] us[b]).0 by {
                assert(ids@[a]@ != ids@[b]@);
            }
            assert(removals_ended(c0, self.calls(), start, self.owners(), ext, us, outcome));
            if first_error is None {
                assert forall|k: Seq<char>| !owns(self.owners(), k, ext) by {
                    if owns(self.owners(), k, ext) {
                        assert(owns(start, k, ext));
                        let j = choose|j: int| 0 <= j < us.len() && (#[trigger] us[j]).0 == k;
                        assert(us[j].1);
                        let a = choose|a: int| 0 <= a < self.owners().len() && #[trigger] self.owners()[a] == (k, ext);
                        assert(self.owners()[a].0 == k);
                    }
                }
            } else {
                let k = choose|k: int| 0 <= k < us.len() && !(#[trigger] us[k]).1;
                assert(owns(self.owners(), us[k].0, ext));
            }
        }
        match first_error {
            Some(e) => Err(e),
            None => Ok(()),
        }
    }
}

impl<B: KernelEventBus> EventSubscriptionPort for KernelEventSubscriptionAdapter<B> {
    fn subscribe_extension(&mut self, extension_id: &str, topic: String, scope_key: Option<String>) -> (r: Result<
        SubscriptionId,
        String,
    >)
        ensures
            trim(extension_id@).len() == 0 ==> (r matches Err(m) && m@ == "Extension ID must not be empty"@),
            r is Err ==> final(self).owners() == old(self).owners(),
            r matches Ok(id) ==> owns(final(self).owners(), id@, extension_id@) && agree_except(
                final(self).owners(),
                old(self).owners(),
                id@,
            ) && (forall|e: Seq<char>| owns(final(self).owners(), id@, e) ==> e == extension_id@),
            trim(extension_id@).len() == 0 ==> final(self).calls() == old(self).calls(),
            trim(extension_id@).len() != 0 ==> final(self).calls() == old(self).calls().push(
                BusCall::Subscribe {
                    topic: topic@,
                    scope_key: opt_str_view(scope_key),
                    handle: match r {
                        Ok(id) => Some(id@),
                        Err(_) => None,
                    },
                },
            ),
    {
        KernelEventSubscriptionAdapter::subscribe_extension(self, extension_id, topic, scope_key)
    }

    fn unsubscribe_extension(&mut self, extension_id: &str, subscription_id: &SubscriptionId) -> (r: Result<
        (),
        String,
    >)
        ensures
            !has_handle(old(self).owners(), subscription_id@) ==> (r matches Err(m) && m@ == "Event subscription '"@
                + subscription_id@ + "' is not owned by an Extension"@),
            (exists|e: Seq<char>| e != extension_id@ && owns(old(self).owners(), subscription_id@, e)) ==> r is Err,
            r is Err ==> final(self).owners() == old(self).owners(),
            r is Ok ==> owns(old(self).owners(), subscription_id@, extension_id@) && !has_handle(
                final(self).owners(),
                subscription_id@,
            ) && agree_except(final(self).owners(), old(self).owners(), subscription_id@),
            !owns(old(self).owners(), subscription_id@, extension_id@) ==> final(self).calls() == old(self).calls(),
            owns(old(self).owners(), subscription_id@, extension_id@) ==> final(self).calls() == old(self).calls().push(
                BusCall::Unsubscribe { handle: subscription_id@, accepted: r is Ok },
            ),
    {
        KernelEventSubscriptionAdapter::unsubscribe_extension(self, extension_id, subscription_id)
    }
}

fn copy_scope(o: &Option<String>) -> (r: Option<String>)
    ensures
        opt_str_view(r) == opt_str_view(*o),
{
    match o {
        Some(s) => Some(owned(s.as_str())),
        None => None,
    }
}

/// Subscribing and then unsubscribing the same handle leaves every other
/// handle's owner as it was, and the handle itself unowned.
pub proof fn law_subscribe_then_unsubscribe(
    before: OwnersView,
    subscribed: OwnersView,
    after: OwnersView,
    id: Seq<char>,
    ext: Seq<char>,
)
    requires
        owns(subscribed, id, ext),
        agree_except(subscribed, before, id),
        !has_handle(after, id),
        agree_except(after, subscribed, id),
    ensures
        agree_except(after, before, id),
        forall|e: Seq<char>| !owns(after, id, e),
{
    assert forall|e: Seq<char>| !owns(after, id, e) by {
        if owns(after, id, e) {
            let i = choose|i: int| 0 <= i < after.len() && #[trigger] after[i] == (id, e);
            assert(after[i].0 == id);
        }
    }
}

} // verus!
