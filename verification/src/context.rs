//! Host-side capability services and the ledger of backend extension fibers.
//!
//! The host keeps one registry of named capability services shared with every
//! backend extension, and one fiber per installed backend extension. A
//! service is stored type-erased and read back as the type it was registered
//! as; a name that is not registered reads as absent, so callers fail closed.

use std::any::Any;
use std::sync::Arc;

use vstd::prelude::*;
use vstd::string::*;

use crate::text::{concat3, concat4, owned, str_eq};

verus! {

/// A capability port whose trait object type was erased on registration.
pub struct ErasedCapability<T: ?Sized> {
    value: Arc<T>,
}

impl<T: ?Sized> ErasedCapability<T> {
    pub closed spec fn view(&self) -> Arc<T> {
        self.value
    }

    pub fn new(value: Arc<T>) -> (r: Self)
        ensures
            r@ == value,
    {
        ErasedCapability { value }
    }

    pub fn inner(&self) -> (r: &Arc<T>)
        ensures
            *r == self@,
    {
        &self.value
    }
}

impl<T: ?Sized> Clone for ErasedCapability<T> {
    /// Another handle on the same port.
    fn clone(&self) -> (r: Self) {
        ErasedCapability { value: self.value.clone() }
    }
}

/// A service value whose concrete type is known only at run time, held
/// opaque: it is read back only by its name and requested type.
#[verifier::external_body]
pub struct ErasedService {
    value: Arc<dyn Any + Send + Sync>,
}

/// Stores a capability port type-erased.
///
/// Calls `Arc::new` on an `ErasedCapability<T>` and coerces it to
/// `Arc<dyn Any + Send + Sync>`. Nothing is claimed of the result.
#[verifier::external_body]
fn erase_capability<T: ?Sized + Send + Sync + 'static>(value: Arc<T>) -> ErasedService {
    ErasedService { value: Arc::new(ErasedCapability::new(value)) }
}

/// Reads a type-erased capability port back as `T`.
///
/// Calls `<dyn Any>::downcast_ref` on the stored service; the result is
/// the stored port when it was registered as `T`, else nothing. Which of the
/// two holds is not stated.
#[verifier::external_body]
fn restore_capability<T: ?Sized + Send + Sync + 'static>(stored: &ErasedService) -> Option<Arc<T>> {
    stored.value.downcast_ref::<ErasedCapability<T>>().map(|c| c.value.clone())
}

/// One named, type-erased service.
struct ServiceEntry {
    name: String,
    value: ErasedService,
}

/// Why a capability service could not be registered or read.
#[derive(Debug, Clone, PartialEq, Eq)]
pub enum CapabilityError {
    /// A service of that name exists already.
    Duplicate(String),
    /// No service of that name is registered.
    Missing(String),
    /// The service is registered with another type.
    WrongType(String),
}

impl CapabilityError {
    /// The description of the error, as a value.
    pub open spec fn text(&self) -> Seq<char> {
        match self {
            CapabilityError::Duplicate(name) => "failed to register capability service: service `"@ + name@
                + "` has been registered"@,
            CapabilityError::Missing(name) => "required capability service is unavailable: service `"@ + name@
                + "` is not registered"@,
            CapabilityError::WrongType(name) => "failed to read capability service: service `"@ + name@
                + "` has another type"@,
        }
    }

    pub fn to_string(&self) -> (r: String)
        ensures
            r@ == self.text(),
    {
        match self {
            CapabilityError::Duplicate(name) => concat3(
                "failed to register capability service: service `",
                name.as_str(),
                "` has been registered",
            ),
            CapabilityError::Missing(name) => concat3(
                "required capability service is unavailable: service `",
                name.as_str(),
                "` is not registered",
            ),
            CapabilityError::WrongType(name) => concat3(
                "failed to read capability service: service `",
                name.as_str(),
                "` has another type",
            ),
        }
    }
}

/// Owns the capability services and the fibers of backend extensions. A
/// fiber is held by the token the runtime gave it.
pub struct HostExtensionContext {
    services: Vec<ServiceEntry>,
    fibers: Vec<(String, u64)>,
}

pub open spec fn names_unique(names: Seq<Seq<char>>) -> bool {
    forall|i: int, j: int| 0 <= i < j < names.len() ==> names[i] != names[j]
}

spec fn service_names(s: Seq<ServiceEntry>) -> Seq<Seq<char>> {
    s.map_values(|e: ServiceEntry| e.name@)
}

/// Fibers as values: extension id and fiber token, in tracking order.
pub type FiberView = Seq<(Seq<char>, u64)>;

pub open spec fn fiber_ids(f: FiberView) -> Seq<Seq<char>> {
    f.map_values(|e: (Seq<char>, u64)| e.0)
}

/// The fiber tracked for `extension_id`, if any.
pub open spec fn fiber_of(f: FiberView, extension_id: Seq<char>) -> Option<u64>
    decreases f.len(),
{
    if f.len() == 0 {
        None
    } else if f.last().0 == extension_id {
        Some(f.last().1)
    } else {
        fiber_of(f.drop_last(), extension_id)
    }
}

/// The fibers without the one of `extension_id`.
pub open spec fn fibers_without(f: FiberView, extension_id: Seq<char>) -> FiberView
    decreases f.len(),
{
    if f.len() == 0 {
        Seq::empty()
    } else if f.last().0 == extension_id {
        fibers_without(f.drop_last(), extension_id)
    } else {
        fibers_without(f.drop_last(), extension_id).push(f.last())
    }
}

impl HostExtensionContext {
    /// The names of the registered services, in registration order.
    pub closed spec fn services(&self) -> Seq<Seq<char>> {
        service_names(self.services@)
    }

    pub closed spec fn fibers(&self) -> FiberView {
        self.fibers@.map_values(|e: (String, u64)| (e.0@, e.1))
    }

    pub closed spec fn wf(&self) -> bool {
        names_unique(service_names(self.services@)) && names_unique(fiber_ids(self.fibers()))
    }

    /// An empty host: no services, no fibers.
    pub fn new() -> (r: Self)
        ensures
            r.wf(),
            r.services() == Seq::<Seq<char>>::empty(),
            r.fibers() == Seq::<(Seq<char>, u64)>::empty(),
    {
        let r = HostExtensionContext { services: Vec::new(), fibers: Vec::new() };
        assert(r.services() =~= Seq::<Seq<char>>::empty());
        assert(r.fibers() =~= Seq::<(Seq<char>, u64)>::empty());
        r
    }

    fn service_index(&self, name: &str) -> (r: Option<usize>)
        ensures
            match r {
                Some(k) => k < self.services@.len() && self.services()[k as int] == name@,
                None => !self.services().contains(name@),
            },
    {
        let n = self.services.len();
        for i in 0..n
            invariant
                n == self.services@.len(),
                forall|j: int| 0 <= j < i ==> self.services()[j] != name@,
        {
            assert(self.services()[i as int] == self.services@[i as int].name@);
            if str_eq(self.services[i].name.as_str(), name) {
                return Some(i);
            }
        }
        None
    }

    /// Registers a capability port under `name`; a name can be registered
    /// once.
    pub fn register_capability_service<T: ?Sized + Send + Sync + 'static>(
        &mut self,
        name: &str,
        value: Arc<T>,
    ) -> (r: Result<(), CapabilityError>)
        requires
            old(self).wf(),
        ensures
            final(self).wf(),
            final(self).fibers() == old(self).fibers(),
            old(self).services().contains(name@) ==> (r matches Err(CapabilityError::Duplicate(n))
                && n@ == name@ && final(self).services() == old(self).services()),
            !old(self).services().contains(name@) ==> (r is Ok && final(self).services()
                == old(self).services().push(name@)),
    {
        if let Some(_) = self.service_index(name) {
            return Err(CapabilityError::Duplicate(owned(name)));
        }
        let ghost before = self.services@;
        self.services.push(ServiceEntry { name: owned(name), value: erase_capability(value) });
        proof {
            assert(service_names(self.services@) =~= service_names(before).push(name@));
        }
        Ok(())
    }

    /// Reads a capability port; a name that is not registered reads as
    /// `None`.
    pub fn get_capability_service<T: ?Sized + Send + Sync + 'static>(&self, name: &str) -> (r: Result<
        Option<Arc<T>>,
        CapabilityError,
    >)
        ensures
            !self.services().contains(name@) ==> r == Ok::<Option<Arc<T>>, CapabilityError>(None),
            self.services().contains(name@) ==> (r is Ok && r->Ok_0 is Some) || (r matches Err(
                CapabilityError::WrongType(n),
            ) && n@ == name@),
    {
        match self.service_index(name) {
            None => Ok(None),
            Some(k) => match restore_capability::<T>(&self.services[k].value) {
                Some(v) => Ok(Some(v)),
                None => Err(CapabilityError::WrongType(owned(name))),
            },
        }
    }

    /// Reads a capability port that must be registered.
    pub fn require_capability_service<T: ?Sized + Send + Sync + 'static>(&self, name: &str) -> (r:
        Result<Arc<T>, CapabilityError>)
        ensures
            !self.services().contains(name@) ==> (r matches Err(CapabilityError::Missing(n)) && n@
                == name@),
            self.services().contains(name@) ==> r is Ok || (r matches Err(CapabilityError::WrongType(n))
                && n@ == name@),
    {
        match self.get_capability_service::<T>(name) {
            Ok(Some(v)) => Ok(v),
            Ok(None) => Err(CapabilityError::Missing(owned(name))),
            Err(e) => Err(e),
        }
    }

    fn fiber_index(&self, extension_id: &str) -> (r: Option<usize>)
        ensures
            match r {
                Some(k) => k < self.fibers@.len() && self.fibers()[k as int].0 == extension_id@,
                None => forall|j: int| 0 <= j < self.fibers().len() ==> (#[trigger] self.fibers()[j]).0 != extension_id@,
            },
    {
        let n = self.fibers.len();
        for i in 0..n
            invariant
                n == self.fibers@.len(),
                forall|j: int| 0 <= j < i ==> (#[trigger] self.fibers()[j]).0 != extension_id@,
        {
            assert(self.fibers()[i as int] == (self.fibers@[i as int].0@, self.fibers@[i as int].1));
            if str_eq(self.fibers[i].0.as_str(), extension_id) {
                return Some(i);
            }
        }
        None
    }

    /// Takes the fiber tracked for `extension_id` out of the ledger without
    /// disposing it.
    pub fn take_extension_fiber(&mut self, extension_id: &str) -> (r: Option<u64>)
        requires
            old(self).wf(),
        ensures
            final(self).wf(),
            r == fiber_of(old(self).fibers(), extension_id@),
            final(self).fibers() == fibers_without(old(self).fibers(), extension_id@),
            final(self).services() == old(self).services(),
    {
        let ghost f = self.fibers();
        let r = match self.fiber_index(extension_id) {
            Some(k) => {
                proof {
                    lemma_fiber_of_unique(f, extension_id@, k as int);
                }
                Some(self.fibers[k].1)
            },
            None => {
                proof {
                    lemma_fiber_of_absent(f, extension_id@);
                }
                None
            },
        };
        let mut kept: Vec<(String, u64)> = Vec::new();
        let n = self.fibers.len();
        for i in 0..n
            invariant
                n == self.fibers@.len(),
                f == self.fibers(),
                kept@.map_values(|e: (String, u64)| (e.0@, e.1)) == fibers_without(f.subrange(0, i as int), extension_id@),
        {
            proof {
                assert(f.subrange(0, i + 1).drop_last() =~= f.subrange(0, i as int));
                assert(f[i as int] == (self.fibers@[i as int].0@, self.fibers@[i as int].1));
            }
            if !str_eq(self.fibers[i].0.as_str(), extension_id) {
                let ghost before = kept@;
                kept.push((owned(self.fibers[i].0.as_str()), self.fibers[i].1));
                proof {
                    assert(kept@.map_values(|e: (String, u64)| (e.0@, e.1)) =~= before.map_values(
                        |e: (String, u64)| (e.0@, e.1),
                    ).push(f[i as int]));
                }
            }
        }
        proof {
            assert(f.subrange(0, n as int) =~= f);
            lemma_fibers_without_unique(f, extension_id@);
        }
        self.fibers = kept;
        r
    }

    /// Tracks the fiber of a started extension; a fiber tracked before for
    /// the same extension is handed back for disposal.
    pub fn track_fiber(&mut self, extension_id: &str, fiber: u64) -> (r: Option<u64>)
        requires
            old(self).wf(),
        ensures
            final(self).wf(),
            r == fiber_of(old(self).fibers(), extension_id@),
            final(self).fibers() == fibers_without(old(self).fibers(), extension_id@).push((extension_id@, fiber)),
            final(self).services() == old(self).services(),
    {
        let previous = self.take_extension_fiber(extension_id);
        let ghost before = self.fibers@;
        proof {
            lemma_fibers_without_absent(old(self).fibers(), extension_id@);
        }
        self.fibers.push((owned(extension_id), fiber));
        proof {
            assert(self.fibers() =~= before.map_values(|e: (String, u64)| (e.0@, e.1)).push((extension_id@, fiber)));
            let w = fibers_without(old(self).fibers(), extension_id@);
            let t = self.fibers();
            assert forall|a: int, b: int| 0 <= a < b < fiber_ids(t).len() implies fiber_ids(t)[a] != fiber_ids(t)[b] by {
                if b == w.len() {
                    assert(w[a].0 != extension_id@);
                } else {
                    assert(fiber_ids(w)[a] != fiber_ids(w)[b]);
                }
            }
        }
        previous
    }

    /// Stops tracking the fiber of `extension_id` and hands it back for
    /// disposal; nothing when none is tracked.
    pub fn dispose_extension(&mut self, extension_id: &str) -> (r: Option<u64>)
        requires
            old(self).wf(),
        ensures
            final(self).wf(),
            r == fiber_of(old(self).fibers(), extension_id@),
            final(self).fibers() == fibers_without(old(self).fibers(), extension_id@),
            final(self).services() == old(self).services(),
    {
        self.take_extension_fiber(extension_id)
    }
}

/// What disposing the fiber of `extension_id` comes to: nothing to report
/// when no fiber was tracked or its disposal succeeded, else the disposal
/// error, prefixed with the extension it concerns.
pub fn disposal_outcome(extension_id: &str, disposed: Option<Result<(), String>>) -> (r: Result<(), String>)
    ensures
        match disposed {
            None => r is Ok,
            Some(Ok(_)) => r is Ok,
            Some(Err(e)) => r matches Err(m) && m@ == "failed to dispose extension `"@ + extension_id@ + "`: "@ + e@,
        },
{
    match disposed {
        Some(Err(e)) => Err(concat4("failed to dispose extension `", extension_id, "`: ", e.as_str())),
        _ => Ok(()),
    }
}

proof fn lemma_fiber_of_unique(f: FiberView, extension_id: Seq<char>, k: int)
    requires
        names_unique(fiber_ids(f)),
        0 <= k < f.len(),
        f[k].0 == extension_id,
    ensures
        fiber_of(f, extension_id) == Some(f[k].1),
    decreases f.len(),
{
    if k < f.len() - 1 {
        let p = f.drop_last();
        assert(fiber_ids(f)[k] != fiber_ids(f)[f.len() - 1]);
        assert(names_unique(fiber_ids(p))) by {
            assert forall|i: int, j: int| 0 <= i < j < fiber_ids(p).len() implies fiber_ids(p)[i] != fiber_ids(p)[j] by {
                assert(fiber_ids(f)[i] != fiber_ids(f)[j]);
            }
        }
        lemma_fiber_of_unique(p, extension_id, k);
    }
}

proof fn lemma_fiber_of_absent(f: FiberView, extension_id: Seq<char>)
    requires
        forall|j: int| 0 <= j < f.len() ==> (#[trigger] f[j]).0 != extension_id,
    ensures
        fiber_of(f, extension_id) is None,
    decreases f.len(),
{
    if f.len() > 0 {
        assert(f[f.len() - 1].0 != extension_id);
        lemma_fiber_of_absent(f.drop_last(), extension_id);
    }
}

/// Removal keeps the other fibers, each once.
proof fn lemma_fibers_without_unique(f: FiberView, extension_id: Seq<char>)
    requires
        names_unique(fiber_ids(f)),
    ensures
        names_unique(fiber_ids(fibers_without(f, extension_id))),
        forall|k: int| 0 <= k < fibers_without(f, extension_id).len() ==> exists|j: int| 0 <= j < f.len() && f[j] == #[trigger] fibers_without(f, extension_id)[k],
    decreases f.len(),
{
    if f.len() > 0 {
        let p = f.drop_last();
        assert(names_unique(fiber_ids(p))) by {
            assert forall|i: int, j: int| 0 <= i < j < fiber_ids(p).len() implies fiber_ids(p)[i] != fiber_ids(p)[j] by {
                assert(fiber_ids(f)[i] != fiber_ids(f)[j]);
            }
        }
        lemma_fibers_without_unique(p, extension_id);
        let w = fibers_without(f, extension_id);
        let wp = fibers_without(p, extension_id);
        assert forall|k: int| 0 <= k < w.len() implies exists|j: int| 0 <= j < f.len() && f[j] == #[trigger] w[k] by {
            if k < wp.len() {
                assert(w[k] == wp[k]);
                let j = choose|j: int| 0 <= j < p.len() && p[j] == #[trigger] wp[k];
                assert(f[j] == p[j]);
            } else {
                assert(f[f.len() - 1] == w[k]);
            }
        }
        if f.last().0 != extension_id {
            assert forall|a: int, b: int| 0 <= a < b < fiber_ids(w).len() implies fiber_ids(w)[a] != fiber_ids(w)[b] by {
                if b < wp.len() {
                    assert(fiber_ids(wp)[a] != fiber_ids(wp)[b]);
                } else {
                    let j = choose|j: int| 0 <= j < p.len() && p[j] == #[trigger] wp[a];
                    assert(fiber_ids(f)[j] != fiber_ids(f)[f.len() - 1]);
                }
            }
        }
    }
}

proof fn lemma_fibers_without_absent(f: FiberView, extension_id: Seq<char>)
    ensures
        forall|k: int| 0 <= k < fibers_without(f, extension_id).len() ==> (#[trigger] fibers_without(f, extension_id)[k]).0 != extension_id,
    decreases f.len(),
{
    if f.len() > 0 {
        lemma_fibers_without_absent(f.drop_last(), extension_id);
        let w = fibers_without(f, extension_id);
        let wp = fibers_without(f.drop_last(), extension_id);
        assert forall|k: int| 0 <= k < w.len() implies (#[trigger] w[k]).0 != extension_id by {
            if k < wp.len() {
                assert(w[k] == wp[k]);
            }
        }
    }
}

/// Resolves an optional capability port of `host`; absent when not
/// registered, so the caller fails closed.
pub fn resolve_capability<T: ?Sized + Send + Sync + 'static>(host: &HostExtensionContext, name: &str) -> (r: Result<Option<Arc<T>>, CapabilityError>)
    ensures
        !host.services().contains(name@) ==> r == Ok::<Option<Arc<T>>, CapabilityError>(None),
        host.services().contains(name@) ==> (r is Ok && r->Ok_0 is Some) || (r matches Err(
            CapabilityError::WrongType(n),
        ) && n@ == name@),
{
    host.get_capability_service::<T>(name)
}

impl Default for HostExtensionContext {
    fn default() -> (r: Self)
        ensures
            r.wf(),
            r.services() == Seq::<Seq<char>>::empty(),
            r.fibers() == Seq::<(Seq<char>, u64)>::empty(),
    {
        HostExtensionContext::new()
    }
}

} // verus!
