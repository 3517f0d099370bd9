//! What a WebAssembly component may ask of its host. A component declares
//! its capabilities; every host call is checked against them and refused
//! when not granted.

use vstd::prelude::*;

use crate::models::{ComponentCapabilities, ComponentKind, ComponentRegistration, ExtensionStatus};
use crate::operation::{
    enabled_error, ensure_extension_enabled, lookup, of_extension, require_allowed, CheckResult,
    OperationRegistration, OperationRegistry, OperationRequest, OperationType,
};
use crate::duplicate::Duplicate;
use crate::apply::ComponentHostPort;
use crate::lexical::{lemma_lex_irreflexive, lemma_lex_total, lemma_lex_transitive, lex_lt, str_lt};
use crate::seqs::views;
use crate::text::{concat, concat3, concat5, concat7, owned, starts_with, str_eq, substring};

verus! {

/// The refusal of a capability a component was not granted.
pub open spec fn not_granted(component_id: Seq<char>, what: Seq<char>, value: Seq<char>) -> Seq<char> {
    "Component '"@ + component_id + what + value + "'"@
}

fn refuse(component_id: &str, what: &str, value: &str) -> (r: String)
    ensures
        r@ == not_granted(component_id@, what@, value@),
{
    concat5("Component '", component_id, what, value, "'")
}

/// Whether `pattern` is covered by the granted pattern `allowed`: a
/// trailing `*` grants every pattern starting with what precedes it;
/// otherwise only the pattern itself is granted.
pub open spec fn pattern_granted(allowed: Seq<char>, pattern: Seq<char>) -> bool {
    if allowed.len() > 0 && allowed.last() == '*' {
        allowed.drop_last().is_prefix_of(pattern)
    } else {
        pattern == allowed
    }
}

/// Some granted pattern of `allowed` covers `pattern`.
pub open spec fn event_granted(allowed: Seq<String>, pattern: Seq<char>) -> bool {
    exists|i: int| 0 <= i < allowed.len() && pattern_granted(#[trigger] allowed[i]@, pattern)
}

fn listed(items: &Vec<String>, x: &str) -> (r: bool)
    ensures
        r == views(items@).contains(x@),
{
    crate::seqs::contains_text(items, x)
}

/// A component may invoke `action` only when its invoke list names it.
pub fn ensure_invoke(component_id: &str, capabilities: &ComponentCapabilities, action: &str) -> (r: Result<
    (),
    String,
>)
    ensures
        views(capabilities.invoke@).contains(action@) ==> r is Ok,
        !views(capabilities.invoke@).contains(action@) ==> (r matches Err(e) && e@ == not_granted(
            component_id@,
            "' not granted invoke capability '"@,
            action@,
        )),
{
    if listed(&capabilities.invoke, action) {
        Ok(())
    } else {
        Err(refuse(component_id, "' not granted invoke capability '", action))
    }
}

/// A component may use storage `scope` only when its storage list names it.
pub fn ensure_storage_scope(component_id: &str, capabilities: &ComponentCapabilities, scope: &str) -> (r:
    Result<(), String>)
    ensures
        views(capabilities.storage@).contains(scope@) ==> r is Ok,
        !views(capabilities.storage@).contains(scope@) ==> (r matches Err(e) && e@ == not_granted(
            component_id@,
            "' not granted storage scope '"@,
            scope@,
        )),
{
    if listed(&capabilities.storage, scope) {
        Ok(())
    } else {
        Err(refuse(component_id, "' not granted storage scope '", scope))
    }
}

fn pattern_matches(allowed: &str, pattern: &str) -> (r: bool)
    ensures
        r == pattern_granted(allowed@, pattern@),
{
    let n = allowed.unicode_len();
    if n > 0 && allowed.get_char(n - 1) == '*' {
        let prefix = substring(allowed, 0, n - 1);
        proof {
            assert(prefix@ =~= allowed@.drop_last());
        }
        starts_with(pattern, prefix.as_str())
    } else {
        str_eq(pattern, allowed)
    }
}

/// A component may subscribe to or emit `pattern` only when one of its
/// granted event patterns covers it.
pub fn ensure_event_pattern(component_id: &str, capabilities: &ComponentCapabilities, pattern: &str) -> (r:
    Result<(), String>)
    ensures
        event_granted(capabilities.events@, pattern@) ==> r is Ok,
        !event_granted(capabilities.events@, pattern@) ==> (r matches Err(e) && e@ == not_granted(
            component_id@,
            "' not granted event pattern '"@,
            pattern@,
        )),
{
    let n = capabilities.events.len();
    for i in 0..n
        invariant
            n == capabilities.events@.len(),
            forall|j: int| 0 <= j < i ==> !pattern_granted(#[trigger] capabilities.events@[j]@, pattern@),
    {
        if pattern_matches(capabilities.events[i].as_str(), pattern) {
            return Ok(());
        }
    }
    Err(refuse(component_id, "' not granted event pattern '", pattern))
}

/// A component may reach the network only when it declares a network capability.
pub fn ensure_network(component_id: &str, capabilities: &ComponentCapabilities) -> (r: Result<(), String>)
    ensures
        capabilities.network is Some ==> r is Ok,
        capabilities.network is None ==> (r matches Err(e) && e@ == "Component '"@ + component_id@
            + "' network capability not granted"@),
{
    if capabilities.network.is_some() {
        Ok(())
    } else {
        Err(concat3("Component '", component_id, "' network capability not granted"))
    }
}

/// Why a component may not run operation `operation_id` on behalf of
/// `extension_id`, checked in order: the invoke capability, the extension
/// being enabled, the operation being registered, and it belonging to the
/// same extension.
pub open spec fn execute_refusal(
    component_id: Seq<char>,
    extension_id: Seq<char>,
    capabilities: ComponentCapabilities,
    status: Option<ExtensionStatus>,
    operations: Seq<OperationRegistration>,
    operation_id: Seq<char>,
) -> Option<Seq<char>> {
    if !views(capabilities.invoke@).contains("operation.execute"@) {
        Some(not_granted(component_id, "' not granted invoke capability '"@, "operation.execute"@))
    } else if enabled_error(status, extension_id) is Some {
        enabled_error(status, extension_id)
    } else {
        match lookup(operations, operation_id) {
            None => Some("Operation '"@ + operation_id + "' is not registered"@),
            Some(op) => if op.extension_id@ != extension_id {
                Some(
                    "Operation '"@ + op.id@ + "' belongs to extension '"@ + op.extension_id@ + "', not '"@
                        + extension_id + "'"@,
                )
            } else {
                None
            },
        }
    }
}

/// Checks that a component may run an operation on behalf of its extension
/// and gives back the operation's registration; the sandbox check of the
/// operation comes after.
pub fn component_execute_gate(
    component_id: &str,
    extension_id: &str,
    capabilities: &ComponentCapabilities,
    status: Option<ExtensionStatus>,
    registry: &OperationRegistry,
    operation_id: &str,
) -> (r: Result<OperationRegistration, String>)
    requires
        registry.wf(),
    ensures
        match execute_refusal(component_id@, extension_id@, *capabilities, status, registry@, operation_id@) {
            Some(m) => r matches Err(e) && e@ == m,
            None => r matches Ok(op) && Some(op) == lookup(registry@, operation_id@),
        },
{
    let r = ensure_invoke(component_id, capabilities, "operation.execute");
    if let Err(e) = r {
        return Err(e);
    }
    let r = ensure_extension_enabled(status, extension_id);
    if let Err(e) = r {
        return Err(e);
    }
    match registry.get(operation_id) {
        None => Err(concat3("Operation '", operation_id, "' is not registered")),
        Some(op) => {
            if !str_eq(op.extension_id.as_str(), extension_id) {
                let tail = concat3(extension_id, "'", "");
                proof {
                    reveal_strlit("");
                    assert(tail@ =~= extension_id@ + "'"@);
                }
                return Err(
                    concat7(
                        "Operation '",
                        op.id.as_str(),
                        "' belongs to extension '",
                        op.extension_id.as_str(),
                        "', not '",
                        tail.as_str(),
                        "",
                    ),
                );
            }
            Ok(op)
        },
    }
}

/// An operation as a component sees it.
#[derive(Debug, Clone, PartialEq)]
pub struct OperationDescription {
    pub id: String,
    pub label: String,
}

/// How each operation is described to a component.
pub open spec fn descriptions(ops: Seq<OperationRegistration>) -> Seq<OperationDescription> {
    ops.map_values(|op: OperationRegistration| OperationDescription { id: op.id, label: op.label })
}

/// The operations of `extension_id` a component may see: none unless it
/// may invoke `operation.list`.
pub fn component_list_operations(
    component_id: &str,
    extension_id: &str,
    capabilities: &ComponentCapabilities,
    registry: &OperationRegistry,
) -> (r: Vec<OperationDescription>)
    requires
        registry.wf(),
    ensures
        !views(capabilities.invoke@).contains("operation.list"@) ==> r@.len() == 0,
        views(capabilities.invoke@).contains("operation.list"@) ==> r@ == descriptions(
            of_extension(registry@, extension_id@),
        ),
{
    if ensure_invoke(component_id, capabilities, "operation.list").is_err() {
        return Vec::new();
    }
    let ops = registry.list(Some(extension_id));
    let mut out: Vec<OperationDescription> = Vec::new();
    let n = ops.len();
    let mut i: usize = 0;
    while i < n
        invariant
            i <= n,
            n == ops@.len(),
            out@.len() == i,
            forall|j: int| 0 <= j < i ==> #[trigger] out@[j] == descriptions(ops@)[j],
        decreases n - i,
    {
        let ghost prev = out@;
        let d = OperationDescription { id: ops[i].id.clone(), label: ops[i].label.clone() };
        out.push(d);
        proof {
            assert forall|j: int| 0 <= j < i + 1 implies #[trigger] out@[j] == descriptions(ops@)[j] by {
                if j < i {
                    assert(out@[j] == prev[j]);
                }
            }
        }
        i = i + 1;
    }
    proof {
        assert(out@ =~= descriptions(ops@));
    }
    out
}

// ---------------------------------------------------------------------------
// Loading
// ---------------------------------------------------------------------------

/// The name a component is known by in the registry: `extension:component`.
pub open spec fn component_key_text(extension_id: Seq<char>, component_id: Seq<char>) -> Seq<char> {
    extension_id + ":"@ + component_id
}

/// Why a declared component may not be loaded: its extension must be
/// enabled, and only logic components run in the component registry.
pub open spec fn load_refusal(
    extension_id: Seq<char>,
    component: ComponentRegistration,
    status: Option<ExtensionStatus>,
) -> Option<Seq<char>> {
    if enabled_error(status, extension_id) is Some {
        enabled_error(status, extension_id)
    } else if component.kind != ComponentKind::Logic {
        Some(
            "Component '"@ + component_key_text(extension_id, component.id@)
                + "' kind 'native' is not supported by the component registry; use backendServices"@,
        )
    } else {
        None
    }
}

/// Checks that a declared component may be loaded for `extension_id`.
pub fn component_load_gate(
    extension_id: &str,
    component: &ComponentRegistration,
    status: Option<ExtensionStatus>,
) -> (r: Result<(), String>)
    ensures
        match load_refusal(extension_id@, *component, status) {
            Some(m) => r matches Err(e) && e@ == m,
            None => r is Ok,
        },
{
    let r = ensure_extension_enabled(status, extension_id);
    if let Err(e) = r {
        return Err(e);
    }
    match component.kind {
        ComponentKind::Logic => Ok(()),
        ComponentKind::Native => {
            let key = concat3(extension_id, ":", component.id.as_str());
            Err(
                concat3(
                    "Component '",
                    key.as_str(),
                    "' kind 'native' is not supported by the component registry; use backendServices",
                ),
            )
        },
    }
}

/// The sandbox request for loading a component file: running it, by its
/// path, on behalf of the extension.
pub fn component_load_request(extension_id: &str, entry_path: &str) -> (r: OperationRequest)
    ensures
        r.operation_type == OperationType::CommandExecute,
        r.target@ == entry_path@,
        r.actor@ == "extension:"@ + extension_id@,
        r.session_id is None,
        r.worktree is None,
{
    OperationRequest {
        operation_type: OperationType::CommandExecute,
        target: owned(entry_path),
        actor: concat("extension:", extension_id),
        session_id: None,
        worktree: None,
    }
}

/// The name a sandbox refusal of a component load is reported under.
pub fn component_load_operation(extension_id: &str, component_id: &str) -> (r: String)
    ensures
        r@ == "component.load:"@ + component_key_text(extension_id@, component_id@),
{
    let key = concat3(extension_id, ":", component_id);
    let r = concat("component.load:", key.as_str());
    proof {
        assert(r@ =~= "component.load:"@ + component_key_text(extension_id@, component_id@));
    }
    r
}

// ---------------------------------------------------------------------------
// The table of loaded components
// ---------------------------------------------------------------------------

/// `(extension, component)` keys in order: by extension id, then by
/// component id.
pub open spec fn key_lt(a: (Seq<char>, Seq<char>), b: (Seq<char>, Seq<char>)) -> bool {
    lex_lt(a.0, b.0) || (a.0 == b.0 && lex_lt(a.1, b.1))
}

proof fn lemma_key_transitive(a: (Seq<char>, Seq<char>), b: (Seq<char>, Seq<char>), c: (Seq<char>, Seq<char>))
    requires
        key_lt(a, b),
        key_lt(b, c),
    ensures
        key_lt(a, c),
{
    if lex_lt(a.0, b.0) && lex_lt(b.0, c.0) {
        lemma_lex_transitive(a.0, b.0, c.0);
    } else if lex_lt(a.1, b.1) && lex_lt(b.1, c.1) && a.0 == b.0 && b.0 == c.0 {
        lemma_lex_transitive(a.1, b.1, c.1);
    }
}

proof fn lemma_key_total(a: (Seq<char>, Seq<char>), b: (Seq<char>, Seq<char>))
    requires
        a != b,
    ensures
        key_lt(a, b) || key_lt(b, a),
{
    if a.0 != b.0 {
        lemma_lex_total(a.0, b.0);
    } else {
        lemma_lex_total(a.1, b.1);
    }
}

proof fn lemma_key_irreflexive(a: (Seq<char>, Seq<char>))
    ensures
        !key_lt(a, a),
{
    lemma_lex_irreflexive(a.0);
    lemma_lex_irreflexive(a.1);
}

/// One loaded component: its extension, its id, and what the host keeps for it.
#[derive(Debug)]
pub struct ComponentSlot<T> {
    pub extension_id: String,
    pub component_id: String,
    pub value: T,
}

impl<T> ComponentSlot<T> {
    pub open spec fn key(&self) -> (Seq<char>, Seq<char>) {
        (self.extension_id@, self.component_id@)
    }
}

/// Slots strictly ordered by key, so no key appears twice.
pub open spec fn keys_sorted<T>(s: Seq<ComponentSlot<T>>) -> bool {
    forall|i: int, j: int| 0 <= i < j < s.len() ==> key_lt(#[trigger] s[i].key(), #[trigger] s[j].key())
}

/// Some slot of `s` has key `k`.
pub open spec fn has_key<T>(s: Seq<ComponentSlot<T>>, k: (Seq<char>, Seq<char>)) -> bool {
    exists|i: int| 0 <= i < s.len() && (#[trigger] s[i]).key() == k
}

/// The slots of `s` that belong to `extension_id`, in order.
pub open spec fn slots_of<T>(s: Seq<ComponentSlot<T>>, extension_id: Seq<char>) -> Seq<ComponentSlot<T>>
    decreases s.len(),
{
    if s.len() == 0 {
        Seq::empty()
    } else if s.last().extension_id@ == extension_id {
        slots_of(s.drop_last(), extension_id).push(s.last())
    } else {
        slots_of(s.drop_last(), extension_id)
    }
}

/// The slots of `s` that do not belong to `extension_id`, in order.
pub open spec fn slots_without<T>(s: Seq<ComponentSlot<T>>, extension_id: Seq<char>) -> Seq<ComponentSlot<T>>
    decreases s.len(),
{
    if s.len() == 0 {
        Seq::empty()
    } else if s.last().extension_id@ == extension_id {
        slots_without(s.drop_last(), extension_id)
    } else {
        slots_without(s.drop_last(), extension_id).push(s.last())
    }
}

/// The loaded components, one per `(extension, component)` key, in key order.
#[derive(Debug)]
pub struct ComponentTable<T> {
    slots: Vec<ComponentSlot<T>>,
}

impl<T> ComponentTable<T> {
    pub closed spec fn view(&self) -> Seq<ComponentSlot<T>> {
        self.slots@
    }

    pub closed spec fn wf(&self) -> bool {
        keys_sorted(self.slots@)
    }

    pub fn new() -> (r: Self)
        ensures
            r.wf(),
            r@.len() == 0,
    {
        ComponentTable { slots: Vec::new() }
    }

    /// Where the key would go: the first slot not below it.
    fn position(&self, extension_id: &str, component_id: &str) -> (k: usize)
        requires
            self.wf(),
        ensures
            k <= self@.len(),
            forall|j: int| 0 <= j < k ==> key_lt(#[trigger] self@[j].key(), (extension_id@, component_id@)),
            k < self@.len() ==> !key_lt(self@[k as int].key(), (extension_id@, component_id@)),
    {
        let n = self.slots.len();
        let mut k: usize = 0;
        while k < n
            invariant
                n == self@.len(),
                k <= n,
                forall|j: int| 0 <= j < k ==> key_lt(#[trigger] self@[j].key(), (extension_id@, component_id@)),
            decreases n - k,
        {
            let slot = &self.slots[k];
            let below = str_lt(slot.extension_id.as_str(), extension_id) || (str_eq(
                slot.extension_id.as_str(),
                extension_id,
            ) && str_lt(slot.component_id.as_str(), component_id));
            if !below {
                return k;
            }
            k = k + 1;
        }
        k
    }

    /// Whether a component is loaded under the key.
    pub fn contains(&self, extension_id: &str, component_id: &str) -> (r: bool)
        requires
            self.wf(),
        ensures
            r == has_key(self@, (extension_id@, component_id@)),
    {
        let k = self.position(extension_id, component_id);
        let ghost key = (extension_id@, component_id@);
        proof {
            if has_key(self@, key) {
                let i = choose|i: int| 0 <= i < self@.len() && (#[trigger] self@[i]).key() == key;
                if i < k {
                    lemma_key_irreflexive(key);
                } else if i > k {
                    lemma_key_total(key, self@[k as int].key());
                    if self@[k as int].key() != key {
                        lemma_key_transitive(key, self@[k as int].key(), self@[i].key());
                        lemma_key_irreflexive(key);
                    }
                }
            }
        }
        k < self.slots.len() && str_eq(self.slots[k].extension_id.as_str(), extension_id) && str_eq(
            self.slots[k].component_id.as_str(),
            component_id,
        )
    }

    /// Adds a loaded component; a key already loaded is refused.
    pub fn insert(&mut self, extension_id: &str, component_id: &str, value: T) -> (r: Result<(), String>)
        requires
            old(self).wf(),
        ensures
            final(self).wf(),
            has_key(old(self)@, (extension_id@, component_id@)) ==> (r matches Err(e) && e@ == "Component '"@
                + component_key_text(extension_id@, component_id@) + "' is already loaded"@
                && final(self)@ == old(self)@),
            !has_key(old(self)@, (extension_id@, component_id@)) ==> (r is Ok && exists|k: int|
                0 <= k <= old(self)@.len() && (#[trigger] final(self)@[k]).key() == (extension_id@, component_id@)
                    && final(self)@[k].value == value && final(self)@ == old(self)@.insert(k, final(self)@[k])),
    {
        if self.contains(extension_id, component_id) {
            let key = concat3(extension_id, ":", component_id);
            return Err(concat3("Component '", key.as_str(), "' is already loaded"));
        }
        let k = self.position(extension_id, component_id);
        let ghost s = self.slots@;
        let ghost key = (extension_id@, component_id@);
        proof {
            assert forall|j: int| k < j < s.len() implies key_lt(key, #[trigger] s[j].key()) by {
                lemma_key_total(key, s[k as int].key());
                assert(s[k as int].key() != key);
                lemma_key_transitive(key, s[k as int].key(), s[j].key());
            }
            if k < s.len() {
                assert(s[k as int].key() != key);
                lemma_key_total(key, s[k as int].key());
            }
        }
        let slot = ComponentSlot { extension_id: owned(extension_id), component_id: owned(component_id), value };
        self.slots.insert(k, slot);
        proof {
            let t = self.slots@;
            assert forall|i: int, j: int| 0 <= i < j < t.len() implies key_lt(#[trigger] t[i].key(), #[trigger] t[j].key()) by {
                if j < k {
                    assert(t[i] == s[i] && t[j] == s[j]);
                } else if j == k {
                    assert(t[i] == s[i]);
                } else if i < k {
                    assert(t[i] == s[i] && t[j] == s[j - 1]);
                    if j - 1 > k {
                        lemma_key_transitive(s[i].key(), key, s[j - 1].key());
                    } else {
                        lemma_key_transitive(s[i].key(), key, s[j - 1].key());
                    }
                } else if i == k {
                    assert(t[j] == s[j - 1]);
                } else {
                    assert(t[i] == s[i - 1] && t[j] == s[j - 1]);
                }
            }
            assert(t[k as int].key() == key);
            assert(t =~= s.insert(k as int, t[k as int]));
            assert(self@ == t);
            assert(0 <= k <= s.len() && self@[k as int].key() == key && self@[k as int].value == value
                && self@ == s.insert(k as int, self@[k as int]));
        }
        Ok(())
    }

    /// What the host keeps for a loaded component.
    pub fn get(&self, extension_id: &str, component_id: &str) -> (r: Option<&T>)
        requires
            self.wf(),
        ensures
            match r {
                Some(v) => exists|i: int|
                    0 <= i < self@.len() && (#[trigger] self@[i]).key() == (extension_id@, component_id@)
                        && self@[i].value == *v,
                None => !has_key(self@, (extension_id@, component_id@)),
            },
    {
        if !self.contains(extension_id, component_id) {
            return None;
        }
        let k = self.position(extension_id, component_id);
        proof {
            let key = (extension_id@, component_id@);
            let i = choose|i: int| 0 <= i < self@.len() && (#[trigger] self@[i]).key() == key;
            if i < k {
                lemma_key_irreflexive(key);
            } else if i > k {
                lemma_key_total(key, self@[k as int].key());
                if self@[k as int].key() != key {
                    lemma_key_transitive(key, self@[k as int].key(), self@[i].key());
                    lemma_key_irreflexive(key);
                }
            }
        }
        Some(&self.slots[k].value)
    }

    /// Takes a loaded component out; an unknown key is refused.
    pub fn remove(&mut self, extension_id: &str, component_id: &str) -> (r: Result<T, String>)
        requires
            old(self).wf(),
        ensures
            final(self).wf(),
            !has_key(old(self)@, (extension_id@, component_id@)) ==> (r matches Err(e) && e@ == "Component '"@
                + component_key_text(extension_id@, component_id@) + "' is not loaded"@
                && final(self)@ == old(self)@),
            has_key(old(self)@, (extension_id@, component_id@)) ==> (r matches Ok(v) && exists|i: int|
                0 <= i < old(self)@.len() && (#[trigger] old(self)@[i]).key() == (extension_id@, component_id@)
                    && old(self)@[i].value == v && final(self)@ == old(self)@.remove(i)),
    {
        if !self.contains(extension_id, component_id) {
            let key = concat3(extension_id, ":", component_id);
            return Err(concat3("Component '", key.as_str(), "' is not loaded"));
        }
        let k = self.position(extension_id, component_id);
        let ghost s = self.slots@;
        proof {
            let key = (extension_id@, component_id@);
            let i = choose|i: int| 0 <= i < s.len() && (#[trigger] s[i]).key() == key;
            if i < k {
                lemma_key_irreflexive(key);
            } else if i > k {
                lemma_key_total(key, s[k as int].key());
                if s[k as int].key() != key {
                    lemma_key_transitive(key, s[k as int].key(), s[i].key());
                    lemma_key_irreflexive(key);
                }
            }
        }
        let slot = self.slots.remove(k);
        proof {
            let t = self.slots@;
            assert forall|i: int, j: int| 0 <= i < j < t.len() implies key_lt(#[trigger] t[i].key(), #[trigger] t[j].key()) by {
                if j < k {
                    assert(t[i] == s[i] && t[j] == s[j]);
                } else if i < k {
                    assert(t[i] == s[i] && t[j] == s[j + 1]);
                } else {
                    assert(t[i] == s[i + 1] && t[j] == s[j + 1]);
                }
            }
            assert(s[k as int].key() == (extension_id@, component_id@));
        }
        Ok(slot.value)
    }

    /// Takes out every component of `extension_id`, in key order.
    pub fn remove_all_for_extension(&mut self, extension_id: &str) -> (r: Vec<T>)
        requires
            old(self).wf(),
        ensures
            final(self).wf(),
            final(self)@ == slots_without(old(self)@, extension_id@),
            r@ == slots_of(old(self)@, extension_id@).map_values(|x: ComponentSlot<T>| x.value),
    {
        let ghost s = self.slots@;
        let mut kept: Vec<ComponentSlot<T>> = Vec::new();
        let mut removed: Vec<T> = Vec::new();
        let mut all: Vec<ComponentSlot<T>> = Vec::new();
        std::mem::swap(&mut all, &mut self.slots);
        let n = all.len();
        let mut i: usize = 0;
        while i < n
            invariant
                n == s.len(),
                i <= n,
                all@.len() == n - i,
                forall|k: int| 0 <= k < all@.len() ==> all@[k] == s[k + i],
                kept@ == slots_without(s.subrange(0, i as int), extension_id@),
                removed@ == slots_of(s.subrange(0, i as int), extension_id@).map_values(|x: ComponentSlot<T>| x.value),
            decreases n - i,
        {
            let slot = all.remove(0);
            proof {
                assert(slot == s[i as int]);
                assert(s.subrange(0, i + 1).drop_last() =~= s.subrange(0, i as int));
                assert(s.subrange(0, i + 1).last() == s[i as int]);
            }
            if str_eq(slot.extension_id.as_str(), extension_id) {
                let ghost prev = removed@;
                removed.push(slot.value);
                proof {
                    assert(removed@ =~= slots_of(s.subrange(0, i + 1), extension_id@).map_values(
                        |x: ComponentSlot<T>| x.value,
                    ));
                }
            } else {
                kept.push(slot);
            }
            i = i + 1;
        }
        proof {
            assert(s.subrange(0, n as int) =~= s);
            lemma_without_sorted(s, extension_id@);
        }
        self.slots = kept;
        removed
    }

    /// The keys of the loaded components, in key order; those of one
    /// extension when `extension_id` is given.
    pub fn list(&self, extension_id: Option<&str>) -> (r: Vec<(String, String)>)
        ensures
            r@.map_values(|p: (String, String)| (p.0@, p.1@)) == match extension_id {
                None => self@.map_values(|x: ComponentSlot<T>| x.key()),
                Some(e) => slots_of(self@, e@).map_values(|x: ComponentSlot<T>| x.key()),
            },
    {
        let ghost s = self.slots@;
        let mut out: Vec<(String, String)> = Vec::new();
        let n = self.slots.len();
        let mut i: usize = 0;
        while i < n
            invariant
                n == s.len(),
                s == self@,
                i <= n,
                out@.map_values(|p: (String, String)| (p.0@, p.1@)) == match extension_id {
                    None => s.subrange(0, i as int).map_values(|x: ComponentSlot<T>| x.key()),
                    Some(e) => slots_of(s.subrange(0, i as int), e@).map_values(|x: ComponentSlot<T>| x.key()),
                },
            decreases n - i,
        {
            let slot = &self.slots[i];
            proof {
                assert(s.subrange(0, i + 1).drop_last() =~= s.subrange(0, i as int));
                assert(s.subrange(0, i + 1).last() == s[i as int]);
                assert(s.subrange(0, i + 1) =~= s.subrange(0, i as int).push(s[i as int]));
            }
            let wanted = match extension_id {
                None => true,
                Some(e) => str_eq(slot.extension_id.as_str(), e),
            };
            let ghost prev = out@;
            if wanted {
                out.push((owned(slot.extension_id.as_str()), owned(slot.component_id.as_str())));
                proof {
                    assert(out@.map_values(|p: (String, String)| (p.0@, p.1@)) =~= prev.map_values(
                        |p: (String, String)| (p.0@, p.1@),
                    ).push(s[i as int].key()));
                }
            }
            proof {
                match extension_id {
                    None => {
                        assert(s.subrange(0, i + 1).map_values(|x: ComponentSlot<T>| x.key()) =~= s.subrange(
                            0,
                            i as int,
                        ).map_values(|x: ComponentSlot<T>| x.key()).push(s[i as int].key()));
                    },
                    Some(e) => {},
                }
            }
            i = i + 1;
        }
        proof {
            assert(s.subrange(0, n as int) =~= s);
        }
        out
    }
}

/// Removing a component just loaded undoes the load: when `t` is `s` with
/// a slot for `key` inserted at `k`, and the table stays ordered, removing
/// the slot with `key` from `t` gives back `s`.
pub proof fn law_insert_then_remove<T>(
    s: Seq<ComponentSlot<T>>,
    t: Seq<ComponentSlot<T>>,
    k: int,
    i: int,
    key: (Seq<char>, Seq<char>),
)
    requires
        0 <= k <= s.len(),
        t == s.insert(k, t[k]),
        t[k].key() == key,
        keys_sorted(t),
        0 <= i < t.len(),
        t[i].key() == key,
    ensures
        t.remove(i) == s,
{
    if i != k {
        if i < k {
            assert(key_lt(t[i].key(), t[k].key()));
        } else {
            assert(key_lt(t[k].key(), t[i].key()));
        }
        lemma_key_irreflexive(key);
    }
    assert(t.remove(k) =~= s);
}

/// Dropping an extension's slots keeps the rest in order.
proof fn lemma_without_sorted<T>(s: Seq<ComponentSlot<T>>, extension_id: Seq<char>)
    requires
        keys_sorted(s),
    ensures
        keys_sorted(slots_without(s, extension_id)),
        forall|k: int|
            0 <= k < slots_without(s, extension_id).len() ==> exists|j: int|
                0 <= j < s.len() && s[j] == #[trigger] slots_without(s, extension_id)[k],
    decreases s.len(),
{
    if s.len() > 0 {
        let p = s.drop_last();
        assert forall|i: int, j: int| 0 <= i < j < p.len() implies key_lt(#[trigger] p[i].key(), #[trigger] p[j].key()) by {
            assert(p[i] == s[i] && p[j] == s[j]);
        }
        lemma_without_sorted(p, extension_id);
        let w = slots_without(s, extension_id);
        let wp = slots_without(p, extension_id);
        assert forall|k: int| 0 <= k < wp.len() implies exists|j: int| 0 <= j < s.len() && s[j] == #[trigger] wp[k] by {
            let j = choose|j: int| 0 <= j < p.len() && p[j] == wp[k];
            assert(s[j] == p[j]);
        }
        if s.last().extension_id@ != extension_id {
            assert forall|i: int, j: int| 0 <= i < j < w.len() implies key_lt(#[trigger] w[i].key(), #[trigger] w[j].key()) by {
                if j == w.len() - 1 {
                    let a = choose|a: int| 0 <= a < s.len() && s[a] == wp[i];
                    assert(w[i] == wp[i]);
                    if a != s.len() - 1 {
                        assert(a < s.len() - 1);
                    } else {
                        let b = choose|b: int| 0 <= b < p.len() && p[b] == wp[i];
                        assert(s[b] == p[b]);
                        assert(key_lt(s[b].key(), s[s.len() - 1].key()));
                    }
                } else {
                    assert(w[i] == wp[i] && w[j] == wp[j]);
                }
            }
            assert forall|k: int| 0 <= k < w.len() implies exists|j: int| 0 <= j < s.len() && s[j] == #[trigger] w[k] by {
                if k == w.len() - 1 {
                    assert(s[s.len() - 1] == w[k]);
                } else {
                    assert(w[k] == wp[k]);
                }
            }
        }
    }
}


// ---------------------------------------------------------------------------
// The component registry
// ---------------------------------------------------------------------------

/// What the component registry needs from outside itself: the extension
/// store, the file system, the sandbox and the WebAssembly engine. `C` is a
/// compiled component, `R` a running instance of one.
pub trait ComponentEngine<C, R> {
    /// The status and install directory of an installed extension; none
    /// when it is not installed.
    fn extension_state(&self, extension_id: &str) -> Option<(ExtensionStatus, String)>;

    /// The path of `entry` below `install_dir`, and whether a file is there.
    fn entry_file(&self, install_dir: &str, entry: &str) -> (String, bool);

    /// The sandbox's answer to `request`.
    fn check(&self, request: &OperationRequest) -> Result<CheckResult, String>;

    /// The bytes of the file at `path`.
    fn read(&self, path: &str) -> Result<Vec<u8>, String>;

    /// Parses and validates the bytes of a component.
    fn compile(&self, bytes: &Vec<u8>) -> Result<C, String>;

    /// Instantiates a compiled component with the host interfaces its
    /// capabilities grant, then calls its `init` and `activate`. The error
    /// describes the step that failed.
    fn instantiate(
        &self,
        extension_id: &str,
        component_id: &str,
        component: &C,
        capabilities: &ComponentCapabilities,
    ) -> Result<R, String>;

    /// Hands `payload` to a running instance's message handler.
    fn deliver(&self, extension_id: &str, component_id: &str, running: &R, payload: String) -> Result<String, String>;

    /// Calls `deactivate` on a running instance, best effort, and releases it.
    fn release(&self, running: R);
}

/// A loaded component: its declaration and the compiled component.
pub struct ComponentInstance<C> {
    pub component_id: String,
    pub entry: String,
    pub kind: ComponentKind,
    pub capabilities: ComponentCapabilities,
    pub component: C,
}

/// `instance` is what loading `declared` records.
pub open spec fn loaded_from<C>(instance: ComponentInstance<C>, declared: ComponentRegistration) -> bool {
    &&& instance.component_id@ == declared.id@
    &&& instance.entry@ == declared.entry@
    &&& instance.kind == declared.kind
    &&& instance.capabilities.copy_of(&declared.capabilities)
}

/// The refusal of a key that names no loaded component.
pub open spec fn not_loaded_error(extension_id: Seq<char>, component_id: Seq<char>) -> Seq<char> {
    "Component '"@ + component_key_text(extension_id, component_id) + "' is not loaded"@
}

/// The refusal of a key that names a loaded component that does not run.
pub open spec fn not_active_error(extension_id: Seq<char>, component_id: Seq<char>) -> Seq<char> {
    "Component '"@ + component_key_text(extension_id, component_id) + "' is not active"@
}

/// The WebAssembly components of enabled extensions: each is loaded once
/// per `(extension, component)` key, may then be activated, and is disposed
/// with its extension.
pub struct ComponentRegistry<C, R, E: ComponentEngine<C, R>> {
    engine: E,
    instances: ComponentTable<ComponentInstance<C>>,
    running: ComponentTable<R>,
}

impl<C, R, E: ComponentEngine<C, R>> ComponentRegistry<C, R, E> {
    /// The loaded components, in key order.
    pub closed spec fn loaded(&self) -> Seq<ComponentSlot<ComponentInstance<C>>> {
        self.instances@
    }

    /// The running instances, in key order.
    pub closed spec fn active(&self) -> Seq<ComponentSlot<R>> {
        self.running@
    }

    /// The engine, as a value.
    pub closed spec fn engine(&self) -> E {
        self.engine
    }

    /// The engine the registry runs components on.
    pub fn component_engine(&self) -> (r: &E)
        ensures
            *r == self.engine(),
    {
        &self.engine
    }

    #[verifier::type_invariant]
    spec fn tables_wf(&self) -> bool {
        self.instances.wf() && self.running.wf()
    }

    pub fn new(engine: E) -> (r: Self)
        ensures
            r.loaded().len() == 0,
            r.active().len() == 0,
            r.engine() == engine,
    {
        ComponentRegistry { engine, instances: ComponentTable::new(), running: ComponentTable::new() }
    }

    /// Loads a declared component of an enabled extension, by its id: the
    /// extension must be enabled and the component a logic one; its entry
    /// file must exist, the sandbox must allow running it outright, and the
    /// engine must accept its bytes; a key already loaded is refused. Every
    /// refusal leaves the registry as it was.
    pub fn load(&mut self, extension_id: &str, component: &ComponentRegistration) -> (r: Result<String, String>)
        ensures
            final(self).engine() == old(self).engine(),
            final(self).active() == old(self).active(),
            r is Err ==> final(self).loaded() == old(self).loaded(),
            component.kind != ComponentKind::Logic ==> r is Err,
            has_key(old(self).loaded(), (extension_id@, component.id@)) ==> r is Err,
            r matches Ok(id) ==> id@ == component.id@ && component.kind == ComponentKind::Logic && exists|k: int|
                0 <= k <= old(self).loaded().len() && (#[trigger] final(self).loaded()[k]).key() == (
                    extension_id@,
                    component.id@,
                ) && loaded_from(final(self).loaded()[k].value, *component) && final(self).loaded()
                    == old(self).loaded().insert(k, final(self).loaded()[k]),
    {
        proof {
            use_type_invariant(&*self);
        }
        let (status, install_dir) = match self.engine.extension_state(extension_id) {
            None => (None, String::new()),
            Some((s, d)) => (Some(s), d),
        };
        let gate = component_load_gate(extension_id, component, status);
        if let Err(e) = gate {
            return Err(e);
        }
        let (path, exists) = self.engine.entry_file(install_dir.as_str(), component.entry.as_str());
        if !exists {
            return Err(concat5("Component entry '", component.entry.as_str(), "' does not exist at '", path.as_str(), "'"));
        }
        let request = component_load_request(extension_id, path.as_str());
        let answer = match self.engine.check(&request) {
            Ok(a) => a,
            Err(e) => return Err(concat("Sandbox check failed: ", e.as_str())),
        };
        let operation = component_load_operation(extension_id, component.id.as_str());
        if let Err(e) = require_allowed(&answer, operation.as_str()) {
            return Err(e);
        }
        let bytes = match self.engine.read(path.as_str()) {
            Ok(b) => b,
            Err(e) => return Err(concat5("Failed to read component '", path.as_str(), "': ", e.as_str(), "")),
        };
        let compiled = match self.engine.compile(&bytes) {
            Ok(c) => c,
            Err(e) => return Err(concat5("Invalid WASM component '", component.entry.as_str(), "': ", e.as_str(), "")),
        };
        let instance = ComponentInstance {
            component_id: owned(component.id.as_str()),
            entry: owned(component.entry.as_str()),
            kind: component.kind,
            capabilities: component.capabilities.duplicate(),
            component: compiled,
        };
        let ghost made = instance;
        proof {
            assert(loaded_from(made, *component));
        }
        let mut table = ComponentTable::new();
        std::mem::swap(&mut table, &mut self.instances);
        proof {
            assert(table@ == old(self).loaded());
        }
        let inserted = table.insert(extension_id, component.id.as_str(), instance);
        self.instances = table;
        proof {
            if inserted is Ok {
                let key = (extension_id@, component.id@);
                assert(!has_key(old(self).loaded(), key));
                let k = choose|k: int|
                    0 <= k <= old(self).loaded().len() && (#[trigger] self.loaded()[k]).key() == key
                        && self.loaded()[k].value == made && self.loaded() == old(self).loaded().insert(k, self.loaded()[k]);
                assert(loaded_from(self.loaded()[k].value, *component));
            }
        }
        match inserted {
            Ok(()) => Ok(owned(component.id.as_str())),
            Err(e) => Err(e),
        }
    }

    /// Activates a loaded component: instantiates it and calls its `init`
    /// and `activate`, keeping the running instance. A component already
    /// running is left as it is.
    pub fn activate(&mut self, extension_id: &str, component_id: &str) -> (r: Result<(), String>)
        ensures
            final(self).engine() == old(self).engine(),
            final(self).loaded() == old(self).loaded(),
            !has_key(old(self).loaded(), (extension_id@, component_id@)) ==> (r matches Err(e) && e@
                == not_loaded_error(extension_id@, component_id@)),
            has_key(old(self).loaded(), (extension_id@, component_id@)) && has_key(
                old(self).active(),
                (extension_id@, component_id@),
            ) ==> r is Ok,
            r is Err || has_key(old(self).active(), (extension_id@, component_id@)) ==> final(self).active()
                == old(self).active(),
            r is Ok ==> has_key(final(self).active(), (extension_id@, component_id@)),
            r is Ok && !has_key(old(self).active(), (extension_id@, component_id@)) ==> exists|k: int|
                0 <= k <= old(self).active().len() && (#[trigger] final(self).active()[k]).key() == (
                    extension_id@,
                    component_id@,
                ) && final(self).active() == old(self).active().insert(k, final(self).active()[k]),
    {
        proof {
            use_type_invariant(&*self);
        }
        let instance = match self.instances.get(extension_id, component_id) {
            None => {
                let key = concat3(extension_id, ":", component_id);
                let m = concat3("Component '", key.as_str(), "' is not loaded");
                proof {
                    assert(m@ =~= not_loaded_error(extension_id@, component_id@));
                }
                return Err(m);
            },
            Some(i) => i,
        };
        if self.running.contains(extension_id, component_id) {
            return Ok(());
        }
        let running = match self.engine.instantiate(extension_id, component_id, &instance.component, &instance.capabilities) {
            Ok(r) => r,
            Err(e) => return Err(e),
        };
        let mut table = ComponentTable::new();
        std::mem::swap(&mut table, &mut self.running);
        proof {
            assert(table@ == old(self).active());
            assert(!has_key(table@, (extension_id@, component_id@)));
        }
        let inserted = table.insert(extension_id, component_id, running);
        self.running = table;
        proof {
            if inserted is Ok {
                let k = choose|k: int|
                    0 <= k <= old(self).active().len() && (#[trigger] self.active()[k]).key() == (extension_id@, component_id@)
                        && self.active() == old(self).active().insert(k, self.active()[k]);
                assert(has_key(self.active(), (extension_id@, component_id@)));
            }
        }
        inserted
    }

    /// Hands a message to a running component and gives back its answer.
    pub fn handle_message(&self, extension_id: &str, component_id: &str, payload: String) -> (r: Result<
        String,
        String,
    >)
        ensures
            !has_key(self.loaded(), (extension_id@, component_id@)) ==> (r matches Err(e) && e@
                == not_loaded_error(extension_id@, component_id@)),
            has_key(self.loaded(), (extension_id@, component_id@)) && !has_key(
                self.active(),
                (extension_id@, component_id@),
            ) ==> (r matches Err(e) && e@ == not_active_error(extension_id@, component_id@)),
    {
        proof {
            use_type_invariant(&*self);
        }
        let key = concat3(extension_id, ":", component_id);
        if !self.instances.contains(extension_id, component_id) {
            let m = concat3("Component '", key.as_str(), "' is not loaded");
            proof {
                assert(m@ =~= not_loaded_error(extension_id@, component_id@));
            }
            return Err(m);
        }
        match self.running.get(extension_id, component_id) {
            None => {
                let m = concat3("Component '", key.as_str(), "' is not active");
                proof {
                    assert(m@ =~= not_active_error(extension_id@, component_id@));
                }
                Err(m)
            },
            Some(running) => self.engine.deliver(extension_id, component_id, running, payload),
        }
    }

    /// Disposes one loaded component, releasing its running instance if it
    /// has one.
    pub fn dispose(&mut self, extension_id: &str, component_id: &str) -> (r: Result<(), String>)
        ensures
            final(self).engine() == old(self).engine(),
            !has_key(old(self).loaded(), (extension_id@, component_id@)) ==> (r matches Err(e) && e@
                == not_loaded_error(extension_id@, component_id@) && final(self).loaded()
                == old(self).loaded() && final(self).active() == old(self).active()),
            has_key(old(self).loaded(), (extension_id@, component_id@)) ==> (r is Ok && exists|i: int|
                0 <= i < old(self).loaded().len() && (#[trigger] old(self).loaded()[i]).key() == (
                    extension_id@,
                    component_id@,
                ) && final(self).loaded() == old(self).loaded().remove(i)),
            has_key(old(self).loaded(), (extension_id@, component_id@)) ==> !has_key(
                final(self).active(),
                (extension_id@, component_id@),
            ) && (has_key(old(self).active(), (extension_id@, component_id@)) ==> exists|j: int|
                0 <= j < old(self).active().len() && (#[trigger] old(self).active()[j]).key() == (
                    extension_id@,
                    component_id@,
                ) && final(self).active() == old(self).active().remove(j)) && (!has_key(
                old(self).active(),
                (extension_id@, component_id@),
            ) ==> final(self).active() == old(self).active()),
    {
        proof {
            use_type_invariant(&*self);
        }
        let mut table = ComponentTable::new();
        std::mem::swap(&mut table, &mut self.instances);
        let removed = table.remove(extension_id, component_id);
        self.instances = table;
        if let Err(e) = removed {
            return Err(e);
        }
        proof {
            use_type_invariant(&*self);
        }
        if self.running.contains(extension_id, component_id) {
            let mut table = ComponentTable::new();
            std::mem::swap(&mut table, &mut self.running);
            proof {
                assert(table@ == old(self).active());
            }
            let taken = table.remove(extension_id, component_id);
            self.running = table;
            proof {
                let key = (extension_id@, component_id@);
                let j = choose|j: int|
                    0 <= j < old(self).active().len() && (#[trigger] old(self).active()[j]).key() == key
                        && self.active() == old(self).active().remove(j);
                lemma_unique_key_removed(old(self).active(), j);
            }
            if let Ok(instance) = taken {
                self.engine.release(instance);
            }
        }
        Ok(())
    }

    /// Disposes every component of `extension_id`, releasing the running
    /// instances among them.
    pub fn dispose_all_for_extension(&mut self, extension_id: &str)
        ensures
            final(self).engine() == old(self).engine(),
            final(self).loaded() == slots_without(old(self).loaded(), extension_id@),
            final(self).active() == slots_without(old(self).active(), extension_id@),
    {
        proof {
            use_type_invariant(&*self);
        }
        let mut table = ComponentTable::new();
        std::mem::swap(&mut table, &mut self.instances);
        let _ = table.remove_all_for_extension(extension_id);
        self.instances = table;
        let mut table = ComponentTable::new();
        std::mem::swap(&mut table, &mut self.running);
        let mut released = table.remove_all_for_extension(extension_id);
        self.running = table;
        while released.len() > 0
            invariant
                self.engine() == old(self).engine(),
                self.loaded() == slots_without(old(self).loaded(), extension_id@),
                self.active() == slots_without(old(self).active(), extension_id@),
            decreases released@.len(),
        {
            let r = released.remove(0);
            self.engine.release(r);
        }
    }

    /// Whether the component runs.
    pub fn is_active(&self, extension_id: &str, component_id: &str) -> (r: bool)
        ensures
            r == has_key(self.active(), (extension_id@, component_id@)),
    {
        proof {
            use_type_invariant(&*self);
        }
        self.running.contains(extension_id, component_id)
    }

    /// The keys of the loaded components, in key order; those of one
    /// extension when `extension_id` is given.
    pub fn list(&self, extension_id: Option<&str>) -> (r: Vec<(String, String)>)
        ensures
            r@.map_values(|p: (String, String)| (p.0@, p.1@)) == match extension_id {
                None => self.loaded().map_values(|x: ComponentSlot<ComponentInstance<C>>| x.key()),
                Some(e) => slots_of(self.loaded(), e@).map_values(|x: ComponentSlot<ComponentInstance<C>>| x.key()),
            },
    {
        self.instances.list(extension_id)
    }
}

impl<C, R, E: ComponentEngine<C, R>> ComponentHostPort for ComponentRegistry<C, R, E> {
    fn load(&mut self, extension_id: &str, component: &ComponentRegistration) -> (r: Result<String, String>) {
        ComponentRegistry::load(self, extension_id, component)
    }

    fn activate(&mut self, extension_id: &str, component_id: &str) -> (r: Result<(), String>) {
        ComponentRegistry::activate(self, extension_id, component_id)
    }

    fn dispose_all_for_extension(&mut self, extension_id: &str) {
        ComponentRegistry::dispose_all_for_extension(self, extension_id)
    }
}

/// In an ordered table, the slot removed was the only one with its key.
proof fn lemma_unique_key_removed<T>(s: Seq<ComponentSlot<T>>, j: int)
    requires
        keys_sorted(s),
        0 <= j < s.len(),
    ensures
        !has_key(s.remove(j), s[j].key()),
{
    let t = s.remove(j);
    if has_key(t, s[j].key()) {
        let i = choose|i: int| 0 <= i < t.len() && (#[trigger] t[i]).key() == s[j].key();
        if i < j {
            assert(t[i] == s[i]);
            assert(key_lt(s[i].key(), s[j].key()));
        } else {
            assert(t[i] == s[i + 1]);
            assert(key_lt(s[j].key(), s[i + 1].key()));
        }
        lemma_key_irreflexive(s[j].key());
    }
}

} // verus!
