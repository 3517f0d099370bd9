//! Controlled operations: the registry of operations extensions declare, the
//! namespace rule on their ids, and the fail-closed decisions an execution
//! goes through (extension enabled, operation registered and owned, sandbox
//! allows without confirmation) before it is dispatched.

use vstd::prelude::*;
use vstd::string::*;

use crate::lexical::{
    lemma_lex_asymmetric, lemma_lex_irreflexive, lemma_lex_total, lemma_lex_transitive, lex_lt,
    str_lt,
};
use crate::models::ExtensionStatus;
use crate::seqs::clone_opt;
use crate::text::{concat, concat3, concat4, concat5, is_blank, owned, starts_with, str_eq, trim};

verus! {

// ---------------------------------------------------------------------------
// Sandbox vocabulary
// ---------------------------------------------------------------------------

/// How strictly the sandbox checks an operation.
#[derive(Debug, Clone, Copy, PartialEq, Eq)]
pub enum PermissionLevel {
    Unrestricted,
    LightCheck,
    StrictCheck,
    UserConfirm,
}

/// The kind of effect an operation has, as the sandbox classifies it.
#[derive(Debug, Clone, Copy, PartialEq, Eq)]
pub enum OperationType {
    FileRead,
    FileWrite,
    CommandExecute,
}

/// What the sandbox answered for one operation request.
#[derive(Debug, Clone, PartialEq)]
pub struct CheckResult {
    pub allowed: bool,
    pub permission_level: PermissionLevel,
    pub require_confirm: bool,
    pub reason: Option<String>,
    pub confirm_message: Option<String>,
}

impl CheckResult {
    pub fn allowed(level: PermissionLevel) -> (r: CheckResult)
        ensures
            r.allowed && !r.require_confirm && r.permission_level == level,
            r.reason is None && r.confirm_message is None,
    {
        CheckResult {
            allowed: true,
            permission_level: level,
            require_confirm: false,
            reason: None,
            confirm_message: None,
        }
    }

    pub fn needs_confirm(level: PermissionLevel, message: &str) -> (r: CheckResult)
        ensures
            r.allowed && r.require_confirm && r.permission_level == level,
            r.reason is None,
            r.confirm_message matches Some(m) && m@ == message@,
    {
        CheckResult {
            allowed: true,
            permission_level: level,
            require_confirm: true,
            reason: None,
            confirm_message: Some(owned(message)),
        }
    }

    pub fn denied(level: PermissionLevel, reason: &str) -> (r: CheckResult)
        ensures
            !r.allowed && !r.require_confirm && r.permission_level == level,
            r.reason matches Some(m) && m@ == reason@,
            r.confirm_message is None,
    {
        CheckResult {
            allowed: false,
            permission_level: level,
            require_confirm: false,
            reason: Some(owned(reason)),
            confirm_message: None,
        }
    }
}

/// A request put to the sandbox: what is done, on which target, by whom.
#[derive(Debug, Clone, PartialEq)]
pub struct OperationRequest {
    pub operation_type: OperationType,
    pub target: String,
    pub actor: String,
    pub session_id: Option<String>,
    pub worktree: Option<String>,
}

/// The sandbox port an execution checks against.
pub trait McpOperationPort {
    type Sandbox;

    fn sandbox(&self) -> Self::Sandbox;
}

/// Why a sandbox answer refuses: its reason, else its confirmation prompt,
/// else a generic denial.
pub open spec fn denial_reason(result: CheckResult) -> Seq<char> {
    match result.reason {
        Some(r) => r@,
        None => match result.confirm_message {
            Some(m) => m@,
            None => "sandbox denied"@,
        },
    }
}

/// An operation may run only when the sandbox allows it outright; one that
/// needs confirmation is refused, never prompted for.
pub open spec fn passes_sandbox(result: CheckResult) -> bool {
    result.allowed && !result.require_confirm
}

pub open spec fn denied_message(operation: Seq<char>, result: CheckResult) -> Seq<char> {
    "Operation '"@ + operation + "' denied by sandbox: "@ + denial_reason(result)
}

pub fn require_allowed(result: &CheckResult, operation: &str) -> (r: Result<(), String>)
    ensures
        passes_sandbox(*result) ==> r is Ok,
        !passes_sandbox(*result) ==> (r matches Err(e) && e@ == denied_message(operation@, *result)),
{
    if result.allowed && !result.require_confirm {
        Ok(())
    } else {
        proof {
            reveal_strlit("sandbox denied");
        }
        let reason: &str = match &result.reason {
            Some(r) => r.as_str(),
            None => match &result.confirm_message {
                Some(m) => m.as_str(),
                None => "sandbox denied",
            },
        };
        proof {
            reveal_strlit("Operation '");
            reveal_strlit("' denied by sandbox: ");
        }
        Err(concat4("Operation '", operation, "' denied by sandbox: ", reason))
    }
}

// ---------------------------------------------------------------------------
// Registrations
// ---------------------------------------------------------------------------

/// Whether the host or the extension's worker carries an operation out.
#[derive(Debug, Clone, Copy, PartialEq, Eq)]
pub enum OperationHandlerKind {
    Builtin,
    Extension,
}

/// A registered operation. Its id is `{extensionId}.{operationId}`;
/// `params_schema` is a JSON schema as text.
#[derive(Debug, Clone, PartialEq)]
pub struct OperationRegistration {
    pub id: String,
    pub extension_id: String,
    pub label: String,
    pub operation_type: OperationType,
    pub permission_level: PermissionLevel,
    pub params_schema: Option<String>,
    pub handler_kind: OperationHandlerKind,
}

impl OperationRegistration {
    pub fn duplicate(&self) -> (r: Self)
        ensures
            r == *self,
    {
        OperationRegistration {
            id: self.id.clone(),
            extension_id: self.extension_id.clone(),
            label: self.label.clone(),
            operation_type: self.operation_type,
            permission_level: self.permission_level,
            params_schema: clone_opt(&self.params_schema),
            handler_kind: self.handler_kind,
        }
    }
}

/// The namespace rule: `id` is `{extension}.` followed by a non-empty
/// operation part.
pub open spec fn operation_id_error(id: Seq<char>, extension_id: Seq<char>) -> Option<Seq<char>> {
    let prefix = extension_id + "."@;
    if !prefix.is_prefix_of(id) {
        Some(
            "Operation id '"@ + id + "' must be namespaced by extension '"@ + extension_id + "'"@,
        )
    } else if id.len() == prefix.len() {
        Some("Operation id '"@ + id + "' has an empty operation part"@)
    } else {
        None
    }
}

pub open spec fn unit_matches(r: Result<(), String>, error: Option<Seq<char>>) -> bool {
    match error {
        None => r is Ok,
        Some(m) => r matches Err(e) && e@ == m,
    }
}

pub fn validate_operation_id(id: &str, extension_id: &str) -> (r: Result<(), String>)
    ensures
        unit_matches(r, operation_id_error(id@, extension_id@)),
{
    proof {
        reveal_strlit(".");
        reveal_strlit("Operation id '");
        reveal_strlit("' must be namespaced by extension '");
        reveal_strlit("'");
        reveal_strlit("' has an empty operation part");
    }
    let prefix = concat(extension_id, ".");
    if !starts_with(id, prefix.as_str()) {
        return Err(concat5(
            "Operation id '",
            id,
            "' must be namespaced by extension '",
            extension_id,
            "'",
        ));
    }
    if id.unicode_len() == prefix.as_str().unicode_len() {
        return Err(concat3("Operation id '", id, "' has an empty operation part"));
    }
    Ok(())
}

/// Only an installed, enabled extension may register or execute operations.
pub open spec fn enabled_error(status: Option<ExtensionStatus>, extension_id: Seq<char>) -> Option<Seq<char>> {
    match status {
        None => Some("Extension '"@ + extension_id + "' is not installed"@),
        Some(s) => if s != ExtensionStatus::Enabled {
            Some("Extension '"@ + extension_id + "' is not enabled"@)
        } else {
            None
        },
    }
}

/// Checks the status the extension store holds for `extension_id`.
pub fn ensure_extension_enabled(status: Option<ExtensionStatus>, extension_id: &str) -> (r: Result<(), String>)
    ensures
        unit_matches(r, enabled_error(status, extension_id@)),
{
    proof {
        reveal_strlit("Extension '");
        reveal_strlit("' is not installed");
        reveal_strlit("' is not enabled");
    }
    match status {
        None => Err(concat3("Extension '", extension_id, "' is not installed")),
        Some(s) => match s {
            ExtensionStatus::Enabled => Ok(()),
            _ => Err(concat3("Extension '", extension_id, "' is not enabled")),
        },
    }
}

// ---------------------------------------------------------------------------
// Registry
// ---------------------------------------------------------------------------

pub open spec fn ids_sorted(s: Seq<OperationRegistration>) -> bool {
    forall|i: int, j: int| 0 <= i < j < s.len() ==> lex_lt(#[trigger] s[i].id@, #[trigger] s[j].id@)
}

pub open spec fn has_id(s: Seq<OperationRegistration>, id: Seq<char>) -> bool {
    exists|i: int| 0 <= i < s.len() && (#[trigger] s[i]).id@ == id
}

/// The registration with id `id`, if there is one.
pub open spec fn lookup(s: Seq<OperationRegistration>, id: Seq<char>) -> Option<OperationRegistration> {
    if has_id(s, id) {
        Some(s[choose|i: int| 0 <= i < s.len() && (#[trigger] s[i]).id@ == id])
    } else {
        None
    }
}

/// The registrations of `extension_id`, in order.
pub open spec fn of_extension(s: Seq<OperationRegistration>, extension_id: Seq<char>) -> Seq<OperationRegistration>
    decreases s.len(),
{
    if s.len() == 0 {
        Seq::empty()
    } else if s.last().extension_id@ == extension_id {
        of_extension(s.drop_last(), extension_id).push(s.last())
    } else {
        of_extension(s.drop_last(), extension_id)
    }
}

/// The registrations of every extension but `extension_id`, in order.
pub open spec fn not_of_extension(s: Seq<OperationRegistration>, extension_id: Seq<char>) -> Seq<OperationRegistration>
    decreases s.len(),
{
    if s.len() == 0 {
        Seq::empty()
    } else if s.last().extension_id@ != extension_id {
        not_of_extension(s.drop_last(), extension_id).push(s.last())
    } else {
        not_of_extension(s.drop_last(), extension_id)
    }
}

pub open spec fn register_error(s: Seq<OperationRegistration>, reg: OperationRegistration) -> Option<Seq<char>> {
    if trim(reg.label@).len() == 0 {
        Some("Operation label must not be empty"@)
    } else if operation_id_error(reg.id@, reg.extension_id@) is Some {
        operation_id_error(reg.id@, reg.extension_id@)
    } else if has_id(s, reg.id@) {
        Some("Operation '"@ + reg.id@ + "' is already registered"@)
    } else {
        None
    }
}

/// The operations the host holds, one per id, ordered by id.
#[derive(Debug)]
pub struct OperationRegistry {
    operations: Vec<OperationRegistration>,
}

impl OperationRegistry {
    pub closed spec fn view(&self) -> Seq<OperationRegistration> {
        self.operations@
    }

    pub closed spec fn wf(&self) -> bool {
        ids_sorted(self.operations@)
    }

    pub fn new() -> (r: Self)
        ensures
            r.wf(),
            r@ == Seq::<OperationRegistration>::empty(),
    {
        OperationRegistry { operations: Vec::new() }
    }

    /// Registers an operation: the label must not be blank, the id must be
    /// namespaced by the extension, and no operation may have the id already.
    pub fn register(&mut self, reg: OperationRegistration) -> (r: Result<(), String>)
        requires
            old(self).wf(),
        ensures
            final(self).wf(),
            unit_matches(r, register_error(old(self)@, reg)),
            r is Err ==> final(self)@ == old(self)@,
            r is Ok ==> exists|k: int| 0 <= k <= old(self)@.len() && final(self)@ == old(self)@.insert(k, reg),
    {
        proof {
            reveal_strlit("Operation label must not be empty");
            reveal_strlit("Operation '");
            reveal_strlit("' is already registered");
        }
        if is_blank(reg.label.as_str()) {
            return Err(owned("Operation label must not be empty"));
        }
        validate_operation_id(reg.id.as_str(), reg.extension_id.as_str())?;
        let n = self.operations.len();
        let mut k: usize = 0;
        while k < n && str_lt(self.operations[k].id.as_str(), reg.id.as_str())
            invariant
                n == self.operations@.len(),
                k <= n,
                ids_sorted(self.operations@),
                forall|j: int| 0 <= j < k ==> lex_lt(#[trigger] self.operations@[j].id@, reg.id@),
            decreases n - k,
        {
            k = k + 1;
        }
        let ghost s = self.operations@;
        if k < n && str_eq(self.operations[k].id.as_str(), reg.id.as_str()) {
            return Err(concat3("Operation '", reg.id.as_str(), "' is already registered"));
        }
        proof {
            assert forall|j: int| k < j < n implies lex_lt(reg.id@, #[trigger] s[j].id@) by {
                lemma_lex_total(reg.id@, s[k as int].id@);
                lemma_lex_transitive(reg.id@, s[k as int].id@, s[j].id@);
            }

            assert(!has_id(s, reg.id@)) by {
                if has_id(s, reg.id@) {
                    let j = choose|j: int| 0 <= j < s.len() && (#[trigger] s[j]).id@ == reg.id@;
                    if j < k {
                        lemma_lex_irreflexive(reg.id@);
                    } else if j > k {
                        lemma_lex_total(reg.id@, s[k as int].id@);
                        lemma_lex_transitive(reg.id@, s[k as int].id@, s[j].id@);
                        lemma_lex_irreflexive(reg.id@);
                    }
                }
            }
            if k < n {
                lemma_lex_total(reg.id@, s[k as int].id@);
                lemma_lex_asymmetric(reg.id@, s[k as int].id@);
            }
        }
        self.operations.insert(k, reg);
        proof {
            let t = self.operations@;
            assert forall|i: int, j: int| 0 <= i < j < t.len() implies lex_lt(#[trigger] t[i].id@, #[trigger] t[j].id@) by {
                if j < k {
                    assert(t[i] == s[i] && t[j] == s[j]);
                } else if j == k {
                    assert(t[i] == s[i]);
                } else if i < k {
                    assert(t[i] == s[i] && t[j] == s[j - 1]);
                    if j - 1 == k {
                        lemma_lex_total(reg.id@, s[k as int].id@);
                    }
                    lemma_lex_transitive(s[i].id@, reg.id@, s[j - 1].id@);
                } else if i == k {
                    assert(t[j] == s[j - 1]);
                    lemma_lex_total(reg.id@, s[k as int].id@);
                } else {
                    assert(t[i] == s[i - 1] && t[j] == s[j - 1]);
                }
            }
        }
        Ok(())
    }

    /// Drops every operation of `extension_id`; how many were dropped.
    pub fn unregister_extension(&mut self, extension_id: &str) -> (r: usize)
        requires
            old(self).wf(),
        ensures
            final(self).wf(),
            final(self)@ == not_of_extension(old(self)@, extension_id@),
            r == old(self)@.len() - final(self)@.len(),
    {
        let ghost s = self.operations@;
        let mut kept: Vec<OperationRegistration> = Vec::new();
        let n = self.operations.len();
        for i in 0..n
            invariant
                n == s.len(),
                s == self.operations@,
                ids_sorted(s),
                kept@ == not_of_extension(s.subrange(0, i as int), extension_id@),
                kept@.len() <= i,
        {
            let op = &self.operations[i];
            proof {
                assert(s.subrange(0, i + 1).drop_last() =~= s.subrange(0, i as int));
            }
            if !str_eq(op.extension_id.as_str(), extension_id) {
                kept.push(op.duplicate());
            }
        }
        proof {
            assert(s.subrange(0, n as int) =~= s);
            lemma_not_of_extension_sorted(s, extension_id@);
        }
        let removed = n - kept.len();
        self.operations = kept;
        removed
    }

    /// The operation with global id `id`, if registered.
    pub fn get(&self, id: &str) -> (r: Option<OperationRegistration>)
        requires
            self.wf(),
        ensures
            r == lookup(self@, id@),
    {
        let n = self.operations.len();
        for i in 0..n
            invariant
                n == self.operations@.len(),
                ids_sorted(self.operations@),
                forall|j: int| 0 <= j < i ==> (#[trigger] self.operations@[j]).id@ != id@,
        {
            if str_eq(self.operations[i].id.as_str(), id) {
                proof {
                    let c = choose|j: int| 0 <= j < self@.len() && (#[trigger] self@[j]).id@ == id@;
                    if c != i {
                        assert(self@[c].id@ == self@[i as int].id@);
                        if c < i {
                            assert(self.operations@[c].id@ != id@);
                        } else {
                            assert(lex_lt(self@[i as int].id@, self@[c].id@));
                            lemma_lex_irreflexive(id@);
                        }
                    }
                }
                return Some(self.operations[i].duplicate());
            }
        }
        None
    }

    /// The operations, or those of one extension, ordered by id.
    pub fn list(&self, extension_id: Option<&str>) -> (r: Vec<OperationRegistration>)
        requires
            self.wf(),
        ensures
            r@ == match extension_id {
                None => self@,
                Some(e) => of_extension(self@, e@),
            },
            ids_sorted(r@),
    {
        let ghost s = self.operations@;
        let mut out: Vec<OperationRegistration> = Vec::new();
        let n = self.operations.len();
        for i in 0..n
            invariant
                n == s.len(),
                s == self.operations@,
                out@ == match extension_id {
                    None => s.subrange(0, i as int),
                    Some(e) => of_extension(s.subrange(0, i as int), e@),
                },
        {
            let op = &self.operations[i];
            proof {
                assert(s.subrange(0, i + 1).drop_last() =~= s.subrange(0, i as int));
                assert(s.subrange(0, i + 1) =~= s.subrange(0, i as int).push(s[i as int]));
            }
            let keep = match extension_id {
                None => true,
                Some(e) => str_eq(op.extension_id.as_str(), e),
            };
            if keep {
                out.push(op.duplicate());
            }
        }
        proof {
            assert(s.subrange(0, n as int) =~= s);
            if let Some(e) = extension_id {
                lemma_of_extension_sorted(s, e@);
            }
        }
        out
    }
}

/// Keeping the operations of one extension keeps them in order, and each
/// one kept was in the registry.
pub proof fn lemma_of_extension_sorted(s: Seq<OperationRegistration>, extension_id: Seq<char>)
    requires
        ids_sorted(s),
    ensures
        ids_sorted(of_extension(s, extension_id)),
        forall|k: int| 0 <= k < of_extension(s, extension_id).len() ==> exists|j: int| 0 <= j < s.len() && s[j] == #[trigger] of_extension(s, extension_id)[k],
    decreases s.len(),
{
    if s.len() > 0 {
        let p = s.drop_last();
        assert(ids_sorted(p)) by {
            assert forall|i: int, j: int| 0 <= i < j < p.len() implies lex_lt(#[trigger] p[i].id@, #[trigger] p[j].id@) by {
                assert(p[i] == s[i] && p[j] == s[j]);
            }
        }
        lemma_of_extension_sorted(p, extension_id);
        let r = of_extension(s, extension_id);
        let rp = of_extension(p, extension_id);
        assert forall|k: int| 0 <= k < r.len() implies exists|j: int| 0 <= j < s.len() && s[j] == #[trigger] r[k] by {
            if k < rp.len() {
                assert(r[k] == rp[k]);
                let j = choose|j: int| 0 <= j < p.len() && p[j] == #[trigger] rp[k];
                assert(s[j] == p[j]);
            } else {
                assert(s[s.len() - 1] == r[k]);
            }
        }
        if s.last().extension_id@ == extension_id {
            assert forall|i: int, j: int| 0 <= i < j < r.len() implies lex_lt(#[trigger] r[i].id@, #[trigger] r[j].id@) by {
                if j < rp.len() {
                    assert(r[i] == rp[i] && r[j] == rp[j]);
                } else {
                    assert(r[i] == rp[i]);
                    let a = choose|a: int| 0 <= a < p.len() && p[a] == #[trigger] rp[i];
                    assert(s[a] == p[a]);
                    assert(lex_lt(s[a].id@, s[s.len() - 1].id@));
                }
            }
        }
    }
}

/// Dropping one extension's operations keeps the rest in order.
pub proof fn lemma_not_of_extension_sorted(s: Seq<OperationRegistration>, extension_id: Seq<char>)
    requires
        ids_sorted(s),
    ensures
        ids_sorted(not_of_extension(s, extension_id)),
        forall|k: int| 0 <= k < not_of_extension(s, extension_id).len() ==> exists|j: int| 0 <= j < s.len() && s[j] == #[trigger] not_of_extension(s, extension_id)[k],
    decreases s.len(),
{
    if s.len() > 0 {
        let p = s.drop_last();
        assert(ids_sorted(p)) by {
            assert forall|i: int, j: int| 0 <= i < j < p.len() implies lex_lt(#[trigger] p[i].id@, #[trigger] p[j].id@) by {
                assert(p[i] == s[i] && p[j] == s[j]);
            }
        }
        lemma_not_of_extension_sorted(p, extension_id);
        let r = not_of_extension(s, extension_id);
        let rp = not_of_extension(p, extension_id);
        assert forall|k: int| 0 <= k < r.len() implies exists|j: int| 0 <= j < s.len() && s[j] == #[trigger] r[k] by {
            if k < rp.len() {
                assert(r[k] == rp[k]);
                let j = choose|j: int| 0 <= j < p.len() && p[j] == #[trigger] rp[k];
                assert(s[j] == p[j]);
            } else {
                assert(s[s.len() - 1] == r[k]);
            }
        }
        if s.last().extension_id@ != extension_id {
            assert forall|i: int, j: int| 0 <= i < j < r.len() implies lex_lt(#[trigger] r[i].id@, #[trigger] r[j].id@) by {
                if j < rp.len() {
                    assert(r[i] == rp[i] && r[j] == rp[j]);
                } else {
                    assert(r[i] == rp[i]);
                    let a = choose|a: int| 0 <= a < p.len() && p[a] == #[trigger] rp[i];
                    assert(s[a] == p[a]);
                    assert(lex_lt(s[a].id@, s[s.len() - 1].id@));
                }
            }
        }
    }
}

// ---------------------------------------------------------------------------
// Requests and the decisions of an execution
// ---------------------------------------------------------------------------

/// `runtime.operation.register` payload.
#[derive(Debug, Clone, PartialEq)]
pub struct OperationRegisterRequest {
    pub extension_id: String,
    pub id: String,
    pub label: String,
    pub permission_level: PermissionLevel,
    pub operation_type: OperationType,
    pub params_schema: Option<String>,
    pub handler_kind: OperationHandlerKind,
}

/// `runtime.operation.execute` payload; `params` is JSON text.
#[derive(Debug, Clone, PartialEq)]
pub struct OperationExecuteRequest {
    pub extension_id: String,
    pub operation_id: String,
    pub params: String,
    pub session_id: Option<String>,
    pub worktree: Option<String>,
}

/// `runtime.operation.list` payload.
#[derive(Debug, Clone, PartialEq)]
pub struct OperationListRequest {
    pub extension_id: Option<String>,
}

/// The registration a register request describes.
pub open spec fn registration_of(request: OperationRegisterRequest) -> OperationRegistration {
    OperationRegistration {
        id: request.id,
        extension_id: request.extension_id,
        label: request.label,
        operation_type: request.operation_type,
        permission_level: request.permission_level,
        params_schema: request.params_schema,
        handler_kind: request.handler_kind,
    }
}

/// Registers the operation a request describes, for an enabled extension
/// whose store status is `extension_status`.
pub fn register_operation(
    extension_status: Option<ExtensionStatus>,
    registry: &mut OperationRegistry,
    request: OperationRegisterRequest,
) -> (r: Result<OperationRegistration, String>)
    requires
        old(registry).wf(),
    ensures
        final(registry).wf(),
        enabled_error(extension_status, request.extension_id@) matches Some(m) ==> (r matches Err(e) && e@ == m && final(registry)@ == old(registry)@),
        enabled_error(extension_status, request.extension_id@) is None ==> match register_error(old(registry)@, registration_of(request)) {
            Some(m) => r matches Err(e) && e@ == m && final(registry)@ == old(registry)@,
            None => r == Ok::<OperationRegistration, String>(registration_of(request))
                && exists|k: int| 0 <= k <= old(registry)@.len() && final(registry)@ == old(registry)@.insert(k, registration_of(request)),
        },
{
    ensure_extension_enabled(extension_status, request.extension_id.as_str())?;
    let registration = OperationRegistration {
        id: request.id,
        extension_id: request.extension_id,
        label: request.label,
        operation_type: request.operation_type,
        permission_level: request.permission_level,
        params_schema: request.params_schema,
        handler_kind: request.handler_kind,
    };
    registry.register(registration.duplicate())?;
    Ok(registration)
}

/// Drops every operation of an extension that is disabled or uninstalled.
pub fn clear_extension_operations(registry: &mut OperationRegistry, extension_id: &str)
    requires
        old(registry).wf(),
    ensures
        final(registry).wf(),
        final(registry)@ == not_of_extension(old(registry)@, extension_id@),
{
    let _removed = registry.unregister_extension(extension_id);
}

pub open spec fn opt_text(o: Option<String>) -> Option<Seq<char>> {
    match o {
        Some(s) => Some(s@),
        None => None,
    }
}

/// What an execution asks the sandbox: the operation's type, its global id
/// as target, and the extension as actor.
pub open spec fn sandbox_request_matches(q: OperationRequest, op: OperationRegistration, request: OperationExecuteRequest) -> bool {
    &&& q.operation_type == op.operation_type
    &&& q.target == op.id
    &&& q.actor@ == "extension:"@ + request.extension_id@
    &&& q.session_id == request.session_id
    &&& q.worktree == request.worktree
}

/// Why an execution is refused before the sandbox is asked.
pub open spec fn authorize_error(
    extension_status: Option<ExtensionStatus>,
    s: Seq<OperationRegistration>,
    request: OperationExecuteRequest,
) -> Option<Seq<char>> {
    if enabled_error(extension_status, request.extension_id@) is Some {
        enabled_error(extension_status, request.extension_id@)
    } else {
        match lookup(s, request.operation_id@) {
            None => Some("Operation '"@ + request.operation_id@ + "' is not registered"@),
            Some(op) => if op.extension_id@ != request.extension_id@ {
                Some(
                    "Operation '"@ + op.id@ + "' belongs to extension '"@ + op.extension_id@
                        + "', not '"@ + request.extension_id@ + "'"@,
                )
            } else {
                None
            },
        }
    }
}

/// The checks an execution passes before the sandbox: the extension is
/// enabled, the operation is registered, and it belongs to the caller. On
/// success, the operation and the request to put to the sandbox.
pub fn authorize_execution(
    extension_status: Option<ExtensionStatus>,
    registry: &OperationRegistry,
    request: &OperationExecuteRequest,
) -> (r: Result<(OperationRegistration, OperationRequest), String>)
    requires
        registry.wf(),
    ensures
        match authorize_error(extension_status, registry@, *request) {
            Some(m) => r matches Err(e) && e@ == m,
            None => r matches Ok((op, q)) && Some(op) == lookup(registry@, request.operation_id@)
                && sandbox_request_matches(q, op, *request),
        },
{
    ensure_extension_enabled(extension_status, request.extension_id.as_str())?;
    proof {
        reveal_strlit("Operation '");
        reveal_strlit("' is not registered");
        reveal_strlit("' belongs to extension '");
        reveal_strlit("', not '");
        reveal_strlit("'");
        reveal_strlit("extension:");
    }
    let op = match registry.get(request.operation_id.as_str()) {
        Some(op) => op,
        None => {
            return Err(concat3("Operation '", request.operation_id.as_str(), "' is not registered"));
        },
    };
    if !str_eq(op.extension_id.as_str(), request.extension_id.as_str()) {
        let m = concat4("Operation '", op.id.as_str(), "' belongs to extension '", op.extension_id.as_str());
        let m = concat4(m.as_str(), "', not '", request.extension_id.as_str(), "'");
        return Err(m);
    }
    let q = OperationRequest {
        operation_type: op.operation_type,
        target: op.id.clone(),
        actor: concat("extension:", request.extension_id.as_str()),
        session_id: clone_opt(&request.session_id),
        worktree: clone_opt(&request.worktree),
    };
    Ok((op, q))
}

/// What a permitted execution comes to.
#[derive(Debug, Clone, PartialEq)]
pub enum OperationDispatch {
    /// The extension's worker carries the operation out.
    ExtensionHandler { operation_id: String, params: String },
    /// The host reads a file for the extension.
    ReadFile { extension_id: String, path: String, worktree: Option<String> },
}

/// The string under `key` in the JSON object `json`, when `json` parses to
/// an object holding a string there.
pub uninterp spec fn json_string_field(json: Seq<char>, key: Seq<char>) -> Option<Seq<char>>;

/// `s` can stand between the quotes of a JSON string as it is: it holds no
/// quote, no backslash and no control character.
pub open spec fn json_plain(s: Seq<char>) -> bool {
    forall|i: int| 0 <= i < s.len() ==> #[trigger] s[i] != '"' && s[i] != '\\' && ' ' <= s[i]
}

/// The JSON text of an object with the one string field `key: value`,
/// written without whitespace.
pub open spec fn json_single_field(key: Seq<char>, value: Seq<char>) -> Seq<char> {
    seq!['{', '"'] + key + seq!['"', ':', '"'] + value + seq!['"', '}']
}

/// Reads a string field of a JSON object.
///
/// Calls `serde_json::from_str` into a `serde_json::Value`, then `Value::get`
/// and `Value::as_str`. Its result is named by `json_string_field`. Of the
/// one-field object `{"key":"value"}`, with key and value plain, JSON's
/// grammar gives the value itself, character for character.
#[verifier::external_body]
fn json_field_text(json: &str, key: &str) -> (r: Option<String>)
    ensures
        opt_text(r) == json_string_field(json@, key@),
        forall|value: Seq<char>|
            json_plain(key@) && json_plain(value) && #[trigger] json_single_field(key@, value) == json@ ==> opt_text(r)
                == Some(value),
{
    serde_json::from_str::<serde_json::Value>(json).ok().and_then(
        |v| v.get(key).and_then(|p| p.as_str().map(|s| s.to_string())),
    )
}

/// The part of a builtin operation's id after `{extension}.`, or the whole
/// id when it is not so prefixed.
pub open spec fn builtin_name(op: OperationRegistration) -> Seq<char> {
    let prefix = op.extension_id@ + "."@;
    if prefix.is_prefix_of(op.id@) {
        op.id@.skip(prefix.len() as int)
    } else {
        op.id@
    }
}

pub open spec fn dispatch_matches(
    r: Result<OperationDispatch, String>,
    operation: OperationRegistration,
    request: OperationExecuteRequest,
) -> bool {
    match operation.handler_kind {
        OperationHandlerKind::Extension => r matches Ok(OperationDispatch::ExtensionHandler { operation_id, params })
            && operation_id == operation.id && params == request.params,
        OperationHandlerKind::Builtin => if builtin_name(operation) == "file.read"@ {
            match json_string_field(request.params@, "path"@) {
                None => r matches Err(e) && e@ == "file.read requires a 'path' parameter"@,
                Some(path) => r matches Ok(OperationDispatch::ReadFile { extension_id, path: p, worktree })
                    && extension_id == request.extension_id && p@ == path && worktree == request.worktree,
            }
        } else {
            r matches Err(e) && e@ == "Builtin operation not implemented: "@ + operation.id@
        },
    }
}

/// The host's builtin operations; only `file.read` exists.
fn builtin_dispatch(request: &OperationExecuteRequest, operation: &OperationRegistration) -> (r: Result<OperationDispatch, String>)
    requires
        operation.handler_kind == OperationHandlerKind::Builtin,
    ensures
        dispatch_matches(r, *operation, *request),
        builtin_name(*operation) == "file.read"@ ==> forall|path: Seq<char>|
            json_plain(path) && #[trigger] json_single_field("path"@, path) == request.params@ ==> (r matches Ok(
                OperationDispatch::ReadFile { path: p, .. },
            ) && p@ == path),
{
    proof {
        reveal_strlit(".");
        reveal_strlit("file.read");
        reveal_strlit("path");
        reveal_strlit("file.read requires a 'path' parameter");
        reveal_strlit("Builtin operation not implemented: ");
    }
    let prefix = concat(operation.extension_id.as_str(), ".");
    let name = if starts_with(operation.id.as_str(), prefix.as_str()) {
        let n = operation.id.as_str().unicode_len();
        let k = prefix.as_str().unicode_len();
        crate::text::substring(operation.id.as_str(), k, n)
    } else {
        owned(operation.id.as_str())
    };
    proof {
        if prefix@.is_prefix_of(operation.id@) {
            assert(operation.id@.subrange(prefix@.len() as int, operation.id@.len() as int) =~= operation.id@.skip(prefix@.len() as int));
        }
    }
    if str_eq(name.as_str(), "file.read") {
        proof {
            assert(json_plain("path"@));
        }
        match json_field_text(request.params.as_str(), "path") {
            Some(path) => Ok(OperationDispatch::ReadFile {
                extension_id: request.extension_id.clone(),
                path,
                worktree: clone_opt(&request.worktree),
            }),
            None => Err(owned("file.read requires a 'path' parameter")),
        }
    } else {
        Err(concat("Builtin operation not implemented: ", operation.id.as_str()))
    }
}

/// After the sandbox has answered: refuses unless it allows outright, then
/// hands the operation to the extension's worker or to a builtin.
pub fn dispatch_operation(
    check: &CheckResult,
    operation: &OperationRegistration,
    request: &OperationExecuteRequest,
) -> (r: Result<OperationDispatch, String>)
    ensures
        !passes_sandbox(*check) ==> (r matches Err(e) && e@ == denied_message(operation.id@, *check)),
        passes_sandbox(*check) ==> dispatch_matches(r, *operation, *request),
        passes_sandbox(*check) && operation.handler_kind == OperationHandlerKind::Builtin && builtin_name(*operation)
            == "file.read"@ ==> forall|path: Seq<char>|
            json_plain(path) && #[trigger] json_single_field("path"@, path) == request.params@ ==> (r matches Ok(
                OperationDispatch::ReadFile { path: p, .. },
            ) && p@ == path),
{
    require_allowed(check, operation.id.as_str())?;
    match operation.handler_kind {
        OperationHandlerKind::Builtin => builtin_dispatch(request, operation),
        OperationHandlerKind::Extension => Ok(OperationDispatch::ExtensionHandler {
            operation_id: operation.id.clone(),
            params: request.params.clone(),
        }),
    }
}

/// The sandbox request of the builtin `file.read`, for the resolved path.
pub fn file_read_request(extension_id: &str, resolved_path: &str, worktree: Option<&str>) -> (q: OperationRequest)
    ensures
        q.operation_type == OperationType::FileRead,
        q.target@ == resolved_path@,
        q.actor@ == "extension:"@ + extension_id@,
        q.session_id is None,
        opt_text(q.worktree) == match worktree {
            Some(w) => Some(w@),
            None => None::<Seq<char>>,
        },
{
    proof {
        reveal_strlit("extension:");
    }
    OperationRequest {
        operation_type: OperationType::FileRead,
        target: owned(resolved_path),
        actor: concat("extension:", extension_id),
        session_id: None,
        worktree: match worktree {
            Some(w) => Some(owned(w)),
            None => None,
        },
    }
}

// ---------------------------------------------------------------------------
// Laws
// ---------------------------------------------------------------------------

/// A registry kept in id order holds each id once, so lookup finds the one
/// registration with that id.
pub proof fn law_lookup_finds_registered(s: Seq<OperationRegistration>, k: int, reg: OperationRegistration)
    requires
        ids_sorted(s),
        0 <= k < s.len(),
        s[k] == reg,
    ensures
        lookup(s, reg.id@) == Some(reg),
{
    assert(has_id(s, reg.id@));
    let c = choose|i: int| 0 <= i < s.len() && (#[trigger] s[i]).id@ == reg.id@;
    if c < k {
        assert(lex_lt(s[c].id@, s[k].id@));
        lemma_lex_irreflexive(reg.id@);
    } else if k < c {
        assert(lex_lt(s[k].id@, s[c].id@));
        lemma_lex_irreflexive(reg.id@);
    }
}

/// What a successful registration stores, lookup gives back.
pub proof fn law_register_then_get(old: Seq<OperationRegistration>, reg: OperationRegistration, k: int)
    requires
        ids_sorted(old.insert(k, reg)),
        0 <= k <= old.len(),
    ensures
        lookup(old.insert(k, reg), reg.id@) == Some(reg),
{
    law_lookup_finds_registered(old.insert(k, reg), k, reg);
}

/// After an extension's operations are dropped, it has none left, and every
/// other extension keeps exactly the operations it had.
pub proof fn law_unregister_is_scoped(s: Seq<OperationRegistration>, extension_id: Seq<char>, other: Seq<char>)
    ensures
        of_extension(not_of_extension(s, extension_id), extension_id).len() == 0,
        other != extension_id ==> of_extension(not_of_extension(s, extension_id), other) == of_extension(s, other),
    decreases s.len(),
{
    if s.len() > 0 {
        law_unregister_is_scoped(s.drop_last(), extension_id, other);
        let r = not_of_extension(s, extension_id);
        if s.last().extension_id@ != extension_id {
            assert(r.drop_last() == not_of_extension(s.drop_last(), extension_id));
            assert(r.last() == s.last());
        }
    }
}

impl Default for OperationRegistry {
    fn default() -> (r: Self)
        ensures
            r.wf(),
            r@ == Seq::<OperationRegistration>::empty(),
    {
        OperationRegistry::new()
    }
}

} // verus!
