//! An extension's declared permissions as a policy constraint: for actions
//! of the extension on the filesystem, the terminal or the network, the
//! declared allow-lists decide; an extension that declared nothing may do
//! none of them.

use vstd::prelude::*;
use vstd::string::*;

use crate::models::ExtensionPermissions;
use crate::text::{concat, concat4, owned, starts_with, str_eq, substring};

verus! {

/// What the policy engine asks: in which scope, who, doing what.
#[derive(Debug, Clone, PartialEq)]
pub struct PolicyInput {
    pub scope: String,
    pub subject: String,
    pub action: String,
}

/// A constraint's verdict.
#[derive(Debug, Clone, PartialEq)]
pub enum PolicyDecision {
    Allow { reason: String },
    Deny { reason: String },
}

/// A verdict as a value: whether allowed, and the reason.
pub type DecisionView = (bool, Seq<char>);

pub open spec fn decision_view(d: PolicyDecision) -> DecisionView {
    match d {
        PolicyDecision::Allow { reason } => (true, reason@),
        PolicyDecision::Deny { reason } => (false, reason@),
    }
}

/// `s` without `prefix` when it starts with it.
pub open spec fn strip(s: Seq<char>, prefix: Seq<char>) -> Seq<char> {
    if prefix.is_prefix_of(s) {
        s.skip(prefix.len() as int)
    } else {
        s
    }
}

pub open spec fn any_prefix_of(prefixes: Seq<String>, s: Seq<char>) -> bool {
    exists|i: int| 0 <= i < prefixes.len() && (#[trigger] prefixes[i])@.is_prefix_of(s)
}

pub open spec fn any_equal(items: Seq<String>, s: Seq<char>) -> bool {
    exists|i: int| 0 <= i < items.len() && (#[trigger] items[i])@ == s
}

pub open spec fn grant(granted: bool, domain: Seq<char>, extension_id: Seq<char>, target: Seq<char>) -> DecisionView {
    if granted {
        (true, "extension "@ + domain + " permission granted"@)
    } else {
        (false, "extension '"@ + extension_id + "' not permitted for "@ + domain + ":"@ + target)
    }
}

/// The verdict of `extension_id`'s permissions on `input`: none outside the
/// `extension` scope, for another extension, or for an action outside the
/// three domains. Filesystem paths and network URLs are granted by prefix,
/// terminal commands by equality.
pub open spec fn permission_verdict(
    extension_id: Seq<char>,
    permissions: ExtensionPermissions,
    input: PolicyInput,
) -> Option<DecisionView> {
    let action = input.action@;
    if !"extension"@.is_prefix_of(input.scope@) {
        None
    } else if strip(input.subject@, "extension:"@) != extension_id {
        None
    } else if "filesystem:"@.is_prefix_of(action) {
        let target = action.skip(11);
        Some(grant(any_prefix_of(permissions.filesystem@, target), "filesystem"@, extension_id, target))
    } else if "terminal:"@.is_prefix_of(action) {
        let command = action.skip(9);
        Some(grant(any_equal(permissions.terminal@, command), "terminal"@, extension_id, command))
    } else if "network:"@.is_prefix_of(action) {
        let url = action.skip(8);
        Some(grant(any_prefix_of(permissions.network@, url), "network"@, extension_id, url))
    } else {
        None
    }
}

/// A filesystem path is granted whenever any declared filesystem prefix,
/// at whatever position in the list, starts it; a path no declared prefix
/// starts is denied, naming the extension and the path.
pub proof fn law_filesystem_granted_by_any_prefix(
    extension_id: Seq<char>,
    permissions: ExtensionPermissions,
    input: PolicyInput,
)
    requires
        "extension"@.is_prefix_of(input.scope@),
        strip(input.subject@, "extension:"@) == extension_id,
        "filesystem:"@.is_prefix_of(input.action@),
    ensures
        (exists|i: int|
            0 <= i < permissions.filesystem@.len() && (#[trigger] permissions.filesystem@[i])@.is_prefix_of(
                input.action@.skip(11),
            )) ==> permission_verdict(extension_id, permissions, input) == Some(
            (true, "extension filesystem permission granted"@),
        ),
        (forall|i: int|
            0 <= i < permissions.filesystem@.len() ==> !(#[trigger] permissions.filesystem@[i])@.is_prefix_of(
                input.action@.skip(11),
            )) ==> permission_verdict(extension_id, permissions, input) == Some(
            (false, "extension '"@ + extension_id + "' not permitted for filesystem:"@ + input.action@.skip(11)),
        ),
{
    reveal_strlit("extension ");
    reveal_strlit("filesystem");
    reveal_strlit(" permission granted");
    reveal_strlit("extension filesystem permission granted");
    reveal_strlit("' not permitted for ");
    reveal_strlit(":");
    reveal_strlit("' not permitted for filesystem:");
    assert("extension "@ + "filesystem"@ + " permission granted"@ =~= "extension filesystem permission granted"@);
    assert("extension '"@ + extension_id + "' not permitted for "@ + "filesystem"@ + ":"@ + input.action@.skip(11)
        =~= "extension '"@ + extension_id + "' not permitted for filesystem:"@ + input.action@.skip(11));
}

/// A network URL is granted whenever any declared network prefix, at
/// whatever position in the list, starts it; a URL no declared prefix
/// starts is denied.
pub proof fn law_network_granted_by_any_prefix(
    extension_id: Seq<char>,
    permissions: ExtensionPermissions,
    input: PolicyInput,
)
    requires
        "extension"@.is_prefix_of(input.scope@),
        strip(input.subject@, "extension:"@) == extension_id,
        "network:"@.is_prefix_of(input.action@),
    ensures
        (exists|i: int|
            0 <= i < permissions.network@.len() && (#[trigger] permissions.network@[i])@.is_prefix_of(
                input.action@.skip(8),
            )) ==> permission_verdict(extension_id, permissions, input) == Some(
            (true, "extension network permission granted"@),
        ),
        (forall|i: int|
            0 <= i < permissions.network@.len() ==> !(#[trigger] permissions.network@[i])@.is_prefix_of(
                input.action@.skip(8),
            )) ==> (permission_verdict(extension_id, permissions, input) matches Some(v) && !v.0),
{
    reveal_strlit("extension ");
    reveal_strlit("network");
    reveal_strlit(" permission granted");
    reveal_strlit("extension network permission granted");
    reveal_strlit("filesystem:");
    reveal_strlit("terminal:");
    reveal_strlit("network:");
    assert("extension "@ + "network"@ + " permission granted"@ =~= "extension network permission granted"@);
    assert(!"filesystem:"@.is_prefix_of(input.action@)) by {
        assert(input.action@[0] == "network:"@[0]);
    }
    assert(!"terminal:"@.is_prefix_of(input.action@)) by {
        assert(input.action@[0] == "network:"@[0]);
    }
}

/// A terminal command is granted exactly when one of the declared
/// commands, at whatever position in the list, is that command.
pub proof fn law_terminal_granted_by_equal_command(
    extension_id: Seq<char>,
    permissions: ExtensionPermissions,
    input: PolicyInput,
)
    requires
        "extension"@.is_prefix_of(input.scope@),
        strip(input.subject@, "extension:"@) == extension_id,
        "terminal:"@.is_prefix_of(input.action@),
    ensures
        permission_verdict(extension_id, permissions, input) matches Some(v) && (v.0 <==> exists|i: int|
            0 <= i < permissions.terminal@.len() && (#[trigger] permissions.terminal@[i])@ == input.action@.skip(9)),
{
    reveal_strlit("filesystem:");
    reveal_strlit("terminal:");
    assert(!"filesystem:"@.is_prefix_of(input.action@)) by {
        assert(input.action@[0] == "terminal:"@[0]);
    }
}

/// The permission constraint of one extension.
#[derive(Debug)]
pub struct ExtensionPermissionConstraint {
    extension_id: String,
    permissions: ExtensionPermissions,
    constraint_id: String,
}

pub open spec fn constraint_id_text(extension_id: Seq<char>) -> Seq<char> {
    "extension.permission:"@ + extension_id
}

fn has_prefix_in(prefixes: &Vec<String>, s: &str) -> (r: bool)
    ensures
        r == any_prefix_of(prefixes@, s@),
{
    let n = prefixes.len();
    for i in 0..n
        invariant
            n == prefixes@.len(),
            forall|k: int| 0 <= k < i ==> !(#[trigger] prefixes@[k])@.is_prefix_of(s@),
    {
        if starts_with(s, prefixes[i].as_str()) {
            return true;
        }
    }
    false
}

fn has_equal_in(items: &Vec<String>, s: &str) -> (r: bool)
    ensures
        r == any_equal(items@, s@),
{
    let n = items.len();
    for i in 0..n
        invariant
            n == items@.len(),
            forall|k: int| 0 <= k < i ==> (#[trigger] items@[k])@ != s@,
    {
        if str_eq(items[i].as_str(), s) {
            return true;
        }
    }
    false
}

/// `s` after its first `k` characters.
fn rest(s: &str, k: usize) -> (r: String)
    requires
        k <= s@.len(),
    ensures
        r@ == s@.skip(k as int),
{
    let r = substring(s, k, s.unicode_len());
    assert(s@.subrange(k as int, s@.len() as int) =~= s@.skip(k as int));
    r
}

fn decide(granted: bool, domain: &str, extension_id: &str, target: &str) -> (d: PolicyDecision)
    ensures
        decision_view(d) == grant(granted, domain@, extension_id@, target@),
{
    proof {
        reveal_strlit("extension ");
        reveal_strlit(" permission granted");
        reveal_strlit("extension '");
        reveal_strlit("' not permitted for ");
        reveal_strlit(":");
    }
    if granted {
        PolicyDecision::Allow { reason: concat(concat("extension ", domain).as_str(), " permission granted") }
    } else {
        let head = concat4("extension '", extension_id, "' not permitted for ", domain);
        PolicyDecision::Deny { reason: concat(concat(head.as_str(), ":").as_str(), target) }
    }
}

impl ExtensionPermissionConstraint {
    pub closed spec fn extension_id_view(&self) -> Seq<char> {
        self.extension_id@
    }

    pub closed spec fn permissions_view(&self) -> ExtensionPermissions {
        self.permissions
    }

    pub closed spec fn wf(&self) -> bool {
        self.constraint_id@ == constraint_id_text(self.extension_id@)
    }

    pub fn new(extension_id: &str, permissions: ExtensionPermissions) -> (r: Self)
        ensures
            r.wf(),
            r.extension_id_view() == extension_id@,
            r.permissions_view() == permissions,
    {
        ExtensionPermissionConstraint {
            constraint_id: Self::constraint_id_for(extension_id),
            extension_id: owned(extension_id),
            permissions,
        }
    }

    pub fn extension_id(&self) -> (r: &str)
        ensures
            r@ == self.extension_id_view(),
    {
        self.extension_id.as_str()
    }

    pub fn permissions(&self) -> (r: &ExtensionPermissions)
        ensures
            *r == self.permissions_view(),
    {
        &self.permissions
    }

    pub fn constraint_id(&self) -> (r: &str)
        requires
            self.wf(),
        ensures
            r@ == constraint_id_text(self.extension_id_view()),
    {
        self.constraint_id.as_str()
    }

    /// `extension.permission:{extensionId}`.
    pub fn constraint_id_for(extension_id: &str) -> (r: String)
        ensures
            r@ == constraint_id_text(extension_id@),
    {
        proof {
            reveal_strlit("extension.permission:");
        }
        concat("extension.permission:", extension_id)
    }

    pub fn id(&self) -> (r: &str)
        requires
            self.wf(),
        ensures
            r@ == constraint_id_text(self.extension_id_view()),
    {
        self.constraint_id()
    }

    pub fn priority(&self) -> (r: i32)
        ensures
            r == 50,
    {
        50
    }

    /// The verdict on `input`, or none when the constraint does not apply.
    pub fn evaluate(&self, input: &PolicyInput) -> (r: Option<PolicyDecision>)
        ensures
            match permission_verdict(self.extension_id_view(), self.permissions_view(), *input) {
                None => r is None,
                Some(v) => r matches Some(d) && decision_view(d) == v,
            },
    {
        proof {
            reveal_strlit("extension");
            reveal_strlit("extension:");
            reveal_strlit("filesystem:");
            reveal_strlit("terminal:");
            reveal_strlit("network:");
            reveal_strlit("filesystem");
            reveal_strlit("terminal");
            reveal_strlit("network");
        }
        if !starts_with(input.scope.as_str(), "extension") {
            return None;
        }
        let subject = if starts_with(input.subject.as_str(), "extension:") {
            rest(input.subject.as_str(), 10)
        } else {
            owned(input.subject.as_str())
        };
        if !str_eq(subject.as_str(), self.extension_id.as_str()) {
            return None;
        }
        let action = input.action.as_str();
        if starts_with(action, "filesystem:") {
            let target = rest(action, 11);
            let granted = has_prefix_in(&self.permissions.filesystem, target.as_str());
            Some(decide(granted, "filesystem", self.extension_id.as_str(), target.as_str()))
        } else if starts_with(action, "terminal:") {
            let command = rest(action, 9);
            let granted = has_equal_in(&self.permissions.terminal, command.as_str());
            Some(decide(granted, "terminal", self.extension_id.as_str(), command.as_str()))
        } else if starts_with(action, "network:") {
            let url = rest(action, 8);
            let granted = has_prefix_in(&self.permissions.network, url.as_str());
            Some(decide(granted, "network", self.extension_id.as_str(), url.as_str()))
        } else {
            None
        }
    }
}

/// An extension that declared no filesystem, terminal or network
/// permission is denied every action of its own in those domains.
pub proof fn law_undeclared_means_denied(extension_id: Seq<char>, permissions: ExtensionPermissions, input: PolicyInput)
    requires
        permissions.filesystem@.len() == 0,
        permissions.terminal@.len() == 0,
        permissions.network@.len() == 0,
        permission_verdict(extension_id, permissions, input) is Some,
    ensures
        !permission_verdict(extension_id, permissions, input)->Some_0.0,
{
}

/// A constraint never speaks for another extension.
pub proof fn law_other_extension_untouched(extension_id: Seq<char>, permissions: ExtensionPermissions, input: PolicyInput)
    requires
        strip(input.subject@, "extension:"@) != extension_id,
    ensures
        permission_verdict(extension_id, permissions, input) is None,
{
}

} // verus!
