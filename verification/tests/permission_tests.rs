use navis_extension::models::ExtensionPermissions;
use navis_extension::permission::{ExtensionPermissionConstraint, PolicyDecision, PolicyInput};

fn input(scope: &str, subject: &str, action: &str) -> PolicyInput {
    PolicyInput { scope: scope.into(), subject: subject.into(), action: action.into() }
}

fn constraint() -> ExtensionPermissionConstraint {
    let mut permissions = ExtensionPermissions::default();
    permissions.filesystem = vec!["/workspace/".into()];
    permissions.terminal = vec!["git".into()];
    permissions.network = vec!["https://api.example.com".into()];
    ExtensionPermissionConstraint::new("ext.demo", permissions)
}

#[test]
fn constraint_identity() {
    let c = constraint();
    assert_eq!(c.id(), "extension.permission:ext.demo");
    assert_eq!(ExtensionPermissionConstraint::constraint_id_for("x"), "extension.permission:x");
    assert_eq!(c.priority(), 50);
    assert_eq!(c.extension_id(), "ext.demo");
    assert_eq!(c.permissions().terminal, vec!["git".to_string()]);
}

#[test]
fn declared_permissions_decide() {
    let c = constraint();
    assert_eq!(
        c.evaluate(&input("extension", "extension:ext.demo", "filesystem:/workspace/a.txt")),
        Some(PolicyDecision::Allow { reason: "extension filesystem permission granted".into() })
    );
    assert_eq!(
        c.evaluate(&input("extension.runtime", "ext.demo", "filesystem:/etc/passwd")),
        Some(PolicyDecision::Deny {
            reason: "extension 'ext.demo' not permitted for filesystem:/etc/passwd".into()
        })
    );
    assert_eq!(
        c.evaluate(&input("extension", "ext.demo", "terminal:git")),
        Some(PolicyDecision::Allow { reason: "extension terminal permission granted".into() })
    );
    assert!(matches!(
        c.evaluate(&input("extension", "ext.demo", "terminal:git status")),
        Some(PolicyDecision::Deny { .. })
    ));
    assert!(matches!(
        c.evaluate(&input("extension", "ext.demo", "network:https://api.example.com/v1")),
        Some(PolicyDecision::Allow { .. })
    ));
}

#[test]
fn constraint_does_not_apply_elsewhere() {
    let c = constraint();
    assert_eq!(c.evaluate(&input("session", "ext.demo", "filesystem:/workspace/a")), None);
    assert_eq!(c.evaluate(&input("extension", "extension:other", "filesystem:/workspace/a")), None);
    assert_eq!(c.evaluate(&input("extension", "ext.demo", "ipc:send")), None);
}

#[test]
fn no_declared_permission_denies() {
    let c = ExtensionPermissionConstraint::new("ext.demo", ExtensionPermissions::default());
    assert!(matches!(
        c.evaluate(&input("extension", "ext.demo", "network:https://x")),
        Some(PolicyDecision::Deny { .. })
    ));
}
