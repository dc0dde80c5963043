use coopstable::access::{default_admin_role, AccessControl};
use coopstable::error::AccessControlError;

fn s(x: &str) -> String {
    x.to_string()
}

#[test]
fn initialize_succeeds_once() {
    let mut ac = AccessControl::new();
    assert!(!ac.initialized());
    assert_eq!(ac.initialize(&s("owner")), Ok(()));
    assert!(ac.initialized());
    assert!(ac.has_role(&default_admin_role(), &s("owner")));
    assert_eq!(ac.get_role_admin(&default_admin_role()), Some(default_admin_role()));
    assert_eq!(
        ac.initialize(&s("intruder")),
        Err(AccessControlError::AlreadyInitializedError)
    );
    assert!(!ac.has_role(&default_admin_role(), &s("intruder")));
    assert!(ac.has_role(&default_admin_role(), &s("owner")));
}

#[test]
fn root_role_name() {
    assert_eq!(default_admin_role(), "DEFAULT_ADMIN");
}

#[test]
fn grant_and_revoke_undefined_role() {
    let mut ac = AccessControl::new();
    ac.initialize(&s("owner")).unwrap();
    assert_eq!(
        ac.grant_role(&s("owner"), &s("NO_SUCH"), &s("a")),
        Err(AccessControlError::UndefinedRole)
    );
    assert_eq!(
        ac.revoke_role(&s("owner"), &s("NO_SUCH"), &s("a")),
        Err(AccessControlError::UndefinedRole)
    );
    assert!(!ac.has_role(&s("NO_SUCH"), &s("a")));
}

#[test]
fn grant_requires_admin_role() {
    let mut ac = AccessControl::new();
    ac.initialize(&s("owner")).unwrap();
    ac.set_role_admin(&s("MINTER"), &default_admin_role());
    assert_eq!(
        ac.grant_role(&s("mallory"), &s("MINTER"), &s("mallory")),
        Err(AccessControlError::UnauthorizedError)
    );
    assert!(!ac.has_role(&s("MINTER"), &s("mallory")));
    assert_eq!(ac.grant_role(&s("owner"), &s("MINTER"), &s("alice")), Ok(()));
    assert!(ac.has_role(&s("MINTER"), &s("alice")));
}

#[test]
fn only_role_follows_current_membership() {
    let mut ac = AccessControl::new();
    ac.initialize(&s("owner")).unwrap();
    ac.set_role_admin(&s("MINTER"), &default_admin_role());
    assert_eq!(
        ac.only_role(&s("alice"), &s("MINTER")),
        Err(AccessControlError::UnauthorizedError)
    );
    ac.grant_role(&s("owner"), &s("MINTER"), &s("alice")).unwrap();
    assert_eq!(ac.only_role(&s("alice"), &s("MINTER")), Ok(()));
    ac.revoke_role(&s("owner"), &s("MINTER"), &s("alice")).unwrap();
    assert_eq!(
        ac.only_role(&s("alice"), &s("MINTER")),
        Err(AccessControlError::UnauthorizedError)
    );
}

#[test]
fn role_administered_by_unrelated_role() {
    let mut ac = AccessControl::new();
    ac.initialize(&s("owner")).unwrap();
    ac.set_role_admin(&s("OPS"), &default_admin_role());
    ac.set_role_admin(&s("WORKER"), &s("OPS"));
    ac.grant_role(&s("owner"), &s("OPS"), &s("op")).unwrap();
    // The root role does not administer WORKER; OPS does.
    assert_eq!(
        ac.grant_role(&s("owner"), &s("WORKER"), &s("w")),
        Err(AccessControlError::UnauthorizedError)
    );
    assert_eq!(ac.grant_role(&s("op"), &s("WORKER"), &s("w")), Ok(()));
    assert!(ac.has_role(&s("WORKER"), &s("w")));
}

#[test]
fn granting_twice_and_revoking_absent_member() {
    let mut ac = AccessControl::new();
    ac.initialize(&s("owner")).unwrap();
    ac.grant_role(&s("owner"), &default_admin_role(), &s("b")).unwrap();
    ac.grant_role(&s("owner"), &default_admin_role(), &s("b")).unwrap();
    ac.revoke_role(&s("owner"), &default_admin_role(), &s("b")).unwrap();
    assert!(!ac.has_role(&default_admin_role(), &s("b")));
    assert_eq!(ac.revoke_role(&s("owner"), &default_admin_role(), &s("zed")), Ok(()));
    assert!(ac.has_role(&default_admin_role(), &s("owner")));
}

#[test]
fn uninitialized_instance_has_no_roles() {
    let ac = AccessControl::new();
    assert_eq!(ac.get_role_admin(&default_admin_role()), None);
    assert_eq!(
        ac.only_role(&s("anyone"), &default_admin_role()),
        Err(AccessControlError::UnauthorizedError)
    );
}
