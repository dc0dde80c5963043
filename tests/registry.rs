use coopstable::error::{AccessControlError, YieldAdapterRegistryError};
use coopstable::registry::YieldAdapterRegistry;

fn s(x: &str) -> String {
    x.to_string()
}

const DENIED: YieldAdapterRegistryError =
    YieldAdapterRegistryError::AccessControl(AccessControlError::UnauthorizedError);

#[test]
fn register_get_and_denied_remove() {
    let mut r = YieldAdapterRegistry::new(s("O"));
    assert_eq!(r.register_adapter(s("O"), s("Lending"), s("ProtoX"), s("addr1")), Ok(()));
    assert_eq!(r.get_adapter(s("Lending"), s("ProtoX")), Ok(s("addr1")));
    assert_eq!(r.remove_adapter(s("D"), s("Lending"), s("ProtoX")), Err(DENIED));
    assert_eq!(r.get_adapter(s("Lending"), s("ProtoX")), Ok(s("addr1")));
}

#[test]
fn register_overwrites_and_remove_forgets() {
    let mut r = YieldAdapterRegistry::new(s("O"));
    r.register_adapter(s("O"), s("Lending"), s("P"), s("a1")).unwrap();
    r.register_adapter(s("O"), s("Lending"), s("P"), s("a2")).unwrap();
    assert_eq!(r.get_adapter(s("Lending"), s("P")), Ok(s("a2")));
    assert_eq!(r.remove_adapter(s("O"), s("Lending"), s("P")), Ok(s("a2")));
    assert_eq!(
        r.get_adapter(s("Lending"), s("P")),
        Err(YieldAdapterRegistryError::InvalidYieldAdapter)
    );
    assert_eq!(
        r.remove_adapter(s("O"), s("Lending"), s("P")),
        Err(YieldAdapterRegistryError::NotFound)
    );
}

#[test]
fn unknown_key_is_not_found() {
    let r = YieldAdapterRegistry::new(s("O"));
    assert_eq!(
        r.get_adapter(s("Lending"), s("Nobody")),
        Err(YieldAdapterRegistryError::InvalidYieldAdapter)
    );
    assert!(!r.is_supported_asset(s("Lending"), s("Nobody"), s("USDC")));
}

#[test]
fn register_needs_root_role() {
    let mut r = YieldAdapterRegistry::new(s("O"));
    assert_eq!(r.register_adapter(s("D"), s("Lending"), s("P"), s("a")), Err(DENIED));
    assert_eq!(
        r.get_adapter(s("Lending"), s("P")),
        Err(YieldAdapterRegistryError::InvalidYieldAdapter)
    );
}

#[test]
fn asset_support_is_a_set() {
    let mut r = YieldAdapterRegistry::new(s("O"));
    r.register_adapter(s("O"), s("Lending"), s("P"), s("a")).unwrap();
    assert_eq!(r.add_support_for_asset(s("O"), s("Lending"), s("P"), s("USDC")), Ok(()));
    assert_eq!(r.add_support_for_asset(s("O"), s("Lending"), s("P"), s("USDC")), Ok(()));
    assert!(r.is_supported_asset(s("Lending"), s("P"), s("USDC")));
    let listed = r.get_adapters_with_assets(s("Lending"));
    assert_eq!(listed, vec![(s("a"), vec![s("USDC")])]);
    assert_eq!(r.remove_support_for_asset(s("O"), s("Lending"), s("P"), s("EURC")), Ok(()));
    assert_eq!(r.get_adapters_with_assets(s("Lending")), listed);
    assert_eq!(r.remove_support_for_asset(s("O"), s("Lending"), s("P"), s("USDC")), Ok(()));
    assert!(!r.is_supported_asset(s("Lending"), s("P"), s("USDC")));
    assert_eq!(r.get_adapters_with_assets(s("Lending")), vec![(s("a"), vec![])]);
}

#[test]
fn asset_support_needs_root_role_and_entry() {
    let mut r = YieldAdapterRegistry::new(s("O"));
    r.register_adapter(s("O"), s("Lending"), s("P"), s("a")).unwrap();
    assert_eq!(r.add_support_for_asset(s("D"), s("Lending"), s("P"), s("USDC")), Err(DENIED));
    assert_eq!(
        r.add_support_for_asset(s("O"), s("Lending"), s("Q"), s("USDC")),
        Err(YieldAdapterRegistryError::InvalidYieldAdapter)
    );
    r.add_support_for_asset(s("O"), s("Lending"), s("P"), s("USDC")).unwrap();
    assert_eq!(r.remove_support_for_asset(s("D"), s("Lending"), s("P"), s("USDC")), Err(DENIED));
    assert!(r.is_supported_asset(s("Lending"), s("P"), s("USDC")));
    assert_eq!(r.remove_support_for_asset(s("O"), s("Lending"), s("Q"), s("USDC")), Ok(()));
}

#[test]
fn overwrite_keeps_assets() {
    let mut r = YieldAdapterRegistry::new(s("O"));
    r.register_adapter(s("O"), s("Lending"), s("P"), s("a")).unwrap();
    r.add_support_for_asset(s("O"), s("Lending"), s("P"), s("USDC")).unwrap();
    r.register_adapter(s("O"), s("Lending"), s("P"), s("b")).unwrap();
    assert!(r.is_supported_asset(s("Lending"), s("P"), s("USDC")));
    assert_eq!(r.get_adapter(s("Lending"), s("P")), Ok(s("b")));
}

#[test]
fn listing_by_category() {
    let mut r = YieldAdapterRegistry::new(s("O"));
    assert!(r.get_adapters(s("Lending")).is_empty());
    r.register_adapter(s("O"), s("Lending"), s("P"), s("a")).unwrap();
    r.register_adapter(s("O"), s("Lending"), s("Q"), s("b")).unwrap();
    r.register_adapter(s("O"), s("Staking"), s("P"), s("c")).unwrap();
    let mut lending = r.get_adapters(s("Lending"));
    lending.sort();
    assert_eq!(lending, vec![s("a"), s("b")]);
    assert_eq!(r.get_adapters(s("Staking")), vec![s("c")]);
    assert!(r.get_adapters(s("Other")).is_empty());
    assert!(r.get_adapters_with_assets(s("Other")).is_empty());
}

#[test]
fn registry_admin_rotation() {
    let mut r = YieldAdapterRegistry::new(s("O"));
    assert_eq!(r.set_yield_adapter_admin(s("D"), s("D")), Err(DENIED));
    assert_eq!(r.set_yield_adapter_admin(s("O"), s("N")), Ok(()));
    assert_eq!(r.register_adapter(s("N"), s("Lending"), s("P"), s("a")), Ok(()));
}

#[test]
fn one_listing_per_provider() {
    let mut r = YieldAdapterRegistry::new(s("O"));
    r.register_adapter(s("O"), s("Lending"), s("P"), s("same")).unwrap();
    r.register_adapter(s("O"), s("Lending"), s("Q"), s("same")).unwrap();
    r.register_adapter(s("O"), s("Lending"), s("P"), s("same")).unwrap();
    assert_eq!(r.get_adapters(s("Lending")), vec![s("same"), s("same")]);
    assert_eq!(r.get_adapters_with_assets(s("Lending")).len(), 2);
    assert_eq!(r.remove_adapter(s("O"), s("Lending"), s("Q")), Ok(s("same")));
    assert_eq!(r.get_adapters(s("Lending")), vec![s("same")]);
}

#[test]
fn registry_admin_gate() {
    let mut r = YieldAdapterRegistry::new(s("O"));
    assert_eq!(r.only_admin(&s("O")), Ok(()));
    assert_eq!(r.only_admin(&s("D")), Err(DENIED));
    r.set_yield_adapter_admin(s("O"), s("D")).unwrap();
    assert_eq!(r.only_admin(&s("D")), Ok(()));
}
