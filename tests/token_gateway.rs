use coopstable::access::default_admin_role;
use coopstable::cusd_manager::{check_nonnegative_amount, cusd_admin_role, CUSDManager};
use coopstable::error::AccessControlError;
use coopstable::token::{process_token_burn, process_token_mint, TokenCall};

fn s(x: &str) -> String {
    x.to_string()
}

fn gateway() -> CUSDManager {
    CUSDManager::new(s("token"), s("O"), s("issuer"))
}

#[test]
fn issue_scenario_with_granted_and_ungranted_callers() {
    let mut m = CUSDManager::new(s("token"), s("O"), s("issuer"));
    assert_eq!(m.set_cusd_manager_admin(s("O"), s("A")), Ok(()));
    assert_eq!(
        m.issue_cusd(s("A"), s("B"), 100),
        Ok(TokenCall::Mint { token: s("token"), to: s("B"), amount: 100 })
    );
    assert_eq!(
        m.issue_cusd(s("C"), s("B"), 1),
        Err(AccessControlError::UnauthorizedError)
    );
}

#[test]
fn amount_boundary() {
    let m = gateway();
    assert_eq!(
        m.issue_cusd(s("issuer"), s("B"), -1),
        Err(AccessControlError::NegativeAmountError)
    );
    assert_eq!(
        m.burn_cusd(s("gw"), s("issuer"), s("B"), -1),
        Err(AccessControlError::NegativeAmountError)
    );
    assert_eq!(
        m.issue_cusd(s("issuer"), s("B"), 0),
        Ok(TokenCall::Mint { token: s("token"), to: s("B"), amount: 0 })
    );
    assert_eq!(
        m.burn_cusd(s("gw"), s("issuer"), s("B"), 0),
        Ok(TokenCall::Burn { token: s("token"), spender: s("gw"), from: s("B"), amount: 0 })
    );
}

#[test]
fn role_check_comes_before_amount_check() {
    let m = gateway();
    assert_eq!(
        m.burn_cusd(s("gw"), s("C"), s("B"), -1),
        Err(AccessControlError::UnauthorizedError)
    );
}

#[test]
fn burn_request() {
    let m = gateway();
    assert_eq!(
        m.burn_cusd(s("gw"), s("issuer"), s("holder"), 42),
        Ok(TokenCall::Burn { token: s("token"), spender: s("gw"), from: s("holder"), amount: 42 })
    );
    assert_eq!(
        m.burn_cusd(s("gw"), s("O"), s("holder"), 42),
        Err(AccessControlError::UnauthorizedError)
    );
}

#[test]
fn nonnegative_amount_check() {
    assert_eq!(check_nonnegative_amount(-1), Err(AccessControlError::NegativeAmountError));
    assert_eq!(check_nonnegative_amount(i128::MIN), Err(AccessControlError::NegativeAmountError));
    assert_eq!(check_nonnegative_amount(0), Ok(()));
    assert_eq!(check_nonnegative_amount(i128::MAX), Ok(()));
}

#[test]
fn issuer_rotation_needs_root_role() {
    let m = gateway();
    assert_eq!(
        m.set_cusd_issuer(s("issuer"), s("new")),
        Err(AccessControlError::UnauthorizedError)
    );
    assert_eq!(
        m.set_cusd_issuer(s("O"), s("new")),
        Ok(TokenCall::SetAdmin { token: s("token"), new_admin: s("new") })
    );
}

#[test]
fn token_address_is_kept() {
    let m = gateway();
    assert_eq!(m.get_cusd_id(), "token");
    assert_eq!(m.get_cusd_id(), "token");
}

#[test]
fn admin_rotation() {
    let mut m = gateway();
    assert_eq!(m.only_admin(s("issuer")), Ok(()));
    assert_eq!(m.only_admin(s("O")), Err(AccessControlError::UnauthorizedError));
    assert_eq!(
        m.set_default_admin(s("issuer"), s("X")),
        Err(AccessControlError::UnauthorizedError)
    );
    assert_eq!(m.set_default_admin(s("O"), s("X")), Ok(()));
    assert_eq!(m.set_cusd_manager_admin(s("X"), s("Y")), Ok(()));
    assert_eq!(m.only_admin(s("Y")), Ok(()));
    assert_eq!(
        m.set_cusd_issuer(s("X"), s("Z")),
        Ok(TokenCall::SetAdmin { token: s("token"), new_admin: s("Z") })
    );
}

#[test]
fn role_names() {
    assert_eq!(cusd_admin_role(), "CUSD_ADMN");
    assert_eq!(default_admin_role(), "DEFAULT_ADMIN");
}

#[test]
fn ledger_requests() {
    assert_eq!(
        process_token_mint(s("to"), s("tok"), 5),
        TokenCall::Mint { token: s("tok"), to: s("to"), amount: 5 }
    );
    assert_eq!(
        process_token_burn(s("gw"), s("from"), s("tok"), 7),
        TokenCall::Burn { token: s("tok"), spender: s("gw"), from: s("from"), amount: 7 }
    );
}
