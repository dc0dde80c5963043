use vstd::prelude::*;
use crate::access::{AccessControl, default_admin_role, default_admin_role_spec};
use crate::error::AccessControlError;
use crate::token::{TokenCall, process_token_burn, process_token_mint};

verus! {

/// Name of the role that may issue and burn tokens.
pub open spec fn cusd_admin_role_spec() -> Seq<char> {
    "CUSD_ADMN"@
}

/// The issuance role's name as a value.
pub fn cusd_admin_role() -> (r: String)
    ensures
        r@ == cusd_admin_role_spec(),
{
    String::from_str("CUSD_ADMN")
}

/// Rejects amounts below zero; zero is accepted.
pub fn check_nonnegative_amount(amount: i128) -> (r: Result<(), AccessControlError>)
    ensures
        r == (if amount < 0 {
            Err(AccessControlError::NegativeAmountError)
        } else {
            Ok(())
        }),
{
    if amount < 0 {
        Err(AccessControlError::NegativeAmountError)
    } else {
        Ok(())
    }
}

/// Outcome of `issue_cusd` and `burn_cusd` on a state, before the request
/// itself is built: the role check first, then the amount check.
pub open spec fn supply_check(ac: AccessControl, caller: Seq<char>, amount: i128) -> Result<
    (),
    AccessControlError,
> {
    if !ac.holds(cusd_admin_role_spec(), caller) {
        Err(AccessControlError::UnauthorizedError)
    } else if amount < 0 {
        Err(AccessControlError::NegativeAmountError)
    } else {
        Ok(())
    }
}

/// Token issuance gateway: gates mint and burn on one external token behind
/// the issuance role, and issuer rotation behind the root role.
pub struct CUSDManager {
    access: AccessControl,
    cusd_id: String,
}

impl CUSDManager {
    /// The gateway's roles.
    pub closed spec fn roles(&self) -> AccessControl {
        self.access
    }

    /// The address of the external token, fixed at construction.
    pub closed spec fn token(&self) -> String {
        self.cusd_id
    }

    pub closed spec fn wf(&self) -> bool {
        self.access.wf()
    }

    /// Sets up a gateway for the token at `cusd_id`: `owner` holds the root
    /// role, `admin` the issuance role, and the root role administers both.
    pub fn new(cusd_id: String, owner: String, admin: String) -> (r: Self)
        ensures
            r.wf(),
            r.token() == cusd_id,
            r.roles().is_initialized(),
            r.roles().admin_map() == map![
                default_admin_role_spec() => default_admin_role_spec(),
                cusd_admin_role_spec() => default_admin_role_spec(),
            ],
            r.roles().members() == set![
                (default_admin_role_spec(), owner@),
                (cusd_admin_role_spec(), admin@),
            ],
    {
        let mut access = AccessControl::new();
        let _ = access.initialize(&owner);
        let issuer_role = cusd_admin_role();
        access.set_role_admin(&issuer_role, &default_admin_role());
        access.grant_role_unchecked(&issuer_role, &admin);
        proof {
            assert(access.admin_map() =~= map![
                default_admin_role_spec() => default_admin_role_spec(),
                cusd_admin_role_spec() => default_admin_role_spec(),
            ]);
            assert(access.members() =~= set![
                (default_admin_role_spec(), owner@),
                (cusd_admin_role_spec(), admin@),
            ]);
        }
        CUSDManager { access, cusd_id }
    }

    /// Grants the root role to `new_admin`; `caller` must hold the role that
    /// administers it.
    pub fn set_default_admin(&mut self, caller: String, new_admin: String) -> (r: Result<
        (),
        AccessControlError,
    >)
        requires
            old(self).wf(),
        ensures
            final(self).wf(),
            final(self).token() == old(self).token(),
            r == old(self).roles().admin_check(caller@, default_admin_role_spec()),
            r is Ok ==> final(self).roles().members() == old(self).roles().members().insert(
                (default_admin_role_spec(), new_admin@),
            ) && final(self).roles().admin_map() == old(self).roles().admin_map(),
            r is Err ==> *final(self) == *old(self),
    {
        self.access.grant_role(&caller, &default_admin_role(), &new_admin)
    }

    /// Grants the issuance role to `new_admin`; `caller` must hold the role
    /// that administers it.
    pub fn set_cusd_manager_admin(&mut self, caller: String, new_admin: String) -> (r: Result<
        (),
        AccessControlError,
    >)
        requires
            old(self).wf(),
        ensures
            final(self).wf(),
            final(self).token() == old(self).token(),
            r == old(self).roles().admin_check(caller@, cusd_admin_role_spec()),
            r is Ok ==> final(self).roles().members() == old(self).roles().members().insert(
                (cusd_admin_role_spec(), new_admin@),
            ) && final(self).roles().admin_map() == old(self).roles().admin_map(),
            r is Err ==> *final(self) == *old(self),
    {
        self.access.grant_role(&caller, &cusd_admin_role(), &new_admin)
    }

    /// Succeeds exactly when `caller` holds the issuance role.
    pub fn only_admin(&self, caller: String) -> (r: Result<(), AccessControlError>)
        requires
            self.wf(),
        ensures
            r == self.roles().role_check(caller@, cusd_admin_role_spec()),
    {
        self.access.only_role(&caller, &cusd_admin_role())
    }

    /// The address of the external token.
    pub fn get_cusd_id(&self) -> (r: String)
        ensures
            r == self.token(),
    {
        self.cusd_id.clone()
    }

    /// The request that hands the token's administration to `new_issuer`,
    /// where `caller` holds the root role.
    pub fn set_cusd_issuer(&self, caller: String, new_issuer: String) -> (r: Result<
        TokenCall,
        AccessControlError,
    >)
        requires
            self.wf(),
        ensures
            r == (if self.roles().holds(default_admin_role_spec(), caller@) {
                Ok(TokenCall::SetAdmin { token: self.token(), new_admin: new_issuer })
            } else {
                Err(AccessControlError::UnauthorizedError)
            }),
    {
        match self.access.only_role(&caller, &default_admin_role()) {
            Err(e) => Err(e),
            Ok(()) => Ok(TokenCall::SetAdmin { token: self.get_cusd_id(), new_admin: new_issuer }),
        }
    }

    /// The request that mints `amount` to `to`, where `caller` holds the
    /// issuance role and `amount` is not negative.
    pub fn issue_cusd(&self, caller: String, to: String, amount: i128) -> (r: Result<
        TokenCall,
        AccessControlError,
    >)
        requires
            self.wf(),
        ensures
            r == (match supply_check(self.roles(), caller@, amount) {
                Ok(_) => Ok(TokenCall::Mint { token: self.token(), to, amount }),
                Err(e) => Err(e),
            }),
    {
        match self.only_admin(caller) {
            Err(e) => Err(e),
            Ok(()) => match check_nonnegative_amount(amount) {
                Err(e) => Err(e),
                Ok(()) => Ok(process_token_mint(to, self.get_cusd_id(), amount)),
            },
        }
    }

    /// The request by which this gateway, whose own address is `gateway`,
    /// burns `amount` from `from` as authorized spender, where `caller` holds
    /// the issuance role and `amount` is not negative.
    pub fn burn_cusd(&self, gateway: String, caller: String, from: String, amount: i128) -> (r:
        Result<TokenCall, AccessControlError>)
        requires
            self.wf(),
        ensures
            r == (match supply_check(self.roles(), caller@, amount) {
                Ok(_) => Ok(TokenCall::Burn { token: self.token(), spender: gateway, from, amount }),
                Err(e) => Err(e),
            }),
    {
        match self.only_admin(caller) {
            Err(e) => Err(e),
            Ok(()) => match check_nonnegative_amount(amount) {
                Err(e) => Err(e),
                Ok(()) => Ok(process_token_burn(gateway, from, self.get_cusd_id(), amount)),
            },
        }
    }
}

/// For a caller that holds the issuance role, `issue_cusd` and `burn_cusd`
/// with amount -1 fail with `NegativeAmountError`, so no ledger request is
/// made, and with amount 0 they pass the checks: the bound is strictly
/// below zero.
pub proof fn law_amount_boundary(m: CUSDManager, caller: Seq<char>)
    requires
        m.roles().holds(cusd_admin_role_spec(), caller),
    ensures
        supply_check(m.roles(), caller, -1i128) == Err::<(), AccessControlError>(
            AccessControlError::NegativeAmountError,
        ),
        supply_check(m.roles(), caller, 0i128) == Ok::<(), AccessControlError>(()),
{
}

} // verus!
