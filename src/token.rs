use vstd::prelude::*;

verus! {

/// A request to the external token ledger. The gateway decides on it; the
/// host performs it, and a failure there aborts the whole call.
#[derive(Clone, Debug, PartialEq, Eq)]
pub enum TokenCall {
    /// Mint `amount` of the token at `token` to `to`.
    Mint { token: String, to: String, amount: i128 },
    /// Burn `amount` of the token at `token` from the balance of `from`,
    /// with `spender` acting as the authorized spender.
    Burn { token: String, spender: String, from: String, amount: i128 },
    /// Hand administrative control of the token at `token` to `new_admin`.
    SetAdmin { token: String, new_admin: String },
}

/// The ledger request that mints `amount` to `to`.
pub fn process_token_mint(to: String, token_address: String, amount: i128) -> (r: TokenCall)
    ensures
        r == (TokenCall::Mint { token: token_address, to, amount }),
{
    TokenCall::Mint { token: token_address, to, amount }
}

/// The ledger request by which `spender` burns `amount` from the balance
/// of `from`.
pub fn process_token_burn(
    spender: String,
    from: String,
    token_address: String,
    amount: i128,
) -> (r: TokenCall)
    ensures
        r == (TokenCall::Burn { token: token_address, spender, from, amount }),
{
    TokenCall::Burn { token: token_address, spender, from, amount }
}

} // verus!
