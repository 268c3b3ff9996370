use vstd::prelude::*;
use crate::types::{Address, Env};

verus! {

/// A stand-in for the ticket factory, the ticket NFT and the payment token
/// at once: it deploys nothing, mints ticket number one, and moves no money.
pub struct MockContract;

impl MockContract {
    /// Pretends to deploy a ticket contract and hands back its own address.
    pub fn deploy_ticket(env: Env, minter: Address, salt: [u8; 32]) -> (deployed: Address)
        ensures
            deployed == env.current_contract,
    {
        env.current_contract
    }

    /// Pretends to mint a ticket for `recipient`; every ticket is number one.
    pub fn mint_ticket_nft(env: Env, recipient: Address) -> (token_id: u128)
        ensures
            token_id == 1,
    {
        1
    }

    /// Pretends to move `amount` from `from` to `to`; nothing changes.
    pub fn transfer(env: Env, from: Address, to: Address, amount: i128) {
    }
}

} // verus!
