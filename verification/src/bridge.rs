//! Cross-chain bridge: the chains served, the stages of a transfer and the
//! lock-then-mint sequence.

use vstd::prelude::*;

verus! {

#[derive(Debug, Clone, Copy, PartialEq, Eq, Structural)]
pub enum Chain {
    DevilChain,
    Ethereum,
    BNBChain,
    Polygon,
    Solana,
}

#[derive(Debug, Clone, Copy, PartialEq, Eq, Structural)]
pub enum BridgeStatus {
    Pending,
    Locked,
    Minting,
    Completed,
    Failed,
}

/// The bridge's steps. A request is carried through them as it is: no step
/// reads from it (its amount is a floating-point value kept by the caller),
/// so the steps are generic over the request type.
pub struct DevilBridge;

impl DevilBridge {
    /// Locks the funds on the source chain.
    pub fn lock<R>(_req: &R) -> (s: BridgeStatus)
        ensures
            s == BridgeStatus::Locked,
    {
        BridgeStatus::Locked
    }

    /// Mints the bridged amount on the target chain.
    pub fn mint<R>(_req: &R) -> (s: BridgeStatus)
        ensures
            s == BridgeStatus::Completed,
    {
        BridgeStatus::Completed
    }

    /// Locks, then mints once the lock holds; any other lock outcome fails
    /// the transfer.
    pub fn bridge<R>(req: R) -> (s: BridgeStatus)
        ensures
            s == BridgeStatus::Completed,
    {
        match Self::lock(&req) {
            BridgeStatus::Locked => Self::mint(&req),
            _ => BridgeStatus::Failed,
        }
    }
}

} // verus!
