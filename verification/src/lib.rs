//! DevilChain core library: tokenomics, ledger and block rules, mempool,
//! validator selection, identity registry and storage bookkeeping, each
//! stated over a mathematical model and proved with Verus.

pub mod ai;
pub mod api;
pub mod blockchain;
pub mod bridge;
pub mod consensus;
pub mod crypto;
pub mod dao;
pub mod identity;
pub mod mempool;
pub mod mining;
pub mod sdk;
pub mod storage;
pub mod strmap;
pub mod text;
pub mod tokenomics;
pub mod wallet;
