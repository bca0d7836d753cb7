//! The rules behind the node's REST endpoints: checking a send request
//! before it reaches the mempool, signed stake and vote messages, and the
//! faucet.

use vstd::prelude::*;
use vstd::utf8::encode_utf8;
use crate::blockchain::{Amount, Blockchain, Transaction, address_of_key, bal_of, credited, nonce_of,
    payload_text, sig_check, tx_hash_spec};
use crate::consensus::{MIN_STAKE, Validator, ValidatorRegistry, power_of};
use crate::crypto::{decode_hex, ed25519_verify, sha256_hex_spec};
use crate::strmap::{has_key, lookup, map_of};
use crate::text::{decimal, push_decimal};
use crate::tokenomics::MIN_GAS_FEE;

verus! {

pub struct SendTxRequest {
    pub from: String,
    pub to: String,
    pub amount: u128,
    pub gas_fee: u128,
    pub nonce: u64,
    pub public_key: String,
    pub signature: String,
    pub data: Option<String>,
}

pub struct StakeRequest {
    pub address: String,
    pub amount: u128,
    pub signature: String,
    pub public_key: String,
}

pub struct VoteRequest {
    pub address: String,
    pub proposal_id: u64,
    pub vote: bool,
    pub signature: String,
    pub public_key: String,
}

/// 100 DVC.
pub const FAUCET_AMOUNT: u128 = 100_000_000;

/// Checks an Ed25519 signature given as hex over the text `msg`.
pub fn verify_sig(pub_hex: &str, sig_hex: &str, msg: &str) -> (ok: bool)
    ensures
        ok == sig_check(pub_hex@, sig_hex@, msg@),
{
    let pk = match decode_hex(pub_hex) {
        Some(b) => b,
        None => return false,
    };
    if pk.len() != 32 {
        return false;
    }
    let sig = match decode_hex(sig_hex) {
        Some(b) => b,
        None => return false,
    };
    if sig.len() != 64 {
        return false;
    }
    ed25519_verify(pk.as_slice(), msg.as_bytes(), sig.as_slice())
}

/// The hash that a send request at `timestamp` is signed over.
pub open spec fn request_hash(req: SendTxRequest, timestamp: u64) -> Seq<char> {
    sha256_hex_spec(encode_utf8(payload_text(req.from@, req.to@, req.amount, req.gas_fee, req.nonce, timestamp)))
}

/// The checks a send request must pass before its amount and gas are added
/// up, in order, with the error of the first that fails.
pub open spec fn send_precheck(bc: &Blockchain, req: SendTxRequest, timestamp: u64) -> Option<&'static str> {
    if req.amount == 0 {
        Some("Amount must be > 0")
    } else if req.gas_fee < MIN_GAS_FEE {
        Some("Gas fee too low")
    } else if !sig_check(req.public_key@, req.signature@, request_hash(req, timestamp)) {
        Some("Invalid signature — transaction rejected")
    } else if address_of_key(req.public_key@) != req.from@ {
        Some("Public key does not match from address")
    } else if req.nonce != nonce_of(bc.ledger.nonces(), req.from@) {
        Some("Invalid nonce")
    } else {
        None
    }
}

/// A request that passes the first checks but whose amount plus gas does
/// not fit in `u128`, where the unchecked sum would overflow.
pub open spec fn send_sum_overflows(bc: &Blockchain, req: SendTxRequest, timestamp: u64) -> bool {
    send_precheck(bc, req, timestamp) is None && req.amount + req.gas_fee > u128::MAX
}

/// The checks a send request must pass, in order, with the error of the
/// first that fails: the first checks, then the balance covering amount and
/// gas.
pub open spec fn send_check(bc: &Blockchain, req: SendTxRequest, timestamp: u64) -> Option<&'static str> {
    match send_precheck(bc, req, timestamp) {
        Some(e) => Some(e),
        None => if bal_of(bc.ledger.balances(), req.from@) < req.amount + req.gas_fee {
            Some("Insufficient balance")
        } else {
            None
        },
    }
}

/// The transaction a request stands for (not yet hashed), or the error of
/// the first of the checks made before amount and gas are added up.
fn prepare_send(bc: &Blockchain, req: &SendTxRequest, timestamp: u64) -> (r: Result<Transaction, &'static str>)
    requires
        bc.wf(),
    ensures
        match send_precheck(bc, *req, timestamp) {
            Some(e) => r == Err::<Transaction, &'static str>(e),
            None => r matches Ok(tx) && {
                &&& tx.from == req.from
                &&& tx.to == req.to
                &&& tx.amount == req.amount
                &&& tx.gas_fee == req.gas_fee
                &&& tx.nonce == req.nonce
                &&& tx.data == req.data
                &&& tx.signature == req.signature
                &&& tx.public_key == req.public_key
                &&& tx.timestamp == timestamp
            },
        },
{
    if req.amount == 0 {
        return Err("Amount must be > 0");
    }
    if req.gas_fee < MIN_GAS_FEE {
        return Err("Gas fee too low");
    }
    let data = match &req.data {
        Some(d) => Some(d.clone()),
        None => None,
    };
    let tx = Transaction {
        tx_hash: String::new(),
        from: req.from.clone(),
        to: req.to.clone(),
        amount: req.amount,
        gas_fee: req.gas_fee,
        nonce: req.nonce,
        data,
        signature: req.signature.clone(),
        public_key: req.public_key.clone(),
        timestamp,
    };
    if !tx.verify_signature() {
        return Err("Invalid signature — transaction rejected");
    }
    let sender = tx.sender_address();
    if sender != req.from {
        return Err("Public key does not match from address");
    }
    if req.nonce != bc.ledger.nonce(req.from.as_str()) {
        return Err("Invalid nonce");
    }
    Ok(tx)
}

/// Turns a send request into the transaction to queue: the amount must be
/// positive, the gas at least the minimum, the signature must hold, the key
/// must match the sender, the nonce must be the sender's next and the
/// balance must cover amount and gas.
pub fn check_send_request(bc: &Blockchain, req: &SendTxRequest, timestamp: u64) -> (r: Result<Transaction, &'static str>)
    requires
        bc.wf(),
        !send_sum_overflows(bc, *req, timestamp),
    ensures
        match send_check(bc, *req, timestamp) {
            Some(e) => r == Err::<Transaction, &'static str>(e),
            None => r matches Ok(tx) && {
                &&& tx.from == req.from
                &&& tx.to == req.to
                &&& tx.amount == req.amount
                &&& tx.gas_fee == req.gas_fee
                &&& tx.nonce == req.nonce
                &&& tx.data == req.data
                &&& tx.signature == req.signature
                &&& tx.public_key == req.public_key
                &&& tx.timestamp == timestamp
                &&& tx.tx_hash@ == tx_hash_spec(tx)
                &&& tx.tx_hash@ == request_hash(*req, timestamp)
            },
        },
{
    let mut tx = match prepare_send(bc, req, timestamp) {
        Ok(tx) => tx,
        Err(e) => return Err(e),
    };
    let cost = req.amount + req.gas_fee;
    if bc.ledger.balance(req.from.as_str()) < cost {
        return Err("Insufficient balance");
    }
    tx.tx_hash = tx.compute_hash();
    Ok(tx)
}

/// `check_send_request` for any request: `None` exactly where the request
/// passes the first checks but its amount plus gas overflows `u128` (there
/// the unchecked sum would overflow), else the check's answer.
pub fn check_send_request_guarded(bc: &Blockchain, req: &SendTxRequest, timestamp: u64) -> (r: Option<Result<Transaction, &'static str>>)
    requires
        bc.wf(),
    ensures
        send_sum_overflows(bc, *req, timestamp) <==> r is None,
        r matches Some(c) ==> match send_check(bc, *req, timestamp) {
            Some(e) => c == Err::<Transaction, &'static str>(e),
            None => c matches Ok(tx) && {
                &&& tx.from == req.from
                &&& tx.to == req.to
                &&& tx.amount == req.amount
                &&& tx.gas_fee == req.gas_fee
                &&& tx.nonce == req.nonce
                &&& tx.data == req.data
                &&& tx.signature == req.signature
                &&& tx.public_key == req.public_key
                &&& tx.timestamp == timestamp
                &&& tx.tx_hash@ == tx_hash_spec(tx)
                &&& tx.tx_hash@ == request_hash(*req, timestamp)
            },
        },
{
    if req.amount > u128::MAX - req.gas_fee {
        if let Ok(_) = prepare_send(bc, req, timestamp) {
            return None;
        }
    }
    Some(check_send_request(bc, req, timestamp))
}

/// A send request that passes its checks is in order: a positive amount,
/// at least the minimum gas, a signature that holds over the request's hash,
/// a key that stands for the sender, the sender's next nonce, and a balance
/// that covers the amount plus the gas.
pub proof fn law_accepted_request_is_covered(bc: &Blockchain, req: SendTxRequest, timestamp: u64)
    requires
        send_check(bc, req, timestamp) is None,
    ensures
        req.amount > 0,
        req.gas_fee >= MIN_GAS_FEE,
        sig_check(req.public_key@, req.signature@, request_hash(req, timestamp)),
        address_of_key(req.public_key@) == req.from@,
        req.nonce == nonce_of(bc.ledger.nonces(), req.from@),
        bal_of(bc.ledger.balances(), req.from@) >= req.amount + req.gas_fee,
{
}

/// `stake:{address}:{amount}`, the text a stake request signs.
pub open spec fn stake_message_spec(address: Seq<char>, amount: u128) -> Seq<char> {
    "stake:"@ + address + ":"@ + decimal(amount as nat)
}

pub fn stake_message(address: &str, amount: u128) -> (m: String)
    ensures
        m@ == stake_message_spec(address@, amount),
{
    let mut m = String::new();
    m.append("stake:");
    m.append(address);
    m.append(":");
    push_decimal(&mut m, amount);
    m
}

/// `vote:{proposal_id}:{true|false}`, the text a vote request signs.
pub open spec fn vote_message_spec(proposal_id: u64, vote: bool) -> Seq<char> {
    "vote:"@ + decimal(proposal_id as nat) + ":"@ + if vote { "true"@ } else { "false"@ }
}

pub fn vote_message(proposal_id: u64, vote: bool) -> (m: String)
    ensures
        m@ == vote_message_spec(proposal_id, vote),
{
    let mut m = String::new();
    m.append("vote:");
    push_decimal(&mut m, proposal_id as u128);
    m.append(":");
    if vote {
        m.append("true");
    } else {
        m.append("false");
    }
    m
}

/// Registers the signer of a stake request as a validator with reputation
/// 50; a stake below the minimum is silently not registered. Returns the
/// staked amount.
pub fn stake(validators: &mut ValidatorRegistry, req: &StakeRequest) -> (r: Result<u128, &'static str>)
    requires
        old(validators).wf(),
    ensures
        final(validators).wf(),
        !sig_check(req.public_key@, req.signature@, stake_message_spec(req.address@, req.amount)) ==> {
            &&& r == Err::<u128, &'static str>("Invalid stake signature")
            &&& final(validators).entries() == old(validators).entries()
        },
        sig_check(req.public_key@, req.signature@, stake_message_spec(req.address@, req.amount)) ==> {
            &&& r == Ok::<u128, &'static str>(req.amount)
            &&& req.amount < MIN_STAKE ==> final(validators).entries() == old(validators).entries()
            &&& req.amount >= MIN_STAKE ==> map_of(final(validators).entries()) == map_of(old(validators).entries()).insert(
                req.address@,
                Validator { address: req.address, stake: req.amount, reputation: 50, blocks_produced: 0, active: true },
            )
        },
{
    let msg = stake_message(req.address.as_str(), req.amount);
    if !verify_sig(req.public_key.as_str(), req.signature.as_str(), msg.as_str()) {
        return Err("Invalid stake signature");
    }
    let _ = validators.register(Validator {
        address: req.address.clone(),
        stake: req.amount,
        reputation: 50,
        blocks_produced: 0,
        active: true,
    });
    Ok(req.amount)
}

/// The weight of a vote by `address`: its validator voting power, or
/// 1_000_000 for an address that is no validator.
pub fn voting_power_for(validators: &ValidatorRegistry, address: &str) -> (p: u128)
    requires
        validators.wf(),
    ensures
        p == match lookup(validators.entries(), address@) {
            Some(v) => power_of(v),
            None => 1_000_000,
        },
{
    match validators.get(address) {
        Some(v) => v.voting_power(),
        None => 1_000_000,
    }
}

/// Credits `addr` with the faucet amount and returns it.
pub fn faucet(bc: &mut Blockchain, addr: &str) -> (amount: u128)
    requires
        old(bc).wf(),
        bal_of(old(bc).ledger.balances(), addr@) + FAUCET_AMOUNT <= u128::MAX,
    ensures
        final(bc).wf(),
        amount == FAUCET_AMOUNT,
        final(bc).ledger.balances() == credited(old(bc).ledger.balances(), addr@, FAUCET_AMOUNT as int),
        final(bc).ledger.nonces() == old(bc).ledger.nonces(),
        final(bc).chain@ == old(bc).chain@,
{
    bc.ledger.credit(addr, FAUCET_AMOUNT);
    FAUCET_AMOUNT
}

} // verus!
