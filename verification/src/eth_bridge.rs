//! Ethereum bridge: lock-mint canonical bridge for EVM <-> X3.
//!
//! An ERC-20 amount locked on Ethereum is minted as a wrapped token on X3
//! once the deposit has 12 confirmations and its bridge message carries the
//! signatures of enough bridge validators (5 of 7). Burning the wrapped token
//! releases the lock; an unconfirmed deposit can be refunded.

use vstd::prelude::*;
use crate::strmap::StrMap;
use crate::text::{concat2, concat3, decimal, decimal_spec, owned};

verus! {

/// ERC-20 token on Ethereum.
#[derive(Clone, Debug)]
pub struct ERC20Token {
    pub address: String,
    pub name: String,
    pub decimals: u8,
    pub total_supply: u128,
}

/// Bridge deposit (lock on Ethereum).
#[derive(Clone, Debug)]
pub struct BridgeDeposit {
    pub id: String,
    /// Ethereum address of the depositor.
    pub depositor: String,
    /// ERC-20 token address.
    pub token: String,
    pub amount: u128,
    pub eth_block: u64,
    pub eth_tx_hash: String,
    pub status: DepositStatus,
}

/// Lifecycle of a deposit.
#[derive(Clone, Debug)]
pub enum DepositStatus {
    Locked,
    Confirmed { confirmations: u32 },
    Minted { x3_recipient: String, x3_block: u32 },
    Refunded { reason: String },
}

/// Cross-chain validator message.
#[derive(Clone, Debug)]
pub struct BridgeMessage {
    pub id: String,
    pub deposit_id: String,
    pub message_hash: [u8; 32],
    pub signatures: Vec<ValidatorSignature>,
    pub status: MessageStatus,
}

/// A validator's signature on a bridge message.
#[derive(Clone, Debug)]
pub struct ValidatorSignature {
    pub validator_id: u32,
    pub signature: Vec<u8>,
}

/// Lifecycle of a bridge message.
#[derive(Clone, Debug)]
pub enum MessageStatus {
    Pending { collected: u32 },
    Signed { threshold_met: bool },
    Executed { x3_block: u32 },
}

/// Ethereum bridge state.
pub struct EthereumBridge {
    /// Ethereum side: deposit id -> amount locked.
    pub eth_locked: StrMap<u128>,
    /// Registered ERC-20 tokens by address.
    pub token_registry: StrMap<ERC20Token>,
    /// X3 side: "<token>_<account>" -> wrapped balance.
    pub wrapped_tokens: StrMap<u128>,
    pub deposits: StrMap<BridgeDeposit>,
    pub messages: StrMap<BridgeMessage>,
    /// Bridge validators (multisig).
    pub validators: Vec<String>,
    /// Signatures needed to mint.
    pub signature_threshold: u32,
    pub next_deposit_id: u64,
}

impl DepositStatus {
    fn copy(&self) -> (r: Self)
        ensures
            r == *self,
    {
        match self {
            DepositStatus::Locked => DepositStatus::Locked,
            DepositStatus::Confirmed { confirmations } => DepositStatus::Confirmed { confirmations: *confirmations },
            DepositStatus::Minted { x3_recipient, x3_block } => DepositStatus::Minted { x3_recipient: x3_recipient.clone(), x3_block: *x3_block },
            DepositStatus::Refunded { reason } => DepositStatus::Refunded { reason: reason.clone() },
        }
    }
}

impl BridgeDeposit {
    fn copy(&self) -> (r: Self)
        ensures
            r == *self,
    {
        BridgeDeposit {
            id: self.id.clone(),
            depositor: self.depositor.clone(),
            token: self.token.clone(),
            amount: self.amount,
            eth_block: self.eth_block,
            eth_tx_hash: self.eth_tx_hash.clone(),
            status: self.status.copy(),
        }
    }
}

/// No validator occurs twice among the signatures.
pub open spec fn distinct_signers(s: Seq<ValidatorSignature>) -> bool {
    forall|i: int, j: int| 0 <= i < j < s.len() ==> s[i].validator_id != s[j].validator_id
}

/// `validator` has signed.
pub open spec fn has_signed(s: Seq<ValidatorSignature>, validator: u32) -> bool {
    exists|i: int| 0 <= i < s.len() && s[i].validator_id == validator
}

/// Key of the deposit with number `n`: `deposit_<n>`.
pub open spec fn deposit_key(n: u64) -> Seq<char> {
    "deposit_"@ + decimal_spec(n as nat)
}

/// Key of a wrapped balance: `<token>_<account>`.
pub open spec fn wrapped_key(token: Seq<char>, account: Seq<char>) -> Seq<char> {
    token + "_"@ + account
}

/// Message hash of a deposit id: its UTF-8 bytes, truncated or zero-padded to 32 bytes.
pub open spec fn message_hash_of(id: Seq<char>) -> Seq<u8> {
    let b = vstd::utf8::encode_utf8(id);
    Seq::new(32, |i: int| if i < b.len() { b[i] } else { 0u8 })
}

/// Confirmation count of a deposit at `eth_block` seen at block `current`, capped at `u32::MAX`.
pub open spec fn confirmations_of(current: u64, eth_block: u64) -> u32 {
    let d = current - eth_block;
    if d > u32::MAX { u32::MAX } else { d as u32 }
}

impl EthereumBridge {
    /// Every map is well formed and every message has distinct signers.
    pub open spec fn wf(&self) -> bool {
        &&& self.eth_locked.wf()
        &&& self.token_registry.wf()
        &&& self.wrapped_tokens.wf()
        &&& self.deposits.wf()
        &&& self.messages.wf()
        &&& forall|k: Seq<char>| #[trigger] self.messages@.dom().contains(k) ==> distinct_signers(self.messages@[k].signatures@)
    }

    /// Create a bridge with the given validators (exactly 7) and a 5-of-7 threshold.
    pub fn new(validators: Vec<String>) -> (b: Self)
        requires
            validators@.len() == 7,
        ensures
            b.wf(),
            b.eth_locked@ == Map::<Seq<char>, u128>::empty(),
            b.token_registry@ == Map::<Seq<char>, ERC20Token>::empty(),
            b.wrapped_tokens@ == Map::<Seq<char>, u128>::empty(),
            b.deposits@ == Map::<Seq<char>, BridgeDeposit>::empty(),
            b.messages@ == Map::<Seq<char>, BridgeMessage>::empty(),
            b.validators == validators,
            b.signature_threshold == 5,
            b.next_deposit_id == 1,
    {
        EthereumBridge {
            eth_locked: StrMap::new(),
            token_registry: StrMap::new(),
            wrapped_tokens: StrMap::new(),
            deposits: StrMap::new(),
            messages: StrMap::new(),
            validators,
            signature_threshold: 5,
            next_deposit_id: 1,
        }
    }

    /// Register an ERC-20 token for bridging; the address must not be empty.
    pub fn register_token(&mut self, token: ERC20Token) -> (r: Result<(), String>)
        requires
            old(self).wf(),
        ensures
            final(self).wf(),
            match r {
                Err(e) => token.address@.len() == 0 && e@ == "Token address cannot be empty"@
                    && *final(self) == *old(self),
                Ok(_) => token.address@.len() != 0
                    && final(self).token_registry@ == old(self).token_registry@.insert(token.address@, token)
                    && *final(self) == (EthereumBridge { token_registry: final(self).token_registry, ..*old(self) }),
            },
    {
        if token.address.as_str().is_empty() {
            return Err(owned("Token address cannot be empty"));
        }
        let key = token.address.clone();
        self.token_registry.insert(key, token);
        Ok(())
    }

    /// Lock an ERC-20 amount on the Ethereum side (phase 1): records a new
    /// `Locked` deposit `deposit_<n>` and its locked amount.
    pub fn lock_on_ethereum(
        &mut self,
        depositor: String,
        token_addr: String,
        amount: u128,
        eth_block: u64,
        eth_tx_hash: String,
    ) -> (r: Result<BridgeDeposit, String>)
        requires
            old(self).wf(),
            old(self).next_deposit_id < u64::MAX,
        ensures
            final(self).wf(),
            match r {
                Err(e) => !old(self).token_registry@.dom().contains(token_addr@)
                    && e@ == "Token not registered on bridge"@
                    && *final(self) == *old(self),
                Ok(d) => old(self).token_registry@.dom().contains(token_addr@)
                    && d.id@ == deposit_key(old(self).next_deposit_id)
                    && d.depositor == depositor && d.token == token_addr && d.amount == amount
                    && d.eth_block == eth_block && d.eth_tx_hash == eth_tx_hash
                    && d.status == DepositStatus::Locked
                    && final(self).deposits@ == old(self).deposits@.insert(d.id@, d)
                    && final(self).eth_locked@ == old(self).eth_locked@.insert(d.id@, amount)
                    && final(self).next_deposit_id == old(self).next_deposit_id + 1
                    && *final(self) == (EthereumBridge {
                        deposits: final(self).deposits,
                        eth_locked: final(self).eth_locked,
                        next_deposit_id: final(self).next_deposit_id,
                        ..*old(self)
                    }),
            },
    {
        if !self.token_registry.contains_key(token_addr.as_str()) {
            return Err(owned("Token not registered on bridge"));
        }
        let num = decimal(self.next_deposit_id);
        let id = concat2("deposit_", num.as_str());
        let deposit = BridgeDeposit {
            id,
            depositor,
            token: token_addr,
            amount,
            eth_block,
            eth_tx_hash,
            status: DepositStatus::Locked,
        };
        self.next_deposit_id = self.next_deposit_id + 1;
        self.eth_locked.insert(deposit.id.clone(), amount);
        self.deposits.insert(deposit.id.clone(), deposit.copy());
        Ok(deposit)
    }

    /// Confirm a deposit once it has 12 Ethereum confirmations.
    pub fn confirm_deposit(&mut self, deposit_id: &str, current_block: u64) -> (r: Result<(), String>)
        requires
            old(self).wf(),
        ensures
            final(self).wf(),
            ({
                let dep = old(self).deposits@[deposit_id@];
                match r {
                    Err(e) => *final(self) == *old(self) && (
                        (!old(self).deposits@.dom().contains(deposit_id@) && e@ == "Deposit not found"@)
                        || (old(self).deposits@.dom().contains(deposit_id@) && current_block < dep.eth_block
                            && e@ == "block number regression detected"@)
                        || (old(self).deposits@.dom().contains(deposit_id@) && current_block >= dep.eth_block
                            && confirmations_of(current_block, dep.eth_block) < 12
                            && e@ == "Need 12 confirmations, have "@ + decimal_spec(confirmations_of(current_block, dep.eth_block) as nat))),
                    Ok(_) => old(self).deposits@.dom().contains(deposit_id@)
                        && current_block >= dep.eth_block
                        && confirmations_of(current_block, dep.eth_block) >= 12
                        && final(self).deposits@ == old(self).deposits@.insert(deposit_id@,
                            BridgeDeposit { status: DepositStatus::Confirmed { confirmations: confirmations_of(current_block, dep.eth_block) }, ..dep })
                        && *final(self) == (EthereumBridge { deposits: final(self).deposits, ..*old(self) }),
                }
            }),
    {
        let eth_block = match self.deposits.get(deposit_id) {
            Some(d) => d.eth_block,
            None => { return Err(owned("Deposit not found")); },
        };
        if current_block < eth_block {
            return Err(owned("block number regression detected"));
        }
        let diff: u64 = current_block - eth_block;
        let confirmations: u32 = if diff > 0xffff_ffffu64 { 0xffff_ffffu32 } else { diff as u32 };
        if confirmations < 12 {
            let n = decimal(confirmations as u64);
            return Err(concat2("Need 12 confirmations, have ", n.as_str()));
        }
        let mut deposit = match self.deposits.remove(deposit_id) {
            Some(d) => d,
            None => { return Err(owned("Deposit not found")); },
        };
        deposit.status = DepositStatus::Confirmed { confirmations };
        self.deposits.insert(owned(deposit_id), deposit);
        proof {
            assert(self.deposits@ =~= old(self).deposits@.insert(deposit_id@,
                BridgeDeposit { status: DepositStatus::Confirmed { confirmations }, ..old(self).deposits@[deposit_id@] }));
        }
        Ok(())
    }

    /// Create the bridge message of a confirmed deposit for validators to sign.
    pub fn create_bridge_message(&mut self, deposit_id: String) -> (r: Result<BridgeMessage, String>)
        requires
            old(self).wf(),
        ensures
            final(self).wf(),
            match r {
                Err(e) => *final(self) == *old(self) && (
                    (!old(self).deposits@.dom().contains(deposit_id@) && e@ == "Deposit not found"@)
                    || (old(self).deposits@.dom().contains(deposit_id@)
                        && !(old(self).deposits@[deposit_id@].status is Confirmed)
                        && e@ == "Deposit not confirmed"@)),
                Ok(m) => old(self).deposits@.dom().contains(deposit_id@)
                    && old(self).deposits@[deposit_id@].status is Confirmed
                    && m.id@ == "msg_"@ + deposit_id@
                    && m.deposit_id == deposit_id
                    && m.message_hash@ == message_hash_of(deposit_id@)
                    && m.signatures@.len() == 0
                    && m.status == (MessageStatus::Pending { collected: 0 })
                    && final(self).messages@.dom() == old(self).messages@.dom().insert(m.id@)
                    && (forall|k: Seq<char>| k != m.id@ && #[trigger] old(self).messages@.dom().contains(k)
                        ==> final(self).messages@[k] == old(self).messages@[k])
                    && ({
                        let s = final(self).messages@[m.id@];
                        &&& s.id == m.id && s.deposit_id == m.deposit_id && s.message_hash == m.message_hash
                        &&& s.signatures@.len() == 0 && s.status == m.status
                    })
                    && *final(self) == (EthereumBridge { messages: final(self).messages, ..*old(self) }),
            },
    {
        let confirmed = match self.deposits.get(deposit_id.as_str()) {
            Some(d) => match &d.status {
                DepositStatus::Confirmed { .. } => true,
                _ => false,
            },
            None => { return Err(owned("Deposit not found")); },
        };
        if !confirmed {
            return Err(owned("Deposit not confirmed"));
        }
        let mut hash = [0u8; 32];
        let id_bytes = deposit_id.as_str().as_bytes();
        let n = if id_bytes.len() < 32 { id_bytes.len() } else { 32 };
        let mut i: usize = 0;
        while i < n
            invariant
                n <= 32,
                n <= id_bytes@.len(),
                n == (if id_bytes@.len() < 32 { id_bytes@.len() } else { 32 }),
                i <= n,
                id_bytes@ == vstd::utf8::encode_utf8(deposit_id@),
                forall|j: int| 0 <= j < 32 ==> hash@[j] == (if j < i { id_bytes@[j] } else { 0u8 }),
            decreases n - i,
        {
            let b = id_bytes[i];
            let h = hash[i];
            assert(h == 0);
            assert(0u8 ^ b == b) by (bit_vector);
            hash[i] = h ^ b;
            i = i + 1;
        }
        assert(hash@ =~= message_hash_of(deposit_id@));
        let id = concat2("msg_", deposit_id.as_str());
        let stored = BridgeMessage {
            id: id.clone(),
            deposit_id: deposit_id.clone(),
            message_hash: hash,
            signatures: Vec::new(),
            status: MessageStatus::Pending { collected: 0 },
        };
        let message = BridgeMessage {
            id: id.clone(),
            deposit_id,
            message_hash: hash,
            signatures: Vec::new(),
            status: MessageStatus::Pending { collected: 0 },
        };
        self.messages.insert(id, stored);
        proof {
            assert forall|k: Seq<char>| #[trigger] self.messages@.dom().contains(k)
                implies distinct_signers(self.messages@[k].signatures@) by {
                if k != message.id@ {
                    assert(old(self).messages@.dom().contains(k));
                }
            }
        }
        Ok(message)
    }

    /// A validator signs a bridge message; each validator signs at most once.
    /// Reaching the threshold marks the message `Signed`.
    pub fn sign_message(&mut self, message_id: &str, validator_id: u32, signature: Vec<u8>) -> (r: Result<(), String>)
        requires
            old(self).wf(),
        ensures
            final(self).wf(),
            ({
                let m = old(self).messages@[message_id@];
                match r {
                    Err(e) => *final(self) == *old(self) && (
                        (!old(self).messages@.dom().contains(message_id@) && e@ == "Message not found"@)
                        || (old(self).messages@.dom().contains(message_id@) && validator_id as int >= old(self).validators@.len()
                            && e@ == "Invalid validator ID"@)
                        || (old(self).messages@.dom().contains(message_id@) && (validator_id as int) < old(self).validators@.len()
                            && has_signed(m.signatures@, validator_id)
                            && e@ == "Validator already signed this message"@)),
                    Ok(_) => old(self).messages@.dom().contains(message_id@)
                        && (validator_id as int) < old(self).validators@.len()
                        && !has_signed(m.signatures@, validator_id)
                        && final(self).messages@.dom() == old(self).messages@.dom()
                        && (forall|k: Seq<char>| k != message_id@ && #[trigger] old(self).messages@.dom().contains(k)
                            ==> final(self).messages@[k] == old(self).messages@[k])
                        && ({
                            let f = final(self).messages@[message_id@];
                            let n = (m.signatures@.len() + 1) as u32;
                            &&& f.id == m.id && f.deposit_id == m.deposit_id && f.message_hash == m.message_hash
                            &&& f.signatures@ == m.signatures@.push(ValidatorSignature { validator_id, signature })
                            &&& f.status == (if n >= old(self).signature_threshold {
                                    MessageStatus::Signed { threshold_met: true }
                                } else {
                                    MessageStatus::Pending { collected: n }
                                })
                        })
                        && *final(self) == (EthereumBridge { messages: final(self).messages, ..*old(self) }),
                }
            }),
    {
        let already = match self.messages.get(message_id) {
            Some(m) => {
                if (validator_id as usize) >= self.validators.len() {
                    return Err(owned("Invalid validator ID"));
                }
                let sigs = &m.signatures;
                let mut found = false;
                let mut i: usize = 0;
                while i < sigs.len()
                    invariant
                        i <= sigs@.len(),
                        found == exists|j: int| 0 <= j < i && sigs@[j].validator_id == validator_id,
                    decreases sigs@.len() - i,
                {
                    if sigs[i].validator_id == validator_id {
                        found = true;
                    }
                    i = i + 1;
                }
                found
            },
            None => { return Err(owned("Message not found")); },
        };
        if already {
            return Err(owned("Validator already signed this message"));
        }
        let ghost m0 = old(self).messages@[message_id@];
        let mut message = match self.messages.remove(message_id) {
            Some(m) => m,
            None => { return Err(owned("Message not found")); },
        };
        message.signatures.push(ValidatorSignature { validator_id, signature });
        let collected = message.signatures.len() as u32;
        message.status = MessageStatus::Pending { collected };
        if collected >= self.signature_threshold {
            message.status = MessageStatus::Signed { threshold_met: true };
        }
        proof {
            assert(distinct_signers(message.signatures@)) by {
                assert(distinct_signers(m0.signatures@));
                assert forall|i: int, j: int| 0 <= i < j < message.signatures@.len()
                    implies message.signatures@[i].validator_id != message.signatures@[j].validator_id by {
                    if j == message.signatures@.len() - 1 {
                        assert(message.signatures@[i] == m0.signatures@[i]);
                    }
                }
            }
        }
        self.messages.insert(owned(message_id), message);
        proof {
            assert(self.messages@.dom() =~= old(self).messages@.dom());
            assert forall|k: Seq<char>| #[trigger] self.messages@.dom().contains(k)
                implies distinct_signers(self.messages@[k].signatures@) by {
                if k != message_id@ {
                    assert(old(self).messages@.dom().contains(k));
                }
            }
        }
        Ok(())
    }

    /// Mint the wrapped token on X3 for a message with enough signatures:
    /// the recipient's wrapped balance becomes the deposit amount, the
    /// deposit is marked `Minted` and the message `Executed`.
    pub fn execute_mint(&mut self, message_id: &str, x3_recipient: String, x3_block: u32) -> (r: Result<(), String>)
        requires
            old(self).wf(),
        ensures
            final(self).wf(),
            ({
                let m = old(self).messages@[message_id@];
                let dep = old(self).deposits@[m.deposit_id@];
                match r {
                    Err(e) => *final(self) == *old(self) && (
                        (!old(self).messages@.dom().contains(message_id@) && e@ == "Message not found"@)
                        || (old(self).messages@.dom().contains(message_id@)
                            && m.signatures@.len() < old(self).signature_threshold
                            && e@ == "Not enough signatures"@)
                        || (old(self).messages@.dom().contains(message_id@)
                            && m.signatures@.len() >= old(self).signature_threshold
                            && !old(self).deposits@.dom().contains(m.deposit_id@)
                            && e@ == "Deposit not found"@)),
                    Ok(_) => old(self).messages@.dom().contains(message_id@)
                        && m.signatures@.len() >= old(self).signature_threshold
                        && old(self).deposits@.dom().contains(m.deposit_id@)
                        && final(self).wrapped_tokens@ == old(self).wrapped_tokens@.insert(wrapped_key(dep.token@, x3_recipient@), dep.amount)
                        && final(self).deposits@ == old(self).deposits@.insert(m.deposit_id@,
                            BridgeDeposit { status: DepositStatus::Minted { x3_recipient, x3_block }, ..dep })
                        && final(self).messages@.dom() == old(self).messages@.dom()
                        && (forall|k: Seq<char>| k != message_id@ && #[trigger] old(self).messages@.dom().contains(k)
                            ==> final(self).messages@[k] == old(self).messages@[k])
                        && ({
                            let f = final(self).messages@[message_id@];
                            &&& f.id == m.id && f.deposit_id == m.deposit_id && f.message_hash == m.message_hash
                            &&& f.signatures == m.signatures
                            &&& f.status == (MessageStatus::Executed { x3_block })
                        })
                        && *final(self) == (EthereumBridge {
                            wrapped_tokens: final(self).wrapped_tokens,
                            deposits: final(self).deposits,
                            messages: final(self).messages,
                            ..*old(self)
                        }),
                }
            }),
    {
        let deposit_id: String = match self.messages.get(message_id) {
            Some(m) => {
                if m.signatures.len() < self.signature_threshold as usize {
                    return Err(owned("Not enough signatures"));
                }
                if m.signatures.len() < self.signature_threshold as usize {
                    return Err(owned("Invalid signature count"));
                }
                m.deposit_id.clone()
            },
            None => { return Err(owned("Message not found")); },
        };
        let (token, amount) = match self.deposits.get(deposit_id.as_str()) {
            Some(d) => (d.token.clone(), d.amount),
            None => { return Err(owned("Deposit not found")); },
        };
        let wrapped_key = concat3(token.as_str(), "_", x3_recipient.as_str());
        self.wrapped_tokens.insert(wrapped_key, amount);
        let ghost dep0 = old(self).deposits@[deposit_id@];
        match self.deposits.remove(deposit_id.as_str()) {
            Some(mut d) => {
                d.status = DepositStatus::Minted { x3_recipient: x3_recipient.clone(), x3_block };
                self.deposits.insert(deposit_id.clone(), d);
                proof {
                    assert(self.deposits@ =~= old(self).deposits@.insert(deposit_id@,
                        BridgeDeposit { status: DepositStatus::Minted { x3_recipient, x3_block }, ..dep0 }));
                }
            },
            None => {},
        }
        let mut message = match self.messages.remove(message_id) {
            Some(m) => m,
            None => { return Err(owned("Message not found")); },
        };
        let ghost m0 = message;
        message.status = MessageStatus::Executed { x3_block };
        self.messages.insert(owned(message_id), message);
        proof {
            assert(self.messages@.dom() =~= old(self).messages@.dom());
            assert forall|k: Seq<char>| #[trigger] self.messages@.dom().contains(k)
                implies distinct_signers(self.messages@[k].signatures@) by {
                if k != message_id@ {
                    assert(old(self).messages@.dom().contains(k));
                } else {
                    assert(old(self).messages@.dom().contains(k));
                    assert(self.messages@[k].signatures == m0.signatures);
                }
            }
        }
        Ok(())
    }

    /// Burn wrapped tokens on X3 (to unlock on Ethereum).
    pub fn burn_wrapped(&mut self, x3_account: String, token_addr: String, amount: u128) -> (r: Result<(), String>)
        requires
            old(self).wf(),
        ensures
            final(self).wf(),
            ({
                let key = wrapped_key(token_addr@, x3_account@);
                let bal = old(self).wrapped_tokens@[key];
                match r {
                    Err(e) => *final(self) == *old(self) && (
                        (!old(self).wrapped_tokens@.dom().contains(key) && e@ == "Token balance not found"@)
                        || (old(self).wrapped_tokens@.dom().contains(key) && amount > bal && e@ == "Insufficient balance"@)),
                    Ok(_) => old(self).wrapped_tokens@.dom().contains(key) && amount <= bal
                        && final(self).wrapped_tokens@ == old(self).wrapped_tokens@.insert(key, (bal - amount) as u128)
                        && *final(self) == (EthereumBridge { wrapped_tokens: final(self).wrapped_tokens, ..*old(self) }),
                }
            }),
    {
        let key = concat3(token_addr.as_str(), "_", x3_account.as_str());
        let balance: u128 = match self.wrapped_tokens.get(key.as_str()) {
            Some(b) => *b,
            None => { return Err(owned("Token balance not found")); },
        };
        if amount > balance {
            return Err(owned("Insufficient balance"));
        }
        self.wrapped_tokens.insert(key, balance - amount);
        Ok(())
    }

    /// Status of a deposit, if it exists.
    pub fn get_deposit_status(&self, deposit_id: &str) -> (r: Option<DepositStatus>)
        requires
            self.wf(),
        ensures
            r == (if self.deposits@.dom().contains(deposit_id@) {
                Some(self.deposits@[deposit_id@].status)
            } else {
                None
            }),
    {
        match self.deposits.get(deposit_id) {
            Some(d) => Some(d.status.copy()),
            None => None,
        }
    }

    /// Wrapped balance of `x3_account` in `token_addr` (0 when none).
    pub fn get_wrapped_balance(&self, x3_account: &str, token_addr: &str) -> (b: u128)
        requires
            self.wf(),
        ensures
            b == (if self.wrapped_tokens@.dom().contains(wrapped_key(token_addr@, x3_account@)) {
                self.wrapped_tokens@[wrapped_key(token_addr@, x3_account@)]
            } else {
                0
            }),
    {
        let key = concat3(token_addr, "_", x3_account);
        match self.wrapped_tokens.get(key.as_str()) {
            Some(b) => *b,
            None => 0,
        }
    }

    /// Refund a deposit: release its lock and mark it `Refunded`.
    pub fn refund_deposit(&mut self, deposit_id: &str, reason: String) -> (r: Result<(), String>)
        requires
            old(self).wf(),
        ensures
            final(self).wf(),
            match r {
                Err(e) => !old(self).deposits@.dom().contains(deposit_id@) && e@ == "Deposit not found"@
                    && *final(self) == *old(self),
                Ok(_) => old(self).deposits@.dom().contains(deposit_id@)
                    && final(self).eth_locked@ == old(self).eth_locked@.remove(deposit_id@)
                    && final(self).deposits@ == old(self).deposits@.insert(deposit_id@,
                        BridgeDeposit { status: DepositStatus::Refunded { reason }, ..old(self).deposits@[deposit_id@] })
                    && *final(self) == (EthereumBridge {
                        eth_locked: final(self).eth_locked,
                        deposits: final(self).deposits,
                        ..*old(self)
                    }),
            },
    {
        let ghost dep0 = old(self).deposits@[deposit_id@];
        let mut deposit = match self.deposits.remove(deposit_id) {
            Some(d) => d,
            None => { return Err(owned("Deposit not found")); },
        };
        let _ = self.eth_locked.remove(deposit_id);
        deposit.status = DepositStatus::Refunded { reason };
        self.deposits.insert(owned(deposit_id), deposit);
        proof {
            assert(self.deposits@ =~= old(self).deposits@.insert(deposit_id@,
                BridgeDeposit { status: DepositStatus::Refunded { reason }, ..dep0 }));
        }
        Ok(())
    }
}

} // verus!
