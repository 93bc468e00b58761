//! Transactions and the states they pass through: requested by a client,
//! accepted by a peer, valid against the world state.

use crate::bytes::{append_bytes, encode_u64, encoded_u64};
use crate::crypto;
use crate::crypto::{hash, hash_of, KeyPair, PublicKey, Signature};
use crate::error::Error;
use crate::isi::{
    copy_instructions, instruction_bytes, instruction_views, refused, run, Instruction,
    InstructionView, Outcome,
};
use crate::permissions::PermissionsValidatorBox;
use crate::seqs::{lemma_filter_empty, lemma_filter_take_step};
use crate::signatures::{distinct_keys, merged, verified, with_signature, Signatures};
use crate::time::{current_time_ms, saturated};
use crate::wsv::{account_id_bytes_of, holds_key, AccountId, AccountIdView, WorldStateView, WsvView};
use vstd::prelude::*;

verus! {

/// What a transaction asks for, and on whose behalf.
#[derive(Debug)]
pub struct Payload {
    /// The account that the transaction is made for.
    pub account_id: AccountId,
    /// What the transaction does.
    pub instructions: Vec<Instruction>,
    /// When the transaction was made, in milliseconds since the epoch.
    pub creation_time: u64,
    /// For how many milliseconds the transaction asks to be kept.
    pub time_to_live_ms: u64,
}

/// What a `Payload` stands for in contracts.
pub struct PayloadView {
    /// The account that the transaction is made for.
    pub account_id: AccountIdView,
    /// What the transaction does.
    pub instructions: Seq<InstructionView>,
    /// When the transaction was made, in milliseconds since the epoch.
    pub creation_time: u64,
    /// For how many milliseconds the transaction asks to be kept.
    pub time_to_live_ms: u64,
}

impl View for Payload {
    type V = PayloadView;

    open spec fn view(&self) -> PayloadView {
        PayloadView {
            account_id: self.account_id@,
            instructions: instruction_views(self.instructions@),
            creation_time: self.creation_time,
            time_to_live_ms: self.time_to_live_ms,
        }
    }
}

impl Clone for Payload {
    fn clone(&self) -> (r: Self)
        ensures
            r@ == self@,
    {
        Payload {
            account_id: self.account_id.clone(),
            instructions: copy_instructions(self.instructions.as_slice()),
            creation_time: self.creation_time,
            time_to_live_ms: self.time_to_live_ms,
        }
    }
}

/// The bytes of a list of instructions, one after the other.
pub open spec fn instructions_bytes(instructions: Seq<InstructionView>) -> Seq<u8>
    decreases instructions.len(),
{
    if instructions.len() == 0 {
        Seq::empty()
    } else {
        instructions_bytes(instructions.drop_last()) + instruction_bytes(instructions.last())
    }
}

/// The bytes over which a transaction is hashed: the account, the number of
/// instructions, the instructions, the creation time and the time to live.
/// Signatures are no part of them.
pub open spec fn payload_bytes(payload: PayloadView) -> Seq<u8> {
    account_id_bytes_of(payload.account_id) + encoded_u64(payload.instructions.len() as u64)
        + instructions_bytes(payload.instructions) + encoded_u64(payload.creation_time)
        + encoded_u64(payload.time_to_live_ms)
}

/// What a list of instructions does to a world state when `authority`
/// asks for them under `policy`: each runs on what the one before it left.
/// The first that the policy does not permit, or that fails, ends the run.
pub open spec fn run_all(
    instructions: Seq<InstructionView>,
    wsv: WsvView,
    policy: PermissionsValidatorBox,
    authority: AccountIdView,
) -> Outcome
    decreases instructions.len(),
{
    if instructions.len() == 0 {
        crate::isi::done(wsv)
    } else if !policy.permits(authority, instructions[0], wsv) {
        refused(wsv, Error::NotPermitted)
    } else {
        let first = run(instructions[0], wsv);
        if first.result is Ok {
            run_all(instructions.drop_first(), first.wsv, policy, authority)
        } else {
            first
        }
    }
}

/// What a transaction, in any of its states, stands for in contracts.
pub struct TransactionView {
    /// What the transaction asks for.
    pub payload: PayloadView,
    /// The signatures under it, in the order in which their keys came in.
    pub signatures: Seq<Signature>,
}

impl TransactionView {
    /// The hash of the transaction: that of its payload.
    pub open spec fn hash(self) -> crypto::Hash {
        hash_of(payload_bytes(self.payload))
    }

    /// Whether every signature under the transaction verifies for its hash.
    pub open spec fn signed_validly(self) -> bool {
        forall|i: int|
            0 <= i < self.signatures.len() ==> (#[trigger] self.signatures[i]).valid_for(
                self.hash().0@,
            )
    }

    /// Whether the transaction is too old at the time `now`: older than its
    /// own time to live or than `ttl_ms`, whichever is shorter.
    pub open spec fn expired(self, ttl_ms: u64, now: u64) -> bool {
        let limit = if self.payload.time_to_live_ms < ttl_ms {
            self.payload.time_to_live_ms
        } else {
            ttl_ms
        };
        now - self.payload.creation_time > limit
    }

    /// How many signatures of the transaction come from signatories of its account.
    pub open spec fn signatory_count(self, signatories: Seq<PublicKey>) -> nat {
        self.signatures.filter(|s: Signature| signatories.contains(s.public_key)).len()
    }

    /// Whether enough signatories of the account signed: an error if the
    /// world state holds no such account.
    pub open spec fn signature_condition(self, wsv: WsvView) -> Result<bool, Error> {
        if !wsv.has_account(self.payload.account_id) {
            Err(Error::AccountNotFound)
        } else {
            let account = wsv.accounts[wsv.account_position(self.payload.account_id)];
            Ok(self.signatory_count(account.signatories) >= account.signature_threshold)
        }
    }

    /// What validating the transaction under `policy` does to the world
    /// state. It fails when the signature condition fails or is not met, or
    /// when one of its instructions is not permitted or fails; a transaction
    /// that fails leaves the world state as it was.
    pub open spec fn validation(self, wsv: WsvView, policy: PermissionsValidatorBox) -> Outcome {
        match self.signature_condition(wsv) {
            Err(error) => refused(wsv, error),
            Ok(false) => refused(wsv, Error::InsufficientSignatures),
            Ok(true) => {
                let outcome = run_all(
                    self.payload.instructions,
                    wsv,
                    policy,
                    self.payload.account_id,
                );
                if outcome.result is Ok {
                    outcome
                } else {
                    refused(wsv, outcome.result->Err_0)
                }
            },
        }
    }
}

/// The bytes over which `payload` is hashed.
pub fn payload_to_bytes(payload: &Payload) -> (r: Vec<u8>)
    ensures
        r@ == payload_bytes(payload@),
{
    let mut r: Vec<u8> = Vec::new();
    crate::wsv::append_account_id(&mut r, &payload.account_id);
    let count = encode_u64(payload.instructions.len() as u64);
    append_bytes(&mut r, count.as_slice());
    let ghost head = r@;
    let ghost views = instruction_views(payload.instructions@);
    let mut i: usize = 0;
    assert(views.take(0) =~= Seq::<InstructionView>::empty());
    while i < payload.instructions.len()
        invariant
            i <= payload.instructions.len(),
            views == instruction_views(payload.instructions@),
            r@ == head + instructions_bytes(views.take(i as int)),
        decreases payload.instructions.len() - i,
    {
        payload.instructions[i].append_bytes_to(&mut r);
        proof {
            let next = views.take(i as int + 1);
            assert(next.drop_last() =~= views.take(i as int));
            assert(next.last() == views[i as int]);
            assert(r@ =~= head + instructions_bytes(next));
        }
        i += 1;
    }
    assert(views.take(views.len() as int) =~= views);
    let created = encode_u64(payload.creation_time);
    append_bytes(&mut r, created.as_slice());
    let ttl = encode_u64(payload.time_to_live_ms);
    append_bytes(&mut r, ttl.as_slice());
    assert(r@ =~= payload_bytes(payload@));
    r
}

/// How many of `signatures` come from one of `signatories`.
pub fn count_signatories(signatures: &Signatures, signatories: &[PublicKey]) -> (n: usize)
    ensures
        n == signatures@.filter(|s: Signature| signatories@.contains(s.public_key)).len(),
{
    let all = signatures.values();
    let ghost keep = |s: Signature| signatories@.contains(s.public_key);
    let mut n: usize = 0;
    let mut i: usize = 0;
    proof {
        assert(all@.take(0) =~= Seq::<Signature>::empty());
        lemma_filter_empty(keep);
    }
    while i < all.len()
        invariant
            i <= all.len(),
            all@ == signatures@,
            keep == |s: Signature| signatories@.contains(s.public_key),
            n <= i,
            n == all@.take(i as int).filter(keep).len(),
        decreases all.len() - i,
    {
        proof {
            lemma_filter_take_step(all@, i as int, keep);
        }
        if holds_key(signatories, &all[i].public_key) {
            n += 1;
        }
        i += 1;
    }
    assert(all@.take(all@.len() as int) =~= all@);
    n
}

/// A transaction as a client asks for it.
#[derive(Debug)]
pub struct Transaction {
    /// What the transaction asks for.
    pub payload: Payload,
    /// The signatures under it.
    pub signatures: Signatures,
}

impl View for Transaction {
    type V = TransactionView;

    open spec fn view(&self) -> TransactionView {
        TransactionView { payload: self.payload@, signatures: self.signatures@ }
    }
}

impl Clone for Transaction {
    fn clone(&self) -> (r: Self)
        ensures
            r@ == self@,
    {
        Transaction { payload: self.payload.clone(), signatures: self.signatures.clone() }
    }
}

impl Transaction {
    /// The invariant of a transaction: no public key signed twice.
    pub open spec fn wf(&self) -> bool {
        distinct_keys(self@.signatures)
    }

    /// An unsigned transaction of `account_id`, made now.
    pub fn new(instructions: Vec<Instruction>, account_id: AccountId, proposed_ttl_ms: u64) -> (r:
        Transaction)
        ensures
            r@.payload.account_id == account_id@,
            r@.payload.instructions == instruction_views(instructions@),
            r@.payload.time_to_live_ms == proposed_ttl_ms,
            r@.signatures == Seq::<Signature>::empty(),
            r.wf(),
    {
        let now = saturated(current_time_ms());
        Transaction::new_at(instructions, account_id, proposed_ttl_ms, now)
    }

    /// An unsigned transaction of `account_id`, made at `creation_time`.
    pub fn new_at(
        instructions: Vec<Instruction>,
        account_id: AccountId,
        proposed_ttl_ms: u64,
        creation_time: u64,
    ) -> (r: Transaction)
        ensures
            r@.payload == (PayloadView {
                account_id: account_id@,
                instructions: instruction_views(instructions@),
                creation_time,
                time_to_live_ms: proposed_ttl_ms,
            }),
            r@.signatures == Seq::<Signature>::empty(),
            r.wf(),
    {
        Transaction {
            payload: Payload {
                account_id,
                instructions,
                creation_time,
                time_to_live_ms: proposed_ttl_ms,
            },
            signatures: Signatures::new(),
        }
    }

    /// The hash of the transaction. It covers the payload, not the signatures.
    pub fn hash(&self) -> (h: crypto::Hash)
        ensures
            h == self@.hash(),
    {
        hash(payload_to_bytes(&self.payload))
    }

    /// The transaction with the signature of `key_pair` over its hash put in.
    pub fn sign(self, key_pair: &KeyPair) -> (r: Transaction)
        requires
            self.wf(),
        ensures
            r@.payload == self@.payload,
            r@.signatures == with_signature(
                self@.signatures,
                Signature::of(*key_pair, self@.hash().0@),
            ),
            r.wf(),
    {
        let h = self.hash();
        let signature = Signature::new(key_pair, h.0.as_slice());
        let mut signatures = self.signatures;
        signatures.add(signature);
        Transaction { payload: self.payload, signatures }
    }

    /// Whether every signature under the transaction verifies for its hash.
    pub fn is_signed_validly(&self) -> (r: bool)
        ensures
            r == self@.signed_validly(),
    {
        let h = self.hash();
        let all = self.signatures.values();
        let mut i: usize = 0;
        while i < all.len()
            invariant
                i <= all.len(),
                all@ == self@.signatures,
                h == self@.hash(),
                forall|j: int| 0 <= j < i ==> (#[trigger] all@[j]).valid_for(h.0@),
            decreases all.len() - i,
        {
            if !all[i].verify(h.0.as_slice()) {
                return false;
            }
            i += 1;
        }
        true
    }

    /// Accepts the transaction into the peer.
    ///
    /// Fails with `TooManyInstructions` when it carries more than
    /// `max_instruction_number` instructions, and else with
    /// `InvalidSignature` when a signature under it does not verify.
    pub fn accept(self, max_instruction_number: u64) -> (r: Result<AcceptedTransaction, Error>)
        requires
            self.wf(),
        ensures
            self@.payload.instructions.len() > max_instruction_number ==> r == Err::<
                AcceptedTransaction,
                Error,
            >(Error::TooManyInstructions),
            self@.payload.instructions.len() <= max_instruction_number && !self@.signed_validly()
                ==> r == Err::<AcceptedTransaction, Error>(Error::InvalidSignature),
            self@.payload.instructions.len() <= max_instruction_number && self@.signed_validly()
                ==> r is Ok && r->Ok_0@ == self@ && r->Ok_0.wf(),
    {
        if self.payload.instructions.len() as u64 > max_instruction_number {
            return Err(Error::TooManyInstructions);
        }
        if !self.is_signed_validly() {
            return Err(Error::InvalidSignature);
        }
        Ok(AcceptedTransaction { payload: self.payload, signatures: self.signatures })
    }
}

/// A transaction that a peer accepted: small enough and validly signed.
#[derive(Debug)]
pub struct AcceptedTransaction {
    /// What the transaction asks for.
    pub payload: Payload,
    /// The signatures under it.
    pub signatures: Signatures,
}

impl View for AcceptedTransaction {
    type V = TransactionView;

    open spec fn view(&self) -> TransactionView {
        TransactionView { payload: self.payload@, signatures: self.signatures@ }
    }
}

impl Clone for AcceptedTransaction {
    fn clone(&self) -> (r: Self)
        ensures
            r@ == self@,
    {
        AcceptedTransaction { payload: self.payload.clone(), signatures: self.signatures.clone() }
    }
}

impl AcceptedTransaction {
    /// The invariant of a transaction: no public key signed twice.
    pub open spec fn wf(&self) -> bool {
        distinct_keys(self@.signatures)
    }

    /// Accepts `transaction`; see `Transaction::accept`.
    pub fn from_transaction(transaction: Transaction, max_instruction_number: u64) -> (r: Result<
        AcceptedTransaction,
        Error,
    >)
        requires
            transaction.wf(),
        ensures
            transaction@.payload.instructions.len() > max_instruction_number ==> r == Err::<
                AcceptedTransaction,
                Error,
            >(Error::TooManyInstructions),
            transaction@.payload.instructions.len() <= max_instruction_number
                && !transaction@.signed_validly() ==> r == Err::<AcceptedTransaction, Error>(
                Error::InvalidSignature,
            ),
            transaction@.payload.instructions.len() <= max_instruction_number
                && transaction@.signed_validly() ==> r is Ok && r->Ok_0@ == transaction@
                && r->Ok_0.wf(),
    {
        transaction.accept(max_instruction_number)
    }

    /// The hash of the transaction. It covers the payload, not the signatures.
    pub fn hash(&self) -> (h: crypto::Hash)
        ensures
            h == self@.hash(),
    {
        hash(payload_to_bytes(&self.payload))
    }

    /// Whether the transaction is too old at the time `now`.
    pub fn is_expired_at(&self, transaction_time_to_live_ms: u64, now: u64) -> (r: bool)
        ensures
            r == self@.expired(transaction_time_to_live_ms, now),
    {
        let limit = if self.payload.time_to_live_ms < transaction_time_to_live_ms {
            self.payload.time_to_live_ms
        } else {
            transaction_time_to_live_ms
        };
        now > self.payload.creation_time && now - self.payload.creation_time > limit
    }

    /// Whether the transaction is too old by the clock of this machine.
    pub fn is_expired(&self, transaction_time_to_live_ms: u64) -> (r: bool)
        ensures
            exists|now: u64| r == #[trigger] self@.expired(transaction_time_to_live_ms, now),
    {
        let now = saturated(current_time_ms());
        self.is_expired_at(transaction_time_to_live_ms, now)
    }

    /// Whether the transaction was committed already.
    pub fn is_in_blockchain(&self, wsv: &WorldStateView) -> (r: bool)
        ensures
            r == wsv@.transactions.contains(self@.hash()),
    {
        let h = self.hash();
        wsv.has_transaction(&h)
    }

    /// Whether enough signatories of the account signed.
    ///
    /// Fails with `AccountNotFound` when the world state holds no such account.
    pub fn check_signature_condition(&self, wsv: &WorldStateView) -> (r: Result<bool, Error>)
        ensures
            r == self@.signature_condition(wsv@),
    {
        let at = wsv.account_position(&self.payload.account_id);
        if at >= wsv.accounts.len() {
            return Err(Error::AccountNotFound);
        }
        let account = &wsv.accounts[at];
        assert(account@ == wsv@.accounts[at as int]);
        let n = count_signatories(&self.signatures, account.signatories.as_slice());
        Ok(n as u64 >= account.signature_threshold as u64)
    }

    /// The transaction with the signatures of `other` put in beside its own.
    pub fn merge_signatures(&mut self, other: &Signatures)
        requires
            old(self).wf(),
        ensures
            final(self)@.payload == old(self)@.payload,
            final(self)@.signatures == merged(old(self)@.signatures, other@),
            final(self).wf(),
    {
        let more = other.values();
        self.signatures.append(more.as_slice());
    }

    /// Validates the transaction against `wsv` under `policy` and applies it.
    ///
    /// What it does to the world state and when it fails is
    /// `TransactionView::validation`.
    pub fn validate(self, wsv: &mut WorldStateView, policy: &PermissionsValidatorBox) -> (r: Result<
        ValidTransaction,
        Error,
    >)
        requires
            self.wf(),
        ensures
            final(wsv)@ == self@.validation(old(wsv)@, *policy).wsv,
            self@.validation(old(wsv)@, *policy).result is Ok ==> r is Ok && r->Ok_0@ == self@
                && r->Ok_0.wf(),
            self@.validation(old(wsv)@, *policy).result is Err ==> r is Err && r->Err_0
                == self@.validation(old(wsv)@, *policy).result->Err_0,
    {
        match self.check_signature_condition(wsv) {
            Err(error) => {
                return Err(error);
            },
            Ok(met) => {
                if !met {
                    return Err(Error::InsufficientSignatures);
                }
            },
        }
        let mut scratch = wsv.clone();
        let ghost views = instruction_views(self.payload.instructions@);
        let mut i: usize = 0;
        assert(views.skip(0) =~= views);
        while i < self.payload.instructions.len()
            invariant
                i <= self.payload.instructions.len(),
                views == instruction_views(self.payload.instructions@),
                run_all(views, old(wsv)@, *policy, self@.payload.account_id) == run_all(
                    views.skip(i as int),
                    scratch@,
                    *policy,
                    self@.payload.account_id,
                ),
                self@.signature_condition(old(wsv)@) == Ok::<bool, Error>(true),
                wsv@ == old(wsv)@,
            decreases self.payload.instructions.len() - i,
        {
            let ghost before = scratch@;
            proof {
                let rest = views.skip(i as int);
                assert(rest[0] == views[i as int]);
            }
            match policy.check_instruction(
                &self.payload.account_id,
                &self.payload.instructions[i],
                &scratch,
            ) {
                Ok(()) => {},
                Err(error) => {
                    return Err(error);
                },
            }
            let outcome = self.payload.instructions[i].execute(&mut scratch);
            proof {
                let rest = views.skip(i as int);
                assert(rest[0] == views[i as int]);
                assert(rest.drop_first() =~= views.skip(i as int + 1));
                let first = run(rest[0], before);
                assert(run_all(rest, before, *policy, self@.payload.account_id)
                    == if first.result is Ok {
                    run_all(rest.drop_first(), first.wsv, *policy, self@.payload.account_id)
                } else {
                    first
                });
                assert(outcome == first.result);
            }
            match outcome {
                Ok(()) => {},
                Err(error) => {
                    return Err(error);
                },
            }
            i += 1;
        }
        assert(views.skip(views.len() as int) =~= Seq::<InstructionView>::empty());
        *wsv = scratch;
        Ok(ValidTransaction { payload: self.payload, signatures: self.signatures })
    }
}

/// A transaction that was carried out on the world state without error.
#[derive(Debug)]
pub struct ValidTransaction {
    /// What the transaction asks for.
    pub payload: Payload,
    /// The signatures under it.
    pub signatures: Signatures,
}

impl View for ValidTransaction {
    type V = TransactionView;

    open spec fn view(&self) -> TransactionView {
        TransactionView { payload: self.payload@, signatures: self.signatures@ }
    }
}

impl Clone for ValidTransaction {
    fn clone(&self) -> (r: Self)
        ensures
            r@ == self@,
    {
        ValidTransaction { payload: self.payload.clone(), signatures: self.signatures.clone() }
    }
}

impl ValidTransaction {
    /// The invariant of a transaction: no public key signed twice.
    pub open spec fn wf(&self) -> bool {
        distinct_keys(self@.signatures)
    }

    /// The hash of the transaction. It covers the payload, not the signatures.
    pub fn hash(&self) -> (h: crypto::Hash)
        ensures
            h == self@.hash(),
    {
        hash(payload_to_bytes(&self.payload))
    }

    /// The transaction as it was before it was validated.
    pub fn into_accepted(self) -> (r: AcceptedTransaction)
        ensures
            r@ == self@,
    {
        AcceptedTransaction { payload: self.payload, signatures: self.signatures }
    }
}

} // verus!
