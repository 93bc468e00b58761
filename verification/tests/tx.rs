use iroha::crypto::{KeyPair, PrivateKey, PublicKey, Signature};
use iroha::error::Error;
use iroha::isi::{
    copy_instructions, AccountInstruction, AssetInstruction, DomainInstruction, Instruction,
    PeerInstruction,
};
use iroha::peer::PeerId;
use iroha::permissions::PermissionsValidatorBox;
use iroha::signatures::Signatures;
use iroha::tx::{count_signatories, payload_to_bytes, AcceptedTransaction, Transaction};
use iroha::wsv::{Account, AccountId, WorldStateView};

fn key_pair(seed: u8) -> KeyPair {
    let signing = ed25519_dalek::SigningKey::from_bytes(&[seed; 32]);
    KeyPair {
        public_key: PublicKey(signing.verifying_key().to_bytes()),
        private_key: PrivateKey([seed; 32]),
    }
}

fn alice() -> AccountId {
    AccountId::new("alice", "wonderland")
}

fn bob() -> AccountId {
    AccountId::new("bob", "wonderland")
}

fn world() -> WorldStateView {
    let mut wsv = WorldStateView::new();
    let mut a = Account::new(alice(), key_pair(1).public_key);
    a.balance = 100;
    wsv.accounts.push(a);
    wsv.accounts.push(Account::new(bob(), key_pair(2).public_key));
    wsv
}

fn mint(amount: u64, to: AccountId) -> Instruction {
    Instruction::Asset(AssetInstruction::Mint(amount, to))
}

fn transfer(from: AccountId, amount: u64, to: AccountId) -> Instruction {
    Instruction::Asset(AssetInstruction::Transfer(from, amount, to))
}

fn accepted(instructions: Vec<Instruction>, seed: u8, created: u64) -> AcceptedTransaction {
    Transaction::new_at(instructions, alice(), 100_000, created)
        .sign(&key_pair(seed))
        .accept(4096)
        .unwrap()
}

#[test]
fn minting_adds_to_the_balance() {
    let mut wsv = world();
    assert_eq!(mint(5, alice()).execute(&mut wsv), Ok(()));
    assert_eq!(wsv.accounts[0].balance, 105);
    assert_eq!(wsv.accounts[1].balance, 0);
}

#[test]
fn minting_fails_without_the_account_or_beyond_the_limit() {
    let mut wsv = world();
    let nobody = AccountId::new("carol", "wonderland");
    assert_eq!(mint(5, nobody).execute(&mut wsv), Err(Error::AccountNotFound));
    assert_eq!(mint(u64::MAX, alice()).execute(&mut wsv), Err(Error::Overflow));
    assert_eq!(mint(u64::MAX - 100, alice()).execute(&mut wsv), Ok(()));
    assert_eq!(wsv.accounts[0].balance, u64::MAX);
}

#[test]
fn a_transfer_moves_the_amount() {
    let mut wsv = world();
    assert_eq!(transfer(alice(), 30, bob()).execute(&mut wsv), Ok(()));
    assert_eq!(wsv.accounts[0].balance, 70);
    assert_eq!(wsv.accounts[1].balance, 30);
    assert_eq!(transfer(alice(), 70, alice()).execute(&mut wsv), Ok(()));
    assert_eq!(wsv.accounts[0].balance, 70);
}

#[test]
fn a_transfer_fails_without_funds_accounts_or_room() {
    let mut wsv = world();
    assert_eq!(
        transfer(alice(), 101, bob()).execute(&mut wsv),
        Err(Error::InsufficientFunds)
    );
    assert_eq!(
        transfer(alice(), 1, AccountId::new("carol", "wonderland")).execute(&mut wsv),
        Err(Error::AccountNotFound)
    );
    wsv.accounts[1].balance = u64::MAX;
    assert_eq!(transfer(alice(), 1, bob()).execute(&mut wsv), Err(Error::Overflow));
    assert_eq!(wsv.accounts[0].balance, 100);
    assert_eq!(wsv.accounts[1].balance, u64::MAX);
}

#[test]
fn accounts_peers_and_signatories_are_added_once() {
    let mut wsv = world();
    let carol = AccountId::new("carol", "wonderland");
    let register = Instruction::Domain(DomainInstruction::RegisterAccount(
        carol.clone(),
        key_pair(3).public_key,
    ));
    assert_eq!(register.execute(&mut wsv), Ok(()));
    assert_eq!(wsv.accounts.len(), 3);
    assert_eq!(wsv.accounts[2].signatories, vec![key_pair(3).public_key]);
    assert_eq!(wsv.accounts[2].signature_threshold, 1);
    assert_eq!(register.execute(&mut wsv), Err(Error::AccountExists));

    let add = Instruction::Account(AccountInstruction::AddSignatory(
        carol.clone(),
        key_pair(4).public_key,
    ));
    assert_eq!(add.execute(&mut wsv), Ok(()));
    assert_eq!(add.execute(&mut wsv), Ok(()));
    assert_eq!(wsv.accounts[2].signatories.len(), 2);
    let lost = Instruction::Account(AccountInstruction::AddSignatory(
        AccountId::new("dave", "wonderland"),
        key_pair(4).public_key,
    ));
    assert_eq!(lost.execute(&mut wsv), Err(Error::AccountNotFound));

    let peer = PeerId::new("127.0.0.1:1337", &key_pair(5).public_key);
    let trust = Instruction::Peer(PeerInstruction::AddPeer(peer.clone()));
    assert_eq!(trust.execute(&mut wsv), Ok(()));
    assert_eq!(wsv.trusted_peers_ids().to_vec(), vec![peer]);
    assert_eq!(trust.execute(&mut wsv), Err(Error::PeerExists));
    assert_eq!(wsv.account_position(&carol), 2);
    assert_eq!(wsv.account_position(&AccountId::new("dave", "wonderland")), 3);
}

#[test]
fn composed_instructions_run_one_after_the_other() {
    let mut wsv = world();
    let both = Instruction::Compose(
        Box::new(mint(5, alice())),
        Box::new(transfer(alice(), 105, bob())),
    );
    assert_eq!(both.execute(&mut wsv), Ok(()));
    assert_eq!(wsv.accounts[0].balance, 0);
    assert_eq!(wsv.accounts[1].balance, 105);
    let failing = Instruction::Compose(
        Box::new(mint(5, alice())),
        Box::new(transfer(alice(), 6, bob())),
    );
    assert_eq!(failing.execute(&mut wsv), Err(Error::InsufficientFunds));
    assert_eq!(wsv.accounts[0].balance, 5);
    let stopped = Instruction::Compose(
        Box::new(transfer(alice(), 6, bob())),
        Box::new(mint(5, alice())),
    );
    assert_eq!(stopped.execute(&mut wsv), Err(Error::InsufficientFunds));
    assert_eq!(wsv.accounts[0].balance, 5);
}

#[test]
fn the_bytes_of_an_instruction_are_laid_out_field_by_field() {
    let mut bytes = Vec::new();
    mint(0x0102, AccountId::new("a", "bc")).append_bytes_to(&mut bytes);
    let expected = vec![
        2, 2, 1, 0, 0, 0, 0, 0, 0, 1, 0, 0, 0, 0, 0, 0, 0, b'a', 2, 0, 0, 0, 0, 0, 0, 0, b'b',
        b'c',
    ];
    assert_eq!(bytes, expected);
    let copies = copy_instructions(&[mint(0x0102, AccountId::new("a", "bc"))]);
    let mut again = Vec::new();
    copies[0].append_bytes_to(&mut again);
    assert_eq!(again, expected);
    let mut composed = Vec::new();
    Instruction::Compose(
        Box::new(mint(0x0102, AccountId::new("a", "bc"))),
        Box::new(mint(0x0102, AccountId::new("a", "bc"))),
    )
    .duplicate()
    .append_bytes_to(&mut composed);
    assert_eq!(composed.len(), 1 + 2 * expected.len());
    assert_eq!(composed[0], 5);
}

#[test]
fn the_hash_of_a_transaction_covers_its_payload_and_not_its_signatures() {
    let unsigned = Transaction::new_at(vec![mint(1, alice())], alice(), 100, 7);
    let h = unsigned.hash();
    assert_eq!(h, iroha::crypto::hash(payload_to_bytes(&unsigned.payload)));
    let signed = unsigned.clone().sign(&key_pair(1)).sign(&key_pair(2));
    assert_eq!(signed.hash(), h);
    assert_eq!(signed.signatures.len(), 2);
    let other = Transaction::new_at(vec![mint(2, alice())], alice(), 100, 7);
    assert_ne!(other.hash(), h);
    let later = Transaction::new_at(vec![mint(1, alice())], alice(), 100, 8);
    assert_ne!(later.hash(), h);
    let bytes = payload_to_bytes(&unsigned.payload);
    assert_eq!(&bytes[bytes.len() - 16..bytes.len() - 8], &[7, 0, 0, 0, 0, 0, 0, 0]);
    assert_eq!(&bytes[bytes.len() - 8..], &[100, 0, 0, 0, 0, 0, 0, 0]);
}

#[test]
fn a_new_transaction_is_stamped_by_the_clock() {
    let tx = Transaction::new(vec![], alice(), 100);
    assert!(tx.payload.creation_time > 1_600_000_000_000);
    assert_eq!(tx.payload.time_to_live_ms, 100);
    assert_eq!(tx.signatures.len(), 0);
    let accepted = tx.sign(&key_pair(1)).accept(10).unwrap();
    assert!(!accepted.is_expired(100_000));
}

#[test]
fn acceptance_checks_size_and_signatures() {
    let big = Transaction::new_at(vec![mint(1, alice()), mint(2, alice())], alice(), 100, 7)
        .sign(&key_pair(1));
    assert_eq!(big.clone().accept(1).err(), Some(Error::TooManyInstructions));
    assert!(big.clone().accept(2).is_ok());
    assert!(big.is_signed_validly());
    let mut forged = Transaction::new_at(vec![], alice(), 100, 7);
    let mut signatures = Signatures::new();
    signatures.add(Signature::new(&key_pair(1), b"something else"));
    forged.signatures = signatures;
    assert!(!forged.is_signed_validly());
    assert_eq!(
        AcceptedTransaction::from_transaction(forged, 4096).err(),
        Some(Error::InvalidSignature)
    );
}

#[test]
fn a_transaction_expires_after_the_shorter_time_to_live() {
    let tx = Transaction::new_at(vec![], alice(), 100, 1000)
        .sign(&key_pair(1))
        .accept(10)
        .unwrap();
    assert!(!tx.is_expired_at(200, 1100));
    assert!(tx.is_expired_at(200, 1101));
    assert!(!tx.is_expired_at(50, 1050));
    assert!(tx.is_expired_at(50, 1051));
    assert!(!tx.is_expired_at(50, 10));
}

#[test]
fn the_signature_condition_counts_signatories_against_the_threshold() {
    let mut wsv = world();
    let tx = accepted(vec![], 1, 0);
    assert_eq!(tx.check_signature_condition(&wsv), Ok(true));
    let stranger = accepted(vec![], 9, 0);
    assert_eq!(stranger.check_signature_condition(&wsv), Ok(false));
    wsv.accounts[0].signatories.push(key_pair(3).public_key);
    wsv.accounts[0].signature_threshold = 2;
    assert_eq!(tx.check_signature_condition(&wsv), Ok(false));
    let mut both = tx.clone();
    both.merge_signatures(&accepted(vec![], 3, 0).signatures);
    assert_eq!(both.check_signature_condition(&wsv), Ok(true));
    assert_eq!(count_signatories(&both.signatures, &wsv.accounts[0].signatories), 2);
    assert_eq!(
        tx.check_signature_condition(&WorldStateView::new()),
        Err(Error::AccountNotFound)
    );
}

#[test]
fn a_transaction_is_in_the_blockchain_once_its_hash_is_recorded() {
    let mut wsv = world();
    let tx = accepted(vec![], 1, 0);
    assert!(!tx.is_in_blockchain(&wsv));
    wsv.transactions.push(tx.hash());
    assert!(tx.is_in_blockchain(&wsv));
    assert!(wsv.has_transaction(&tx.hash()));
    assert!(wsv.clone().has_transaction(&tx.hash()));
}

#[test]
fn validation_applies_a_transaction_or_leaves_the_world_as_it_was() {
    let mut wsv = world();
    let good = accepted(vec![mint(5, alice()), transfer(alice(), 105, bob())], 1, 0);
    let valid = good.clone().validate(&mut wsv, &PermissionsValidatorBox::AllowAll).unwrap();
    assert_eq!(valid.hash(), good.hash());
    assert_eq!(wsv.accounts[1].balance, 105);
    let bad = accepted(vec![mint(5, alice()), transfer(alice(), 6, bob())], 1, 1);
    assert_eq!(bad.validate(&mut wsv, &PermissionsValidatorBox::AllowAll).err(), Some(Error::InsufficientFunds));
    assert_eq!(wsv.accounts[0].balance, 0);
    assert_eq!(wsv.accounts[1].balance, 105);
    let unsigned = accepted(vec![mint(5, alice())], 9, 2);
    assert_eq!(unsigned.validate(&mut wsv, &PermissionsValidatorBox::AllowAll).err(), Some(Error::InsufficientSignatures));
    let lost = Transaction::new_at(vec![], AccountId::new("carol", "wonderland"), 10, 0)
        .sign(&key_pair(1))
        .accept(1)
        .unwrap();
    assert_eq!(lost.validate(&mut wsv, &PermissionsValidatorBox::AllowAll).err(), Some(Error::AccountNotFound));
    assert_eq!(valid.clone().into_accepted().hash(), good.hash());
}
