//! Unit tests of the state machine operations, called directly.

use message_ledger::state::create_message;
use message_ledger::state::initialize;
use message_ledger::state::CreateMessage;
use message_ledger::state::Initialize;
use message_ledger::state::Ledger;
use message_ledger::state::MessageError;
use message_ledger::state::Pubkey;
use message_ledger::state::MAX_CONTENT_LEN;

fn key(tag: u64) -> Pubkey {
    Pubkey { w0: tag, w1: 7, w2: 0, w3: 0 }
}

fn ctx(address: Pubkey, author: Pubkey) -> CreateMessage {
    CreateMessage { message: address, author, system_program: key(999) }
}

#[test]
fn initialize_always_succeeds() {
    assert_eq!(initialize(&Initialize {}), Ok(()));
}

#[test]
fn create_stores_author_and_content() {
    let mut ledger = Ledger::new();
    let author = key(1);
    let address = key(10);
    let signers = vec![author];
    let r = create_message(&mut ledger, &ctx(address, author), &signers, b"hello".to_vec());
    assert_eq!(r, Ok(()));
    assert_eq!(ledger.account_count(), 1);
    let msg = ledger.get_message(&address).expect("account must exist");
    assert_eq!(msg.author, author);
    assert_eq!(msg.content, b"hello".to_vec());
}

#[test]
fn unsigned_author_is_rejected() {
    let mut ledger = Ledger::new();
    let author = key(1);
    let address = key(10);
    let signers = vec![key(2), key(3)];
    let r = create_message(&mut ledger, &ctx(address, author), &signers, b"hello".to_vec());
    assert_eq!(r, Err(MessageError::UnauthorizedSigner));
    assert_eq!(ledger.account_count(), 0);
    assert!(ledger.get_message(&address).is_none());
}

#[test]
fn empty_signer_set_rejects_everyone() {
    let mut ledger = Ledger::new();
    let author = key(1);
    let signers: Vec<Pubkey> = Vec::new();
    let r = create_message(&mut ledger, &ctx(key(10), author), &signers, Vec::new());
    assert_eq!(r, Err(MessageError::UnauthorizedSigner));
    assert_eq!(ledger.account_count(), 0);
}

#[test]
fn reinitialization_is_rejected() {
    let mut ledger = Ledger::new();
    let author = key(1);
    let other = key(2);
    let address = key(10);
    let signers = vec![author, other];
    let first = create_message(&mut ledger, &ctx(address, author), &signers, b"first".to_vec());
    assert_eq!(first, Ok(()));
    let second = create_message(&mut ledger, &ctx(address, other), &signers, b"second".to_vec());
    assert_eq!(second, Err(MessageError::AlreadyInitialized));
    assert_eq!(ledger.account_count(), 1);
    let msg = ledger.get_message(&address).expect("account must exist");
    assert_eq!(msg.author, author);
    assert_eq!(msg.content, b"first".to_vec());
}

#[test]
fn content_at_capacity_round_trips() {
    let mut ledger = Ledger::new();
    let author = key(1);
    let address = key(10);
    let signers = vec![author];
    let content = vec![b'a'; MAX_CONTENT_LEN];
    let r = create_message(&mut ledger, &ctx(address, author), &signers, content.clone());
    assert_eq!(r, Ok(()));
    let msg = ledger.get_message(&address).expect("account must exist");
    assert_eq!(msg.content, content);
    assert!(ledger.contents_within_capacity());
}

#[test]
fn content_over_capacity_is_rejected() {
    let mut ledger = Ledger::new();
    let author = key(1);
    let address = key(10);
    let signers = vec![author];
    let content = vec![b'a'; MAX_CONTENT_LEN + 1];
    let r = create_message(&mut ledger, &ctx(address, author), &signers, content);
    assert_eq!(r, Err(MessageError::CapacityExceeded));
    assert_eq!(ledger.account_count(), 0);
    assert!(ledger.get_message(&address).is_none());
}

#[test]
fn signer_check_runs_before_reinit_check() {
    let mut ledger = Ledger::new();
    let author = key(1);
    let address = key(10);
    let signers = vec![author];
    let first = create_message(&mut ledger, &ctx(address, author), &signers, b"one".to_vec());
    assert_eq!(first, Ok(()));
    let outsider = key(9);
    let second = create_message(&mut ledger, &ctx(address, outsider), &signers, b"two".to_vec());
    assert_eq!(second, Err(MessageError::UnauthorizedSigner));
}

#[test]
fn distinct_addresses_hold_distinct_records() {
    let mut ledger = Ledger::new();
    let author = key(1);
    let signers = vec![author];
    assert_eq!(
        create_message(&mut ledger, &ctx(key(10), author), &signers, b"ten".to_vec()),
        Ok(())
    );
    assert_eq!(
        create_message(&mut ledger, &ctx(key(11), author), &signers, b"eleven".to_vec()),
        Ok(())
    );
    assert_eq!(ledger.account_count(), 2);
    assert_eq!(ledger.get_message(&key(10)).unwrap().content, b"ten".to_vec());
    assert_eq!(ledger.get_message(&key(11)).unwrap().content, b"eleven".to_vec());
}
