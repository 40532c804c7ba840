//! Tests of the total byte-stream decoder.

use message_ledger::decoder::decode;
use message_ledger::decoder::Instruction;
use message_ledger::harness::check_invariants;
use message_ledger::harness::make_signers;
use message_ledger::harness::pool_identity;
use message_ledger::harness::run_case;
use message_ledger::harness::CreationRecord;
use message_ledger::state::Ledger;

#[test]
fn empty_buffer_decodes_to_nothing() {
    let data: Vec<u8> = Vec::new();
    assert_eq!(decode(&data).len(), 0);
}

#[test]
fn even_bytes_decode_to_null_instructions() {
    let data: Vec<u8> = vec![0, 2, 254];
    let out = decode(&data);
    assert_eq!(out.len(), 3);
    for ins in &out {
        assert!(matches!(ins, Instruction::Initialize));
    }
}

#[test]
fn creation_fields_are_read_in_order() {
    let data: Vec<u8> = vec![7, 3, 9, 2, b'h', b'i', 0];
    let out = decode(&data);
    assert_eq!(out.len(), 2);
    match &out[0] {
        Instruction::CreateMessage { author_choice, address_choice, content } => {
            assert_eq!(*author_choice, 3);
            assert_eq!(*address_choice, 9);
            assert_eq!(content, &b"hi".to_vec());
        }
        Instruction::Initialize => panic!("expected a creation"),
    }
    assert!(matches!(out[1], Instruction::Initialize));
}

#[test]
fn truncated_creation_defaults_to_zero_fields() {
    // A lone odd byte: author, address and length all default to zero.
    let data: Vec<u8> = vec![1];
    let out = decode(&data);
    assert_eq!(out.len(), 1);
    match &out[0] {
        Instruction::CreateMessage { author_choice, address_choice, content } => {
            assert_eq!(*author_choice, 0);
            assert_eq!(*address_choice, 0);
            assert!(content.is_empty());
        }
        Instruction::Initialize => panic!("expected a creation"),
    }
}

#[test]
fn over_long_content_is_truncated_at_buffer_end() {
    // The length byte asks for 200 content bytes; only 3 are there.
    let data: Vec<u8> = vec![5, 1, 2, 200, b'a', b'b', b'c'];
    let out = decode(&data);
    assert_eq!(out.len(), 1);
    match &out[0] {
        Instruction::CreateMessage { content, .. } => {
            assert_eq!(content, &b"abc".to_vec());
        }
        Instruction::Initialize => panic!("expected a creation"),
    }
}

#[test]
fn decoding_never_outruns_its_input() {
    // Totality on assorted buffers: decoding succeeds and yields at
    // most one instruction per byte.
    let mut data: Vec<u8> = Vec::new();
    let mut x: u64 = 0x9e3779b97f4a7c15;
    for _ in 0..4096 {
        x ^= x << 13;
        x ^= x >> 7;
        x ^= x << 17;
        data.push((x >> 32) as u8);
        let out = decode(&data);
        assert!(out.len() <= data.len());
        // The replay of the same buffer is total as well.
        let report = run_case(&data);
        assert!(report.violation.is_none());
    }
}

#[test]
fn check_invariants_detects_a_missing_account() {
    let ledger = Ledger::new();
    let log = vec![CreationRecord {
        address: pool_identity(0),
        author: pool_identity(0),
        content: b"ghost".to_vec(),
    }];
    assert!(!check_invariants(&ledger, &log));
    assert!(check_invariants(&ledger, &Vec::new()));
}

#[test]
fn signer_set_is_the_first_identities() {
    let signers = make_signers();
    assert_eq!(signers.len(), 4);
    for (i, s) in signers.iter().enumerate() {
        assert_eq!(*s, pool_identity(i as u8));
    }
}
