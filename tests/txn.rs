use base64::Engine;
use sendable_signer::build_txn;
use sendable_signer::message_fits;
use sendable_signer::simulation_payload;
use sendable_signer::AccountMeta;
use sendable_signer::Instruction;
use sendable_signer::Keypair;
use sendable_signer::PipelineError;
use sendable_signer::Txn;
use solana_sdk::signature::Signature;

fn fresh() -> Keypair {
    Keypair::from_bytes(solana_sdk::signature::Keypair::new().to_bytes())
}

fn plain_ix(program: u8, account: u8) -> Instruction {
    Instruction {
        program_id: [program; 32],
        accounts: vec![AccountMeta { pubkey: [account; 32], is_signer: false, is_writable: true }],
        data: vec![1, 2, 3],
    }
}

#[test]
fn two_instructions_one_key_gives_one_signature() {
    let k = fresh();
    let payer = k.try_pubkey().unwrap();
    let blockhash = [9u8; 32];
    let ixs = vec![plain_ix(3, 4), plain_ix(5, 6)];
    let t = build_txn(&ixs, payer, blockhash, &vec![k.clone()]).unwrap();
    assert_eq!(t.signers(), &vec![payer]);
    assert_eq!(t.signatures().len(), 1);
    let sig = t.signatures()[0].unwrap();
    assert!(Signature::from(sig).verify(&payer, t.message_data()));
    assert_eq!(t.blockhash(), blockhash);
    assert!(t.is_signed());
    let tx = t.to_transaction();
    assert_eq!(tx.message.recent_blockhash.to_bytes(), blockhash);
    assert!(tx.verify().is_ok());
}

#[test]
fn missing_signer_leaves_transaction_incomplete() {
    let k = fresh();
    let other = fresh();
    let payer = k.try_pubkey().unwrap();
    let o = other.try_pubkey().unwrap();
    let ix = Instruction {
        program_id: [3u8; 32],
        accounts: vec![AccountMeta { pubkey: o, is_signer: true, is_writable: false }],
        data: vec![],
    };
    let ixs = vec![ix];
    let t = build_txn(&ixs, payer, [1u8; 32], &vec![k.clone()]).unwrap();
    assert_eq!(t.signers(), &vec![payer, o]);
    assert!(t.signatures()[0].is_some());
    assert!(t.signatures()[1].is_none());
    assert!(!t.is_signed());
    assert_eq!(t.wire_signatures()[1], [0u8; 64]);
    assert!(t.to_transaction().verify().is_err());

    let t = build_txn(&ixs, payer, [1u8; 32], &vec![other.clone(), k.clone()]).unwrap();
    assert!(t.is_signed());
    assert!(t.to_transaction().verify().is_ok());
}

#[test]
fn signing_in_two_steps_matches_one_step() {
    let k = fresh();
    let other = fresh();
    let payer = k.try_pubkey().unwrap();
    let o = other.try_pubkey().unwrap();
    let ixs = vec![Instruction {
        program_id: [3u8; 32],
        accounts: vec![AccountMeta { pubkey: o, is_signer: true, is_writable: true }],
        data: vec![4],
    }];
    let mut t = Txn::new_unsigned(&ixs, payer, [2u8; 32]);
    assert!(!t.is_signed());
    assert_eq!(t.try_partial_sign(&vec![other.clone()]), Ok(()));
    assert!(!t.is_signed());
    assert_eq!(t.try_partial_sign(&vec![k.clone()]), Ok(()));
    assert!(t.is_signed());
    let once = build_txn(&ixs, payer, [2u8; 32], &vec![k, other]).unwrap();
    assert_eq!(once.signatures(), t.signatures());
}

#[test]
fn key_outside_signers_fails_and_signs_nothing() {
    let k = fresh();
    let stranger = fresh();
    let payer = k.try_pubkey().unwrap();
    let ixs = vec![plain_ix(3, 4)];
    let mut t = Txn::new_unsigned(&ixs, payer, [2u8; 32]);
    assert_eq!(t.try_partial_sign(&vec![k.clone(), stranger.clone()]), Err(PipelineError::SigningFailed));
    assert!(t.signatures()[0].is_none());
    assert_eq!(
        build_txn(&ixs, payer, [2u8; 32], &vec![stranger]).err(),
        Some(PipelineError::SigningFailed)
    );
}

#[test]
fn invalid_key_fails_signing() {
    let bad = Keypair::from_bytes([1u8; 64]);
    let ixs = vec![plain_ix(3, 4)];
    assert_eq!(
        build_txn(&ixs, [1u8; 32], [2u8; 32], &vec![bad]).err(),
        Some(PipelineError::SigningFailed)
    );
}

#[test]
fn no_keys_leaves_every_slot_empty() {
    let ixs = vec![plain_ix(3, 4)];
    let t = build_txn(&ixs, [8u8; 32], [2u8; 32], &vec![]).unwrap();
    assert_eq!(t.signatures(), &vec![None]);
    assert!(!t.is_signed());
}

#[test]
fn simulation_payload_is_base64_of_bincode() {
    let k = fresh();
    let payer = k.try_pubkey().unwrap();
    let ixs = vec![plain_ix(3, 4), plain_ix(5, 6)];
    let t = build_txn(&ixs, payer, [9u8; 32], &vec![k]).unwrap();
    let text = simulation_payload(&t).unwrap();
    assert_eq!(text.len() % 4, 0);
    let bytes = base64::prelude::BASE64_STANDARD.decode(&text).unwrap();
    assert_eq!(bytes, bincode::serialize(&t.to_transaction()).unwrap());
    assert_ne!(text.as_bytes(), &bytes[..]);
    let mut wire = vec![1u8];
    wire.extend_from_slice(&t.signatures()[0].unwrap());
    wire.extend_from_slice(t.message_data());
    assert_eq!(bytes, wire);
}

#[test]
fn simulation_payload_of_unsigned_slots_uses_zero_bytes() {
    let ixs = vec![plain_ix(3, 4)];
    let t = Txn::new_unsigned(&ixs, [8u8; 32], [2u8; 32]);
    let bytes = base64::prelude::BASE64_STANDARD.decode(simulation_payload(&t).unwrap()).unwrap();
    let mut wire = vec![1u8];
    wire.extend_from_slice(&[0u8; 64]);
    wire.extend_from_slice(t.message_data());
    assert_eq!(bytes, wire);
}

#[test]
fn message_fits_counts_keys_and_data() {
    assert!(message_fits(&vec![]));
    let wide = Instruction {
        program_id: [1u8; 32],
        accounts: (0..253u32)
            .map(|i| AccountMeta { pubkey: [(i % 250) as u8; 32], is_signer: false, is_writable: false })
            .collect(),
        data: vec![],
    };
    // 1 fee payer + 1 program + 253 entries = 255.
    assert!(message_fits(&vec![wide.clone()]));
    let mut wider = wide.clone();
    wider.accounts.push(AccountMeta { pubkey: [0u8; 32], is_signer: false, is_writable: false });
    assert!(!message_fits(&vec![wider]));
    assert!(!message_fits(&vec![wide, plain_ix(2, 3)]));
    let long = Instruction { program_id: [1u8; 32], accounts: vec![], data: vec![0u8; 65536] };
    assert!(!message_fits(&vec![long]));
    let edge = Instruction { program_id: [1u8; 32], accounts: vec![], data: vec![0u8; 65535] };
    assert!(message_fits(&vec![edge]));
}

#[test]
fn fee_payer_comes_first_among_signers() {
    let a = fresh().try_pubkey().unwrap();
    let payer = [200u8; 32];
    let ixs = vec![Instruction {
        program_id: [3u8; 32],
        accounts: vec![
            AccountMeta { pubkey: a, is_signer: true, is_writable: false },
            AccountMeta { pubkey: payer, is_signer: true, is_writable: true },
        ],
        data: vec![],
    }];
    let t = Txn::new_unsigned(&ixs, payer, [0u8; 32]);
    assert_eq!(t.signers(), &vec![payer, a]);
    assert_eq!(t.signatures(), &vec![None, None]);
    assert_eq!(t.wire_signatures(), vec![[0u8; 64], [0u8; 64]]);
    assert!(!t.message_data().is_empty());
}

#[test]
fn validity_check_follows_the_required_signers() {
    let k = fresh();
    let other = fresh();
    let payer = k.try_pubkey().unwrap();
    let o = other.try_pubkey().unwrap();
    let ixs = vec![Instruction {
        program_id: [3u8; 32],
        accounts: vec![AccountMeta { pubkey: o, is_signer: true, is_writable: false }],
        data: vec![5],
    }];
    let partial = build_txn(&ixs, payer, [4u8; 32], &vec![k.clone()]).unwrap();
    assert!(!partial.verify());
    let full = build_txn(&ixs, payer, [4u8; 32], &vec![k.clone(), other.clone()]).unwrap();
    assert!(full.verify());
    let unsigned = Txn::new_unsigned(&ixs, payer, [4u8; 32]);
    assert!(!unsigned.verify());
}

#[test]
fn key_order_does_not_change_the_transaction() {
    let k = fresh();
    let other = fresh();
    let payer = k.try_pubkey().unwrap();
    let o = other.try_pubkey().unwrap();
    let ixs = vec![Instruction {
        program_id: [3u8; 32],
        accounts: vec![AccountMeta { pubkey: o, is_signer: true, is_writable: true }],
        data: vec![],
    }];
    let a = build_txn(&ixs, payer, [6u8; 32], &vec![k.clone(), other.clone()]).unwrap();
    let b = build_txn(&ixs, payer, [6u8; 32], &vec![other, k]).unwrap();
    assert_eq!(a.message_data(), b.message_data());
    assert_eq!(a.signatures(), b.signatures());
    assert_eq!(simulation_payload(&a).unwrap(), simulation_payload(&b).unwrap());
}

#[test]
fn message_bytes_carry_the_checkpoint() {
    let k = fresh();
    let payer = k.try_pubkey().unwrap();
    let ixs = vec![plain_ix(3, 4), plain_ix(5, 6)];
    let a = build_txn(&ixs, payer, [1u8; 32], &vec![k.clone()]).unwrap();
    let b = build_txn(&ixs, payer, [2u8; 32], &vec![k]).unwrap();
    assert_ne!(a.message_data(), b.message_data());
    let tx = a.to_transaction();
    assert_eq!(tx.message.instructions.len(), 2);
    assert_eq!(tx.message.account_keys[0].to_bytes(), payer);
}
