use basis_private_tracker::types::{BlindSignature, Nullifier, PrivateNote, PublicKey, ReserveState, TrackerState};

#[test]
fn test_nullifier_computation() {
    let serial = [42u8; 32];
    let mint_pubkey = PublicKey::from_bytes(vec![0x02; 33]);

    let nullifier = Nullifier::compute(&serial, &mint_pubkey);

    let nullifier2 = Nullifier::compute(&serial, &mint_pubkey);
    assert_eq!(nullifier, nullifier2);

    let serial2 = [43u8; 32];
    let nullifier3 = Nullifier::compute(&serial2, &mint_pubkey);
    assert_ne!(nullifier, nullifier3);

    let mint_pubkey2 = PublicKey::from_bytes(vec![0x03; 33]);
    let nullifier4 = Nullifier::compute(&serial, &mint_pubkey2);
    assert_ne!(nullifier, nullifier4);
}

#[test]
fn test_note_commitment() {
    let serial = [1u8; 32];
    let sig = BlindSignature::new(vec![2u8; 33], vec![3u8; 32]);
    let note = PrivateNote::new(1_000_000_000, serial, sig);

    let commitment = note.commitment();

    let commitment2 = note.commitment();
    assert_eq!(commitment, commitment2);

    let note2 = PrivateNote::new(2_000_000_000, serial, note.blind_signature.clone());
    assert_ne!(note.commitment(), note2.commitment());
}

#[test]
fn test_tracker_double_spend_prevention() {
    let mut tracker = TrackerState::new([0u8; 32]);
    let nullifier = Nullifier([1u8; 32]);

    assert!(!tracker.is_spent(&nullifier));
    assert!(tracker.mark_spent(nullifier).is_ok());
    assert!(tracker.is_spent(&nullifier));

    assert!(tracker.mark_spent(nullifier).is_err());
}

#[test]
fn test_reserve_solvency() {
    let reserve = ReserveState::new(
        [0u8; 32],
        PublicKey::from_bytes(vec![0x02; 33]),
        10_000_000_000,
        [0u8; 32],
        [0u8; 32],
    );

    assert!(reserve.is_solvent(5_000_000_000));
    assert!(reserve.is_solvent(10_000_000_000));

    assert!(!reserve.is_solvent(15_000_000_000));
}

#[test]
fn nullifier_is_domain_separated_from_commitment() {
    let serial = [7u8; 32];
    let note = PrivateNote::new(1_000_000_000, serial, BlindSignature::new(vec![1], vec![1]));
    let key = PublicKey::from_bytes(vec![0x02; 33]);
    assert_ne!(note.nullifier(&key).as_bytes(), &note.commitment());
    assert_eq!(note.nullifier(&key), Nullifier::compute(&serial, &key));
}

#[test]
fn digests_are_not_their_input() {
    let serial = [0u8; 32];
    let note = PrivateNote::new(0, serial, BlindSignature::new(vec![1], vec![1]));
    assert_ne!(note.commitment(), serial);
    let key = PublicKey::from_bytes(vec![]);
    assert_ne!(*Nullifier::compute(&serial, &key).as_bytes(), serial);
}

#[test]
fn signature_wire_round_trip() {
    let a: Vec<u8> = (0..33u8).collect();
    let z: Vec<u8> = (100..132u8).collect();
    let sig = BlindSignature::new(a.clone(), z.clone());
    let bytes = sig.to_bytes();
    assert_eq!(bytes.len(), 65);
    assert_eq!(&bytes[0..33], &a[..]);
    assert_eq!(&bytes[33..65], &z[..]);
    let back = BlindSignature::from_bytes(&bytes).unwrap();
    assert_eq!(back.a, a);
    assert_eq!(back.z, z);
}

#[test]
fn signature_wire_wrong_length_is_refused() {
    assert!(BlindSignature::from_bytes(&[0u8; 64]).is_err());
    assert!(BlindSignature::from_bytes(&[0u8; 66]).is_err());
    assert!(BlindSignature::from_bytes(&[]).is_err());
}

#[test]
fn stand_in_verifier_needs_both_components() {
    let key = PublicKey::from_bytes(vec![0x02; 33]);
    assert!(PrivateNote::new(1, [0u8; 32], BlindSignature::new(vec![1], vec![2])).verify_signature(&key));
    assert!(!PrivateNote::new(1, [0u8; 32], BlindSignature::new(vec![], vec![2])).verify_signature(&key));
    assert!(!PrivateNote::new(1, [0u8; 32], BlindSignature::new(vec![1], vec![])).verify_signature(&key));
}

#[test]
fn outstanding_notes_multiplies_count_by_value() {
    let mut books = TrackerState::new([0u8; 32]);
    books.record_issuance();
    books.record_issuance();
    books.record_issuance();
    books.mark_spent(Nullifier([9u8; 32])).unwrap();
    assert_eq!(books.outstanding_notes(100_000_000), 200_000_000);
    assert_eq!(books.redeemed_notes_count, 1);
    assert_eq!(books.issued_notes_count, 3);
}

#[test]
fn public_key_bytes_and_equality() {
    let k = PublicKey::from_bytes(vec![1, 2, 3]);
    assert_eq!(k.as_bytes(), &[1u8, 2, 3][..]);
    assert_eq!(k, PublicKey::from_bytes(vec![1, 2, 3]));
    assert_ne!(k, PublicKey::from_bytes(vec![1, 2]));
    let n = Nullifier::from_bytes([5u8; 32]);
    assert_eq!(n.as_bytes(), &[5u8; 32]);
}
