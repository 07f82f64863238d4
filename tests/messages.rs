use basis_private_tracker::{BlindSignature, TrackerError};

#[test]
fn error_messages_name_the_error() {
    assert_eq!(TrackerError::DoubleSpend.message(), "Nullifier already spent");
    assert_eq!(TrackerError::NoteNotFound("tx9".to_string()).message(), "Note not found: tx9");
    assert_eq!(TrackerError::InvalidSignature.message(), "Invalid signature");
    assert_eq!(TrackerError::InsufficientReserve.message(), "Insufficient reserve balance");
    assert_eq!(
        TrackerError::InvalidDenomination(123_456_789).message(),
        "Invalid denomination: 123456789"
    );
    assert_eq!(TrackerError::InvalidDenomination(0).message(), "Invalid denomination: 0");
    assert_eq!(
        TrackerError::CryptoError("bad point".to_string()).message(),
        "Cryptographic error: bad point"
    );
    assert_eq!(
        TrackerError::InternalError("conflict".to_string()).message(),
        "Internal error: conflict"
    );
}

#[test]
fn wrong_signature_length_is_reported() {
    assert_eq!(
        BlindSignature::from_bytes(&[0u8; 64]).unwrap_err(),
        "Invalid signature length: 64"
    );
    assert_eq!(
        BlindSignature::from_bytes(&[0u8; 130]).unwrap_err(),
        "Invalid signature length: 130"
    );
}
