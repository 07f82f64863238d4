//! Tracker for privately issued bearer notes backed by a reserve.
//!
//! Notes are issued through blind signatures, move between holders without
//! the tracker, and are redeemed by revealing a one-time nullifier that the
//! tracker records so that no note is redeemed twice.
pub mod types;
pub mod tracker;

pub use types::{BlindSignature, Bytes32, Nullifier, PrivateNote, PublicKey, ReserveState, TrackerState};
pub use tracker::{
    BlindIssuanceRequest, BlindIssuanceResponse, PrivateBasisTracker, ProofOfReserves,
    RedemptionRequest, RedemptionTxData, TrackerError, TrackerResult,
};
