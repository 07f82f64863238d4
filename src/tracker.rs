//! The tracker: blind issuance, redemption and proof of reserves over one
//! owned reserve and one set of books.
//!
//! Every operation takes the tracker by exclusive reference, so operations
//! are serialized: of two redemptions of one note that both pass
//! `prepare_redemption`, only the first `finalize_redemption` succeeds and
//! the second observes `DoubleSpend`.
use vstd::prelude::*;
use vstd::string::StringExecFns;
use crate::types::{
    decimal, decimal_of, nullifier_of, signature_well_formed, BlindSignature, Bytes32, Nullifier,
    PrivateNote, PublicKey, ReserveState, TrackerState, SIG_POINT_LEN, SIG_SCALAR_LEN,
};

verus! {

/// Why an operation of the tracker was refused.
#[derive(Clone, Debug)]
pub enum TrackerError {
    DoubleSpend,
    NoteNotFound(String),
    InvalidSignature,
    InsufficientReserve,
    InvalidDenomination(u64),
    CryptoError(String),
    InternalError(String),
}

/// The text that describes an error.
pub open spec fn error_message(e: TrackerError) -> Seq<char> {
    match e {
        TrackerError::DoubleSpend => "Nullifier already spent"@,
        TrackerError::NoteNotFound(id) => "Note not found: "@ + id@,
        TrackerError::InvalidSignature => "Invalid signature"@,
        TrackerError::InsufficientReserve => "Insufficient reserve balance"@,
        TrackerError::InvalidDenomination(d) => "Invalid denomination: "@ + decimal_of(d as nat),
        TrackerError::CryptoError(msg) => "Cryptographic error: "@ + msg@,
        TrackerError::InternalError(msg) => "Internal error: "@ + msg@,
    }
}

impl TrackerError {
    /// The text that describes the error.
    pub fn message(&self) -> (r: String)
        ensures
            r@ == error_message(*self),
    {
        match self {
            TrackerError::DoubleSpend => "Nullifier already spent".to_owned(),
            TrackerError::NoteNotFound(id) => "Note not found: ".to_owned().concat(id.as_str()),
            TrackerError::InvalidSignature => "Invalid signature".to_owned(),
            TrackerError::InsufficientReserve => "Insufficient reserve balance".to_owned(),
            TrackerError::InvalidDenomination(d) => "Invalid denomination: ".to_owned().concat(
                decimal(*d).as_str(),
            ),
            TrackerError::CryptoError(msg) => "Cryptographic error: ".to_owned().concat(
                msg.as_str(),
            ),
            TrackerError::InternalError(msg) => "Internal error: ".to_owned().concat(msg.as_str()),
        }
    }
}

pub type TrackerResult<T> = Result<T, TrackerError>;

/// A holder's request for a note, made after the deposit that funds it.
#[derive(Clone, Debug)]
pub struct BlindIssuanceRequest {
    pub denomination: u64,
    pub blinded_commitment: Vec<u8>,
    pub deposit_tx_id: String,
}

/// What a pending issuance holds, as plain values.
pub struct RequestView {
    pub denomination: u64,
    pub blinded_commitment: Seq<u8>,
    pub deposit_tx_id: Seq<char>,
}

impl View for BlindIssuanceRequest {
    type V = RequestView;

    open spec fn view(&self) -> RequestView {
        RequestView {
            denomination: self.denomination,
            blinded_commitment: self.blinded_commitment@,
            deposit_tx_id: self.deposit_tx_id@,
        }
    }
}

/// The mint's answer to an issuance: the blind signature and when it was made.
#[derive(Clone, Debug)]
pub struct BlindIssuanceResponse {
    pub blind_signature: BlindSignature,
    pub issuance_timestamp: u64,
}

/// A request to redeem a note to a receiver.
#[derive(Clone, Debug)]
pub struct RedemptionRequest {
    pub note: PrivateNote,
    pub receiver_pubkey: PublicKey,
}

/// What the settlement layer needs to redeem a note on chain.
#[derive(Clone, Debug)]
pub struct RedemptionTxData {
    pub reserve_input_id: String,
    pub nullifier: Nullifier,
    pub denomination: u64,
    pub serial: Bytes32,
    pub blind_signature: BlindSignature,
    pub receiver_pubkey: PublicKey,
    pub avl_proof: Vec<u8>,
    pub tracker_signature: Vec<u8>,
}

/// The proof-of-reserves report.
#[derive(Clone, Debug)]
pub struct ProofOfReserves {
    pub reserve_erg_balance: u64,
    pub issued_notes_count: u64,
    pub redeemed_notes_count: u64,
    pub outstanding_value: u64,
    pub is_solvent: bool,
}

/// The value that the proof of reserves gives each outstanding note. The
/// report counts every note at this value, whatever its denomination.
pub const FIXED_DENOMINATION: u64 = 1_000_000_000;

/// Length of the placeholder accumulator proof.
pub const AVL_PROOF_LEN: usize = 64;

/// Length of the tracker's authorization signature.
pub const REDEMPTION_SIG_LEN: usize = 65;


/// The denominations a note may have: 0.1, 1, 10 and 100 units of 10^9.
pub open spec fn allowed_denomination_list() -> Seq<u64> {
    seq![100_000_000u64, 1_000_000_000u64, 10_000_000_000u64, 100_000_000_000u64]
}

pub open spec fn is_allowed_denomination(d: u64) -> bool {
    allowed_denomination_list().contains(d)
}

/// The lowercase hexadecimal digit of `n`, for `n < 16`.
pub open spec fn hex_digit(n: u8) -> char {
    seq!['0', '1', '2', '3', '4', '5', '6', '7', '8', '9', 'a', 'b', 'c', 'd', 'e', 'f'][n as int]
}

/// Two lowercase hexadecimal digits for each byte, high nibble first.
pub open spec fn hex_of(b: Seq<u8>) -> Seq<char>
    decreases b.len(),
{
    if b.len() == 0 {
        Seq::empty()
    } else {
        hex_of(b.drop_last()) + seq![hex_digit(b.last() / 16), hex_digit(b.last() % 16)]
    }
}

/// Relies on hex::encode: two lowercase digits for each byte, high nibble first.
#[verifier::external_body]
fn hex_encode(b: &[u8]) -> (r: String)
    ensures
        r@ == hex_of(b@),
{
    hex::encode(b)
}

/// Relies on rand's `thread_rng` and `RngCore::fill_bytes`: `n` bytes drawn
/// at random.
#[verifier::external_body]
fn random_bytes(n: usize) -> (r: Vec<u8>)
    ensures
        r@.len() == n,
{
    let mut v = vec![0u8; n];
    rand::RngCore::fill_bytes(&mut rand::thread_rng(), &mut v[..]);
    v
}

/// The map from deposit id to request that a list of pending requests
/// stands for; a later entry for an id overrides an earlier one.
pub open spec fn pending_map(s: Seq<BlindIssuanceRequest>) -> Map<Seq<char>, RequestView>
    decreases s.len(),
{
    if s.len() == 0 {
        Map::empty()
    } else {
        pending_map(s.drop_last()).insert(s.last().deposit_tx_id@, s.last()@)
    }
}

/// No two pending requests share a deposit id.
pub open spec fn ids_unique(s: Seq<BlindIssuanceRequest>) -> bool {
    forall|i: int, j: int|
        0 <= i < j < s.len() ==> #[trigger] s[i].deposit_tx_id@ != #[trigger] s[j].deposit_tx_id@
}

proof fn lemma_pending_map_has(s: Seq<BlindIssuanceRequest>, id: Seq<char>)
    ensures
        pending_map(s).contains_key(id) <==> exists|i: int|
            0 <= i < s.len() && #[trigger] s[i].deposit_tx_id@ == id,
    decreases s.len(),
{
    if s.len() > 0 {
        let t = s.drop_last();
        lemma_pending_map_has(t, id);
        if pending_map(s).contains_key(id) && id != s.last().deposit_tx_id@ {
            let i = choose|i: int| 0 <= i < t.len() && #[trigger] t[i].deposit_tx_id@ == id;
            assert(s[i].deposit_tx_id@ == id);
        }
        if exists|i: int| 0 <= i < s.len() && #[trigger] s[i].deposit_tx_id@ == id {
            let i = choose|i: int| 0 <= i < s.len() && #[trigger] s[i].deposit_tx_id@ == id;
            if i < s.len() - 1 {
                assert(t[i].deposit_tx_id@ == id);
            }
        }
    }
}

proof fn lemma_pending_map_at(s: Seq<BlindIssuanceRequest>, i: int)
    requires
        ids_unique(s),
        0 <= i < s.len(),
    ensures
        pending_map(s).contains_key(s[i].deposit_tx_id@),
        pending_map(s)[s[i].deposit_tx_id@] == s[i]@,
    decreases s.len(),
{
    let t = s.drop_last();
    if i < s.len() - 1 {
        assert(t[i] == s[i]);
        assert(s[i].deposit_tx_id@ != s[s.len() - 1].deposit_tx_id@);
        lemma_pending_map_at(t, i);
    }
}

proof fn lemma_pending_map_remove(s: Seq<BlindIssuanceRequest>, i: int)
    requires
        ids_unique(s),
        0 <= i < s.len(),
    ensures
        pending_map(s.remove(i)) == pending_map(s).remove(s[i].deposit_tx_id@),
    decreases s.len(),
{
    let t = s.drop_last();
    let id = s[i].deposit_tx_id@;
    if i == s.len() - 1 {
        assert(s.remove(i) =~= t);
        lemma_pending_map_has(t, id);
        if pending_map(t).contains_key(id) {
            let j = choose|j: int| 0 <= j < t.len() && #[trigger] t[j].deposit_tx_id@ == id;
            assert(s[j].deposit_tx_id@ == id);
        }
        assert(pending_map(s.remove(i)) =~= pending_map(s).remove(id));
    } else {
        lemma_pending_map_remove(t, i);
        assert(s.remove(i).drop_last() =~= t.remove(i));
        assert(s.remove(i).last() == s.last());
        assert(s.last().deposit_tx_id@ != id);
        assert(pending_map(s.remove(i)) =~= pending_map(s).remove(id));
    }
}

proof fn lemma_pending_map_push(s: Seq<BlindIssuanceRequest>, r: BlindIssuanceRequest)
    ensures
        pending_map(s.push(r)) == pending_map(s).insert(r.deposit_tx_id@, r@),
{
    assert(s.push(r).drop_last() =~= s);
}

/// The tracker: the reserve, the books, the pending issuances, the consumed
/// deposits and the catalog of denominations.
pub struct PrivateBasisTracker {
    pub reserve: ReserveState,
    pub tracker_state: TrackerState,
    pending_issuances: Vec<BlindIssuanceRequest>,
    processed_deposits: Vec<String>,
    allowed_denominations: Vec<u64>,
}

impl PrivateBasisTracker {
    /// The reserve that the tracker holds.
    pub closed spec fn reserve_state(&self) -> ReserveState {
        self.reserve
    }

    /// The tracker's books.
    pub closed spec fn books(&self) -> TrackerState {
        self.tracker_state
    }

    /// The pending issuances, by deposit id.
    pub closed spec fn pending(&self) -> Map<Seq<char>, RequestView> {
        pending_map(self.pending_issuances@)
    }

    /// The deposit ids that have funded an issued note.
    pub closed spec fn processed(&self) -> Set<Seq<char>> {
        Set::new(
            |id: Seq<char>|
                exists|i: int|
                    0 <= i < self.processed_deposits@.len() && #[trigger] self.processed_deposits@[i]@
                        == id,
        )
    }

    /// The tracker's own invariant: the catalog is the fixed one and each
    /// deposit id has at most one pending request.
    pub closed spec fn wf(&self) -> bool {
        &&& self.allowed_denominations@ == allowed_denomination_list()
        &&& ids_unique(self.pending_issuances@)
    }

    /// What `request_blind_issuance` does, from `self` to `next` with result `r`.
    pub open spec fn request_post(
        self,
        next: Self,
        request: RequestView,
        r: TrackerResult<()>,
    ) -> bool {
        if !is_allowed_denomination(request.denomination) {
            r == Err::<(), TrackerError>(TrackerError::InvalidDenomination(request.denomination))
                && next == self
        } else if self.processed().contains(request.deposit_tx_id) {
            r is Err && r->Err_0 is InternalError && next == self
        } else {
            &&& r == Ok::<(), TrackerError>(())
            &&& next.pending() == self.pending().insert(request.deposit_tx_id, request)
            &&& next.processed() == self.processed()
            &&& next.reserve_state() == self.reserve_state()
            &&& next.books() == self.books()
        }
    }

    /// What `issue_blind_signature` does, from `self` to `next` with result `r`.
    pub open spec fn issue_post(
        self,
        next: Self,
        id: Seq<char>,
        r: TrackerResult<BlindIssuanceResponse>,
    ) -> bool {
        if !self.pending().contains_key(id) {
            r is Err && r->Err_0 is NoteNotFound && r->Err_0->NoteNotFound_0@ == id && next == self
        } else {
            &&& r is Ok
            &&& r->Ok_0.blind_signature.a@.len() == 33
            &&& r->Ok_0.blind_signature.z@.len() == 32
            &&& next.pending() == self.pending().remove(id)
            &&& next.processed() == self.processed().insert(id)
            &&& next.books().issued_notes_count == self.books().issued_notes_count + 1
            &&& next.books().redeemed_notes_count == self.books().redeemed_notes_count
            &&& next.books().spent_nullifiers == self.books().spent_nullifiers
            &&& next.books().tracker_nft == self.books().tracker_nft
            &&& next.reserve_state() == self.reserve_state()
        }
    }

    /// What `finalize_redemption` does, from `self` to `next` with result `r`.
    pub open spec fn finalize_post(
        self,
        next: Self,
        nullifier: Seq<u8>,
        denomination: u64,
        r: TrackerResult<()>,
    ) -> bool {
        if self.books().spent().contains(nullifier) {
            r == Err::<(), TrackerError>(TrackerError::DoubleSpend) && next == self
        } else if self.reserve_state().erg_balance < denomination {
            r == Err::<(), TrackerError>(TrackerError::InsufficientReserve) && next == self
        } else {
            &&& r == Ok::<(), TrackerError>(())
            &&& next.books().spent() == self.books().spent().insert(nullifier)
            &&& next.books().redeemed_notes_count == self.books().redeemed_notes_count
                + 1
            &&& next.books().issued_notes_count == self.books().issued_notes_count
            &&& next.books().tracker_nft == self.books().tracker_nft
            &&& next.reserve_state().erg_balance == self.reserve_state().erg_balance - denomination
            &&& next.reserve_state().reserve_nft == self.reserve_state().reserve_nft
            &&& next.reserve_state().mint_pubkey == self.reserve_state().mint_pubkey
            &&& next.reserve_state().nullifier_tree_root == self.reserve_state().nullifier_tree_root
            &&& next.reserve_state().tracker_nft == self.reserve_state().tracker_nft
            &&& next.pending() == self.pending()
            &&& next.processed() == self.processed()
        }
    }

    /// A tracker over the given reserve, with empty books, nothing pending
    /// and the fixed catalog of denominations.
    pub fn new(reserve: ReserveState, tracker_nft: Bytes32) -> (r: Self)
        ensures
            r.wf(),
            r.reserve_state() == reserve,
            r.books().tracker_nft == tracker_nft,
            r.books().spent() == Set::<Seq<u8>>::empty(),
            r.books().issued_notes_count == 0,
            r.books().redeemed_notes_count == 0,
            r.pending() == Map::<Seq<char>, RequestView>::empty(),
            r.processed() == Set::<Seq<char>>::empty(),
    {
        let mut allowed_denominations: Vec<u64> = Vec::new();
        allowed_denominations.push(100_000_000);
        allowed_denominations.push(1_000_000_000);
        allowed_denominations.push(10_000_000_000);
        allowed_denominations.push(100_000_000_000);
        let r = PrivateBasisTracker {
            reserve,
            tracker_state: TrackerState::new(tracker_nft),
            pending_issuances: Vec::new(),
            processed_deposits: Vec::new(),
            allowed_denominations,
        };
        assert(r.allowed_denominations@ =~= allowed_denomination_list());
        assert(r.processed() =~= Set::<Seq<char>>::empty());
        r
    }

    /// Whether `d` is in the catalog.
    fn is_allowed(&self, d: u64) -> (r: bool)
        requires
            self.wf(),
        ensures
            r == is_allowed_denomination(d),
    {
        let mut i: usize = 0;
        while i < self.allowed_denominations.len()
            invariant
                self.wf(),
                i <= self.allowed_denominations@.len(),
                forall|j: int| 0 <= j < i ==> self.allowed_denominations@[j] != d,
            decreases self.allowed_denominations@.len() - i,
        {
            if self.allowed_denominations[i] == d {
                assert(allowed_denomination_list()[i as int] == d);
                return true;
            }
            i = i + 1;
        }
        false
    }

    /// How many issuances are pending.
    pub fn pending_count(&self) -> (r: usize)
        requires
            self.wf(),
        ensures
            r == self.pending().len(),
    {
        proof {
            lemma_pending_map_len(self.pending_issuances@);
        }
        self.pending_issuances.len()
    }

    /// Whether an issuance is pending for the deposit id.
    pub fn has_pending(&self, deposit_tx_id: &str) -> (r: bool)
        ensures
            r == self.pending().contains_key(deposit_tx_id@),
    {
        let id = deposit_tx_id.to_owned();
        match self.find_pending(&id) {
            Some(i) => {
                proof {
                    lemma_pending_map_has(self.pending_issuances@, id@);
                }
                true
            },
            None => false,
        }
    }

    /// Whether the deposit id has funded an issued note.
    pub fn is_deposit_processed(&self, deposit_tx_id: &str) -> (r: bool)
        ensures
            r == self.processed().contains(deposit_tx_id@),
    {
        let id = deposit_tx_id.to_owned();
        self.is_processed(&id)
    }

    /// Whether the deposit id has funded an issued note.
    fn is_processed(&self, id: &String) -> (r: bool)
        ensures
            r == self.processed().contains(id@),
    {
        let mut i: usize = 0;
        while i < self.processed_deposits.len()
            invariant
                i <= self.processed_deposits@.len(),
                forall|j: int| 0 <= j < i ==> #[trigger] self.processed_deposits@[j]@ != id@,
            decreases self.processed_deposits@.len() - i,
        {
            if self.processed_deposits[i] == *id {
                assert(self.processed_deposits@[i as int]@ == id@);
                return true;
            }
            i = i + 1;
        }
        false
    }

    /// The index of the pending request for the deposit id, if there is one.
    fn find_pending(&self, id: &String) -> (r: Option<usize>)
        ensures
            r matches Some(i) ==> i < self.pending_issuances@.len()
                && self.pending_issuances@[i as int].deposit_tx_id@ == id@,
            r is None ==> !self.pending().contains_key(id@),
    {
        let mut i: usize = 0;
        while i < self.pending_issuances.len()
            invariant
                i <= self.pending_issuances@.len(),
                forall|j: int|
                    0 <= j < i ==> #[trigger] self.pending_issuances@[j].deposit_tx_id@ != id@,
            decreases self.pending_issuances@.len() - i,
        {
            if self.pending_issuances[i].deposit_tx_id == *id {
                return Some(i);
            }
            i = i + 1;
        }
        proof {
            lemma_pending_map_has(self.pending_issuances@, id@);
        }
        None
    }

    /// Records that the deposit id has funded an issued note.
    fn add_processed(&mut self, id: String)
        ensures
            final(self).processed() == old(self).processed().insert(id@),
            final(self).pending_issuances == old(self).pending_issuances,
            final(self).allowed_denominations == old(self).allowed_denominations,
            final(self).reserve_state() == old(self).reserve_state(),
            final(self).books() == old(self).books(),
    {
        let ghost before = self.processed();
        let ghost v = id@;
        self.processed_deposits.push(id);
        assert(self.processed_deposits@[self.processed_deposits@.len() - 1]@ == v);
        assert forall|b: Seq<char>| self.processed().contains(b) == before.insert(v).contains(
            b,
        ) by {
            if before.contains(b) {
                let i = choose|i: int|
                    0 <= i < old(self).processed_deposits@.len()
                        && #[trigger] old(self).processed_deposits@[i]@ == b;
                assert(self.processed_deposits@[i]@ == b);
            }
            if self.processed().contains(b) && b != v {
                let i = choose|i: int|
                    0 <= i < self.processed_deposits@.len()
                        && #[trigger] self.processed_deposits@[i]@ == b;
                assert(old(self).processed_deposits@[i]@ == b);
            }
        }
        assert(self.processed() =~= before.insert(v));
    }

    /// Accepts a request for a note, to be signed later, in place of any
    /// request pending for the same deposit. Refuses a denomination outside
    /// the catalog, then a deposit that has already funded a note; a refusal
    /// changes nothing.
    pub fn request_blind_issuance(&mut self, request: BlindIssuanceRequest) -> (r: TrackerResult<
        (),
    >)
        requires
            old(self).wf(),
        ensures
            final(self).wf(),
            old(self).request_post(*final(self), request@, r),
    {
        if !self.is_allowed(request.denomination) {
            return Err(TrackerError::InvalidDenomination(request.denomination));
        }
        if self.is_processed(&request.deposit_tx_id) {
            return Err(TrackerError::InternalError("Deposit already used for issuance".to_owned()));
        }
        let ghost old_pending = self.pending_issuances@;
        match self.find_pending(&request.deposit_tx_id) {
            Some(i) => {
                proof {
                    lemma_pending_map_remove(old_pending, i as int);
                }
                self.pending_issuances.remove(i);
                assert(ids_unique(self.pending_issuances@)) by {
                    assert forall|a: int, b: int|
                        0 <= a < b < self.pending_issuances@.len() implies #[trigger] self.pending_issuances@[a].deposit_tx_id@
                        != #[trigger] self.pending_issuances@[b].deposit_tx_id@ by {
                        let a0 = if a < i { a } else { a + 1 };
                        let b0 = if b < i { b } else { b + 1 };
                        assert(self.pending_issuances@[a] == old_pending[a0]);
                        assert(self.pending_issuances@[b] == old_pending[b0]);
                    }
                }
                proof {
                    lemma_pending_map_has(self.pending_issuances@, request.deposit_tx_id@);
                    assert(!pending_map(self.pending_issuances@).contains_key(
                        request.deposit_tx_id@,
                    ));
                }
            },
            None => {},
        }
        let ghost mid = self.pending_issuances@;
        let ghost req = request;
        proof {
            lemma_pending_map_has(mid, request.deposit_tx_id@);
            lemma_pending_map_push(mid, request);
        }
        self.pending_issuances.push(request);
        assert(self.pending_issuances@ =~= mid.push(req));
        assert(ids_unique(self.pending_issuances@)) by {
            assert forall|a: int, b: int|
                0 <= a < b < self.pending_issuances@.len() implies #[trigger] self.pending_issuances@[a].deposit_tx_id@
                != #[trigger] self.pending_issuances@[b].deposit_tx_id@ by {
                if b == mid.len() {
                    assert(mid[a].deposit_tx_id@ != req.deposit_tx_id@);
                }
            }
        }
        assert(self.pending() =~= old(self).pending().insert(req.deposit_tx_id@, req@));
        Ok(())
    }

    /// Signs the pending request of the deposit and removes it; the deposit
    /// is then consumed and one more note counts as issued. Refuses a deposit
    /// id with no pending request, and then changes nothing.
    pub fn issue_blind_signature(&mut self, deposit_tx_id: &str) -> (r: TrackerResult<
        BlindIssuanceResponse,
    >)
        requires
            old(self).wf(),
            old(self).pending().contains_key(deposit_tx_id@) ==> old(self).books().issued_notes_count < u64::MAX,
        ensures
            final(self).wf(),
            old(self).issue_post(*final(self), deposit_tx_id@, r),
    {
        let id = deposit_tx_id.to_owned();
        let i = match self.find_pending(&id) {
            Some(i) => i,
            None => {
                return Err(TrackerError::NoteNotFound(id));
            },
        };
        let ghost old_pending = self.pending_issuances@;
        proof {
            lemma_pending_map_remove(old_pending, i as int);
            lemma_pending_map_at(old_pending, i as int);
        }
        let request = self.pending_issuances.remove(i);
        assert(ids_unique(self.pending_issuances@)) by {
            assert forall|a: int, b: int|
                0 <= a < b < self.pending_issuances@.len() implies #[trigger] self.pending_issuances@[a].deposit_tx_id@
                != #[trigger] self.pending_issuances@[b].deposit_tx_id@ by {
                let a0 = if a < i { a } else { a + 1 };
                let b0 = if b < i { b } else { b + 1 };
                assert(self.pending_issuances@[a] == old_pending[a0]);
                assert(self.pending_issuances@[b] == old_pending[b0]);
            }
        }
        self.add_processed(id);
        let blind_sig = self.create_placeholder_blind_signature(request.blinded_commitment.as_slice());
        self.tracker_state.record_issuance();
        Ok(BlindIssuanceResponse {
            blind_signature: blind_sig,
            issuance_timestamp: Self::get_current_timestamp(),
        })
    }

    /// Whether the nullifier has been spent.
    pub fn is_nullifier_spent(&self, nullifier: &Nullifier) -> (r: bool)
        ensures
            r == self.books().spent().contains(nullifier@),
    {
        self.tracker_state.is_spent(nullifier)
    }

    /// Checks a note for redemption and assembles the data that settlement
    /// needs; marks nothing spent and moves no balance. Refuses, in this
    /// order, a note whose signature fails the check, a note whose nullifier
    /// is spent, and a note worth more than the reserve holds.
    pub fn prepare_redemption(&mut self, request: RedemptionRequest) -> (r: TrackerResult<
        RedemptionTxData,
    >)
        ensures
            *final(self) == *old(self),
            !signature_well_formed(request.note.blind_signature) ==> r == Err::<
                RedemptionTxData,
                TrackerError,
            >(TrackerError::InvalidSignature),
            signature_well_formed(request.note.blind_signature) && old(self).books().spent().contains(
                nullifier_of(request.note.serial@, old(self).reserve_state().mint_pubkey@),
            ) ==> r == Err::<RedemptionTxData, TrackerError>(TrackerError::DoubleSpend),
            signature_well_formed(request.note.blind_signature) && !old(self).books().spent().contains(
                nullifier_of(request.note.serial@, old(self).reserve_state().mint_pubkey@),
            ) && old(self).reserve_state().erg_balance < request.note.denomination ==> r == Err::<
                RedemptionTxData,
                TrackerError,
            >(TrackerError::InsufficientReserve),
            r is Ok <==> signature_well_formed(request.note.blind_signature) && !old(self).books().spent().contains(
                nullifier_of(request.note.serial@, old(self).reserve_state().mint_pubkey@),
            ) && old(self).reserve_state().erg_balance >= request.note.denomination,
            r matches Ok(tx) ==> {
                &&& tx.reserve_input_id@ == hex_of(old(self).reserve_state().reserve_nft@)
                &&& tx.nullifier@ == nullifier_of(
                    request.note.serial@,
                    old(self).reserve_state().mint_pubkey@,
                )
                &&& tx.denomination == request.note.denomination
                &&& tx.serial == request.note.serial
                &&& tx.blind_signature == request.note.blind_signature
                &&& tx.receiver_pubkey == request.receiver_pubkey
                &&& tx.avl_proof@ == Seq::new(64, |i: int| 0u8)
                &&& tx.tracker_signature@.len() == 65
            },
    {
        let RedemptionRequest { note, receiver_pubkey } = request;
        if !note.verify_signature(&self.reserve.mint_pubkey) {
            return Err(TrackerError::InvalidSignature);
        }
        let nullifier = note.nullifier(&self.reserve.mint_pubkey);
        if self.is_nullifier_spent(&nullifier) {
            return Err(TrackerError::DoubleSpend);
        }
        if self.reserve.erg_balance < note.denomination {
            return Err(TrackerError::InsufficientReserve);
        }
        let avl_proof = self.generate_avl_insert_proof(&nullifier);
        let tracker_sig = self.sign_redemption(&nullifier, note.denomination);
        let PrivateNote { denomination, serial, blind_signature } = note;
        Ok(RedemptionTxData {
            reserve_input_id: hex_encode(self.reserve.reserve_nft.as_slice()),
            nullifier,
            denomination,
            serial,
            blind_signature,
            receiver_pubkey,
            avl_proof,
            tracker_signature: tracker_sig,
        })
    }

    /// Records a redemption that settlement has confirmed: the nullifier
    /// becomes spent and the denomination leaves the reserve, both or
    /// neither. Refuses a spent nullifier, then a denomination above the
    /// balance; a refusal changes nothing.
    pub fn finalize_redemption(&mut self, nullifier: Nullifier, denomination: u64) -> (r:
        TrackerResult<()>)
        requires
            old(self).wf(),
            !old(self).books().spent().contains(nullifier@) && old(self).reserve_state().erg_balance
                >= denomination ==> old(self).books().redeemed_notes_count < u64::MAX,
        ensures
            final(self).wf(),
            old(self).finalize_post(*final(self), nullifier@, denomination, r),
    {
        if self.tracker_state.is_spent(&nullifier) {
            return Err(TrackerError::DoubleSpend);
        }
        if self.reserve.erg_balance < denomination {
            return Err(TrackerError::InsufficientReserve);
        }
        match self.tracker_state.mark_spent(nullifier) {
            Ok(()) => {},
            Err(_) => {
                return Err(TrackerError::DoubleSpend);
            },
        }
        self.reserve.erg_balance = self.reserve.erg_balance - denomination;
        Ok(())
    }

    /// The proof-of-reserves report, every outstanding note counted at
    /// `FIXED_DENOMINATION`.
    pub fn get_proof_of_reserves(&self) -> (r: ProofOfReserves)
        requires
            self.books().redeemed_notes_count <= self.books().issued_notes_count,
            (self.books().issued_notes_count - self.books().redeemed_notes_count)
                * FIXED_DENOMINATION <= u64::MAX,
        ensures
            r.reserve_erg_balance == self.reserve_state().erg_balance,
            r.issued_notes_count == self.books().issued_notes_count,
            r.redeemed_notes_count == self.books().redeemed_notes_count,
            r.outstanding_value == (self.books().issued_notes_count
                - self.books().redeemed_notes_count) * FIXED_DENOMINATION,
            r.is_solvent == (r.reserve_erg_balance >= r.outstanding_value),
    {
        let outstanding = self.tracker_state.outstanding_notes(FIXED_DENOMINATION);
        ProofOfReserves {
            reserve_erg_balance: self.reserve.erg_balance,
            issued_notes_count: self.tracker_state.issued_notes_count,
            redeemed_notes_count: self.tracker_state.redeemed_notes_count,
            outstanding_value: outstanding,
            is_solvent: self.reserve.is_solvent(outstanding),
        }
    }

    /// The stand-in signer: a signature of the right shape, drawn at random,
    /// that does not depend on the blinded commitment.
    fn create_placeholder_blind_signature(&self, _blinded_commitment: &[u8]) -> (r: BlindSignature)
        ensures
            r.a@.len() == 33,
            r.z@.len() == 32,
    {
        let a = random_bytes(SIG_POINT_LEN);
        let z = random_bytes(SIG_SCALAR_LEN);
        BlindSignature::new(a, z)
    }

    /// The stand-in accumulator proof: 64 zero bytes.
    fn generate_avl_insert_proof(&self, _nullifier: &Nullifier) -> (r: Vec<u8>)
        ensures
            r@ == Seq::new(64, |i: int| 0u8),
    {
        let mut proof_bytes: Vec<u8> = Vec::new();
        let mut i: usize = 0;
        while i < AVL_PROOF_LEN
            invariant
                i <= 64,
                proof_bytes@ == Seq::new(i as nat, |k: int| 0u8),
            decreases 64 - i,
        {
            proof_bytes.push(0u8);
            i = i + 1;
            assert(proof_bytes@ =~= Seq::new(i as nat, |k: int| 0u8));
        }
        proof_bytes
    }

    /// The stand-in authorization signature: 65 bytes drawn at random.
    fn sign_redemption(&self, _nullifier: &Nullifier, _denomination: u64) -> (r: Vec<u8>)
        ensures
            r@.len() == 65,
    {
        random_bytes(REDEMPTION_SIG_LEN)
    }

    /// Relies on `SystemTime::now` and `duration_since(UNIX_EPOCH)`: the
    /// milliseconds since the epoch, 0 for a clock set before it.
    #[verifier::external_body]
    fn get_current_timestamp() -> (r: u64) {
        std::time::SystemTime::now().duration_since(std::time::UNIX_EPOCH).map(
            |d| d.as_millis() as u64,
        ).unwrap_or(0)
    }
}

proof fn lemma_pending_map_len(s: Seq<BlindIssuanceRequest>)
    requires
        ids_unique(s),
    ensures
        pending_map(s).dom().finite(),
        pending_map(s).len() == s.len(),
    decreases s.len(),
{
    if s.len() > 0 {
        let t = s.drop_last();
        assert(ids_unique(t)) by {
            assert forall|a: int, b: int| 0 <= a < b < t.len() implies #[trigger] t[a].deposit_tx_id@
                != #[trigger] t[b].deposit_tx_id@ by {
                assert(t[a] == s[a] && t[b] == s[b]);
            }
        }
        lemma_pending_map_len(t);
        lemma_pending_map_has(t, s.last().deposit_tx_id@);
        if pending_map(t).contains_key(s.last().deposit_tx_id@) {
            let j = choose|j: int|
                0 <= j < t.len() && #[trigger] t[j].deposit_tx_id@ == s.last().deposit_tx_id@;
            assert(s[j].deposit_tx_id@ == s[s.len() - 1].deposit_tx_id@);
        }
    }
}

/// The tracker is solvent for notes all worth `denomination`: no more notes
/// are redeemed than issued, and the balance covers the ones outstanding.
pub open spec fn solvent_for(t: PrivateBasisTracker, denomination: u64) -> bool {
    &&& t.books().redeemed_notes_count <= t.books().issued_notes_count
    &&& (t.books().issued_notes_count - t.books().redeemed_notes_count) * denomination
        <= t.reserve_state().erg_balance
}

/// The redemption count is the number of spent nullifiers.
pub open spec fn redeemed_counts_spent(t: PrivateBasisTracker) -> bool {
    &&& t.books().spent().finite()
    &&& t.books().redeemed_notes_count == t.books().spent().len()
}

/// An accepted request followed at once by the signature of its deposit
/// both succeed, count exactly one more issued note, and leave the reserve
/// balance as it was.
pub proof fn lemma_request_then_issue(
    t0: PrivateBasisTracker,
    t1: PrivateBasisTracker,
    t2: PrivateBasisTracker,
    request: RequestView,
    r1: TrackerResult<()>,
    r2: TrackerResult<BlindIssuanceResponse>,
)
    requires
        is_allowed_denomination(request.denomination),
        !t0.processed().contains(request.deposit_tx_id),
        t0.request_post(t1, request, r1),
        t1.issue_post(t2, request.deposit_tx_id, r2),
    ensures
        r1 is Ok,
        r2 is Ok,
        t2.books().issued_notes_count == t0.books().issued_notes_count + 1,
        t2.reserve_state().erg_balance == t0.reserve_state().erg_balance,
{
    assert(t1.pending().contains_key(request.deposit_tx_id));
}

/// Once a deposit's signature has been issued, issuing against the same
/// deposit id again fails with `NoteNotFound`.
pub proof fn lemma_issue_twice_fails(
    t0: PrivateBasisTracker,
    t1: PrivateBasisTracker,
    t2: PrivateBasisTracker,
    id: Seq<char>,
    r1: TrackerResult<BlindIssuanceResponse>,
    r2: TrackerResult<BlindIssuanceResponse>,
)
    requires
        t0.issue_post(t1, id, r1),
        r1 is Ok,
        t1.issue_post(t2, id, r2),
    ensures
        r2 is Err && r2->Err_0 is NoteNotFound,
        t2 == t1,
{
    assert(!t1.pending().contains_key(id));
}

/// Once a deposit's signature has been issued, a new request with an allowed
/// denomination against the same deposit id is refused as a conflict.
pub proof fn lemma_request_after_issue_fails(
    t0: PrivateBasisTracker,
    t1: PrivateBasisTracker,
    t2: PrivateBasisTracker,
    request: RequestView,
    r1: TrackerResult<BlindIssuanceResponse>,
    r2: TrackerResult<()>,
)
    requires
        t0.issue_post(t1, request.deposit_tx_id, r1),
        r1 is Ok,
        is_allowed_denomination(request.denomination),
        t1.request_post(t2, request, r2),
    ensures
        r2 is Err && r2->Err_0 is InternalError,
        t2 == t1,
{
    assert(t1.processed().contains(request.deposit_tx_id));
}

/// Once a nullifier's redemption has been finalized, finalizing it again
/// fails with `DoubleSpend` and changes nothing.
pub proof fn lemma_finalize_twice_fails(
    t0: PrivateBasisTracker,
    t1: PrivateBasisTracker,
    t2: PrivateBasisTracker,
    nullifier: Seq<u8>,
    d1: u64,
    d2: u64,
    r1: TrackerResult<()>,
    r2: TrackerResult<()>,
)
    requires
        t0.finalize_post(t1, nullifier, d1, r1),
        r1 is Ok,
        t1.finalize_post(t2, nullifier, d2, r2),
    ensures
        r2 == Err::<(), TrackerError>(TrackerError::DoubleSpend),
        t2 == t1,
{
    assert(t1.books().spent().contains(nullifier));
}

/// With every note worth `denomination`, finalizing the redemption of an
/// outstanding note keeps a solvent tracker solvent, whatever the outcome.
pub proof fn lemma_finalize_keeps_solvency(
    t0: PrivateBasisTracker,
    t1: PrivateBasisTracker,
    nullifier: Seq<u8>,
    denomination: u64,
    r: TrackerResult<()>,
)
    requires
        solvent_for(t0, denomination),
        t0.books().redeemed_notes_count < t0.books().issued_notes_count,
        t0.finalize_post(t1, nullifier, denomination, r),
    ensures
        solvent_for(t1, denomination),
{
    let k = (t0.books().issued_notes_count - t0.books().redeemed_notes_count) as int;
    assert((k - 1) * denomination == k * denomination - denomination) by (nonlinear_arith);
}

/// With every note worth `denomination`, issuing a note keeps the tracker
/// solvent when the reserve already holds that note's value beside the
/// outstanding ones, whatever the outcome.
pub proof fn lemma_issue_keeps_solvency(
    t0: PrivateBasisTracker,
    t1: PrivateBasisTracker,
    id: Seq<char>,
    denomination: u64,
    r: TrackerResult<BlindIssuanceResponse>,
)
    requires
        solvent_for(t0, denomination),
        (t0.books().issued_notes_count - t0.books().redeemed_notes_count + 1) * denomination
            <= t0.reserve_state().erg_balance,
        t0.issue_post(t1, id, r),
    ensures
        solvent_for(t1, denomination),
{
}

/// A new tracker has redeemed as many notes as it has spent nullifiers.
pub proof fn lemma_new_counts_spent(t: PrivateBasisTracker)
    requires
        t.books().spent() == Set::<Seq<u8>>::empty(),
        t.books().redeemed_notes_count == 0,
    ensures
        redeemed_counts_spent(t),
{
}

/// Every issuance, request and finalization keeps the redemption count equal
/// to the number of spent nullifiers.
pub proof fn lemma_steps_keep_count(
    t0: PrivateBasisTracker,
    t1: PrivateBasisTracker,
    request: RequestView,
    id: Seq<char>,
    nullifier: Seq<u8>,
    denomination: u64,
    r_request: TrackerResult<()>,
    r_issue: TrackerResult<BlindIssuanceResponse>,
    r_finalize: TrackerResult<()>,
)
    requires
        redeemed_counts_spent(t0),
    ensures
        t0.request_post(t1, request, r_request) ==> redeemed_counts_spent(t1),
        t0.issue_post(t1, id, r_issue) ==> redeemed_counts_spent(t1),
        t0.finalize_post(t1, nullifier, denomination, r_finalize) ==> redeemed_counts_spent(t1),
{
    if t0.issue_post(t1, id, r_issue) && t0.pending().contains_key(id) {
        assert(t1.books().spent() =~= t0.books().spent());
    }
}

/// Conservation: when the caller has kept the nullifiers of all issued
/// notes, and every redeemed nullifier is one of them, the notes issued less
/// the notes redeemed are exactly the known nullifiers not yet spent.
pub proof fn lemma_conservation(t: PrivateBasisTracker, known: Set<Seq<u8>>)
    requires
        redeemed_counts_spent(t),
        known.finite(),
        known.len() == t.books().issued_notes_count,
        t.books().spent().subset_of(known),
    ensures
        t.books().issued_notes_count - t.books().redeemed_notes_count == known.difference(
            t.books().spent(),
        ).len(),
{
    let spent = t.books().spent();
    assert(known.intersect(spent) =~= spent);
    vstd::set_lib::lemma_set_difference_len(known, spent);
}

/// One step of a run with every note worth `denomination`: the signature of
/// a deposit that the reserve already holds beside the outstanding notes, or
/// the finalization of an outstanding note's redemption.
pub open spec fn uniform_step(t0: PrivateBasisTracker, t1: PrivateBasisTracker, denomination: u64) -> bool {
    ||| exists|id: Seq<char>, r: TrackerResult<BlindIssuanceResponse>|
        #[trigger] t0.issue_post(t1, id, r) && (t0.books().issued_notes_count
            - t0.books().redeemed_notes_count + 1) * denomination <= t0.reserve_state().erg_balance
    ||| exists|n: Seq<u8>, r: TrackerResult<()>|
        #[trigger] t0.finalize_post(t1, n, denomination, r) && t0.books().redeemed_notes_count
            < t0.books().issued_notes_count
}

/// Solvency: along any run of such steps from a solvent tracker, the
/// reserve balance covers the outstanding value after every step.
pub proof fn lemma_run_keeps_solvency(run: Seq<PrivateBasisTracker>, denomination: u64)
    requires
        run.len() > 0,
        solvent_for(run[0], denomination),
        forall|i: int| 0 <= i < run.len() - 1 ==> uniform_step(#[trigger] run[i], run[i + 1], denomination),
    ensures
        forall|i: int| 0 <= i < run.len() ==> solvent_for(#[trigger] run[i], denomination),
    decreases run.len(),
{
    if run.len() > 1 {
        let prefix = run.drop_last();
        assert forall|i: int| 0 <= i < prefix.len() - 1 implies uniform_step(#[trigger] prefix[i], prefix[i + 1], denomination) by {
            assert(prefix[i] == run[i] && prefix[i + 1] == run[i + 1]);
            assert(uniform_step(run[i], run[i + 1], denomination));
        }
        lemma_run_keeps_solvency(prefix, denomination);
        let k = run.len() - 2;
        assert(prefix[k] == run[k]);
        assert(solvent_for(run[k], denomination));
        assert(uniform_step(run[k], run[k + 1], denomination));
        if exists|id: Seq<char>, r: TrackerResult<BlindIssuanceResponse>|
            #[trigger] run[k].issue_post(run[k + 1], id, r) && (run[k].books().issued_notes_count
                - run[k].books().redeemed_notes_count + 1) * denomination
                <= run[k].reserve_state().erg_balance {
            let (id, r) = choose|id: Seq<char>, r: TrackerResult<BlindIssuanceResponse>|
                #[trigger] run[k].issue_post(run[k + 1], id, r) && (run[k].books().issued_notes_count
                    - run[k].books().redeemed_notes_count + 1) * denomination
                    <= run[k].reserve_state().erg_balance;
            lemma_issue_keeps_solvency(run[k], run[k + 1], id, denomination, r);
        } else {
            let (n, r) = choose|n: Seq<u8>, r: TrackerResult<()>|
                #[trigger] run[k].finalize_post(run[k + 1], n, denomination, r)
                    && run[k].books().redeemed_notes_count < run[k].books().issued_notes_count;
            lemma_finalize_keeps_solvency(run[k], run[k + 1], n, denomination, r);
        }
        assert forall|i: int| 0 <= i < run.len() implies solvent_for(#[trigger] run[i], denomination) by {
            if i < run.len() - 1 {
                assert(prefix[i] == run[i]);
            }
        }
    }
}

} // verus!
