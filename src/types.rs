//! Value types of the ledger: keys, signatures, notes, nullifiers, and the
//! reserve and tracker aggregates.
use vstd::prelude::*;
use blake2::Digest;
use vstd::string::StringExecFns;

verus! {

/// A 32-byte value: serials, digests, identifiers.
pub type Bytes32 = [u8; 32];

/// A name for the 32-byte BLAKE2b digest of a message.
pub uninterp spec fn blake2b256_of(data: Seq<u8>) -> Seq<u8>;

/// Relies on blake2's `Blake2b<U32>::digest`: the 32-byte BLAKE2b digest of
/// `data`, which depends on the bytes of `data` alone.
#[verifier::external_body]
fn blake2b256(data: &[u8]) -> (r: Bytes32)
    ensures
        r@ == blake2b256_of(data@),
{
    blake2::Blake2b::<blake2::digest::consts::U32>::digest(data).into()
}

/// Appends `src` to `dst`.
fn append_bytes(dst: &mut Vec<u8>, src: &[u8])
    ensures
        final(dst)@ == old(dst)@ + src@,
{
    let mut i: usize = 0;
    while i < src.len()
        invariant
            i <= src@.len(),
            dst@ == old(dst)@ + src@.subrange(0, i as int),
        decreases src@.len() - i,
    {
        dst.push(src[i]);
        i = i + 1;
        assert(src@.subrange(0, i as int) =~= src@.subrange(0, i - 1) + seq![src@[i - 1]]);
    }
    assert(src@.subrange(0, src@.len() as int) =~= src@);
}

/// The eight bytes of `x`, most significant first.
pub open spec fn be_bytes(x: u64) -> Seq<u8> {
    seq![
        (x / 0x100000000000000 % 256) as u8,
        (x / 0x1000000000000 % 256) as u8,
        (x / 0x10000000000 % 256) as u8,
        (x / 0x100000000 % 256) as u8,
        (x / 0x1000000 % 256) as u8,
        (x / 0x10000 % 256) as u8,
        (x / 0x100 % 256) as u8,
        (x % 256) as u8,
    ]
}

/// The ASCII bytes of the domain-separation tag "nullifier".
pub open spec fn nullifier_tag() -> Seq<u8> {
    seq![110u8, 117u8, 108u8, 108u8, 105u8, 102u8, 105u8, 101u8, 114u8]
}

/// The commitment of a note: the digest of its denomination (big-endian)
/// followed by its serial.
pub open spec fn commitment_of(denomination: u64, serial: Seq<u8>) -> Seq<u8> {
    blake2b256_of(be_bytes(denomination) + serial)
}

/// The nullifier of a note under a mint key: the digest of the tag's digest,
/// the serial and the key's bytes. The tag's digest keeps nullifier messages
/// apart from commitment messages.
pub open spec fn nullifier_of(serial: Seq<u8>, mint_key: Seq<u8>) -> Seq<u8> {
    blake2b256_of(blake2b256_of(nullifier_tag()) + serial + mint_key)
}

/// The decimal digit `n`, for `n < 10`.
pub open spec fn decimal_digit(n: nat) -> char {
    seq!['0', '1', '2', '3', '4', '5', '6', '7', '8', '9'][n as int]
}

/// The decimal numeral of `n`, without leading zeros.
pub open spec fn decimal_of(n: nat) -> Seq<char>
    decreases n,
{
    if n < 10 {
        seq![decimal_digit(n)]
    } else {
        decimal_of(n / 10) + seq![decimal_digit(n % 10)]
    }
}

/// Relies on `u64`'s `Display` (through `to_string`): the decimal numeral,
/// without sign or leading zeros.
#[verifier::external_body]
pub(crate) fn decimal(n: u64) -> (r: String)
    ensures
        r@ == decimal_of(n as nat),
{
    n.to_string()
}

/// Identity of a mint or of a receiver: the raw key bytes.
#[derive(Clone, Debug)]
pub struct PublicKey {
    pub bytes: Vec<u8>,
}

impl View for PublicKey {
    type V = Seq<u8>;

    open spec fn view(&self) -> Seq<u8> {
        self.bytes@
    }
}

impl PublicKey {
    pub fn from_bytes(bytes: Vec<u8>) -> (r: Self)
        ensures
            r@ == bytes@,
    {
        PublicKey { bytes }
    }

    pub fn as_bytes(&self) -> (r: &[u8])
        ensures
            r@ == self@,
    {
        self.bytes.as_slice()
    }
}

/// Whether two byte strings are equal.
fn bytes_equal(a: &[u8], b: &[u8]) -> (r: bool)
    ensures
        r == (a@ == b@),
{
    if a.len() != b.len() {
        return false;
    }
    let mut i: usize = 0;
    while i < a.len()
        invariant
            a@.len() == b@.len(),
            i <= a@.len(),
            forall|j: int| 0 <= j < i ==> a@[j] == b@[j],
        decreases a@.len() - i,
    {
        if a[i] != b[i] {
            return false;
        }
        i = i + 1;
    }
    assert(a@ =~= b@);
    true
}

impl PartialEq for PublicKey {
    fn eq(&self, other: &PublicKey) -> (r: bool) {
        bytes_equal(self.bytes.as_slice(), other.bytes.as_slice())
    }
}

impl vstd::std_specs::cmp::PartialEqSpecImpl for PublicKey {
    open spec fn obeys_eq_spec() -> bool {
        true
    }

    open spec fn eq_spec(&self, other: &PublicKey) -> bool {
        self@ == other@
    }
}

impl Eq for PublicKey {}

/// The mint's signature on a blinded commitment: a point and a response
/// scalar, 33 and 32 bytes on the wire.
#[derive(Clone, Debug)]
pub struct BlindSignature {
    pub a: Vec<u8>,
    pub z: Vec<u8>,
}

/// Length of the first component of a signature on the wire.
pub const SIG_POINT_LEN: usize = 33;

/// Length of the second component of a signature on the wire.
pub const SIG_SCALAR_LEN: usize = 32;

/// Length of a signature on the wire.
pub const SIG_WIRE_LEN: usize = 65;

impl BlindSignature {
    pub fn new(a: Vec<u8>, z: Vec<u8>) -> (r: Self)
        ensures
            r.a@ == a@,
            r.z@ == z@,
    {
        BlindSignature { a, z }
    }

    /// The wire form: the point's bytes followed by the scalar's.
    pub fn to_bytes(&self) -> (r: Vec<u8>)
        ensures
            r@ == self.a@ + self.z@,
    {
        let mut bytes: Vec<u8> = Vec::new();
        append_bytes(&mut bytes, self.a.as_slice());
        append_bytes(&mut bytes, self.z.as_slice());
        bytes
    }

    /// Reads the wire form: exactly 65 bytes, split after the 33rd.
    pub fn from_bytes(bytes: &[u8]) -> (r: Result<Self, String>)
        ensures
            bytes@.len() != 65 <==> r is Err,
            r matches Err(msg) ==> msg@ == "Invalid signature length: "@ + decimal_of(
                bytes@.len(),
            ),
            r matches Ok(sig) ==> sig.a@ == bytes@.subrange(0, 33) && sig.z@ == bytes@.subrange(
                33,
                65,
            ),
    {
        if bytes.len() != SIG_WIRE_LEN {
            let msg = "Invalid signature length: ".to_owned();
            return Err(msg.concat(decimal(bytes.len() as u64).as_str()));
        }
        let mut a: Vec<u8> = Vec::new();
        let mut z: Vec<u8> = Vec::new();
        let mut i: usize = 0;
        while i < SIG_WIRE_LEN
            invariant
                bytes@.len() == 65,
                i <= 65,
                i <= 33 ==> a@ == bytes@.subrange(0, i as int) && z@.len() == 0,
                i > 33 ==> a@ == bytes@.subrange(0, 33) && z@ == bytes@.subrange(33, i as int),
            decreases 65 - i,
        {
            if i < SIG_POINT_LEN {
                a.push(bytes[i]);
            } else {
                z.push(bytes[i]);
            }
            i = i + 1;
            assert(a@ =~= bytes@.subrange(0, if i <= 33 { i as int } else { 33 }));
            assert(i > 33 ==> z@ =~= bytes@.subrange(33, i as int));
        }
        Ok(BlindSignature { a, z })
    }
}

/// A bearer note: its value, its secret serial and the mint's signature.
#[derive(Clone, Debug)]
pub struct PrivateNote {
    pub denomination: u64,
    pub serial: Bytes32,
    pub blind_signature: BlindSignature,
}

/// The big-endian bytes of `x`.
fn u64_be_bytes(x: u64) -> (r: Vec<u8>)
    ensures
        r@ == be_bytes(x),
{
    let mut r: Vec<u8> = Vec::new();
    r.push((x / 0x100000000000000 % 256) as u8);
    r.push((x / 0x1000000000000 % 256) as u8);
    r.push((x / 0x10000000000 % 256) as u8);
    r.push((x / 0x100000000 % 256) as u8);
    r.push((x / 0x1000000 % 256) as u8);
    r.push((x / 0x10000 % 256) as u8);
    r.push((x / 0x100 % 256) as u8);
    r.push((x % 256) as u8);
    assert(r@ =~= be_bytes(x));
    r
}

/// Whether a signature passes the structural check: both components are
/// present. This is the stand-in verifier; it checks no cryptography.
pub open spec fn signature_well_formed(sig: BlindSignature) -> bool {
    sig.a@.len() > 0 && sig.z@.len() > 0
}

impl PrivateNote {
    pub fn new(denomination: u64, serial: Bytes32, blind_signature: BlindSignature) -> (r: Self)
        ensures
            r.denomination == denomination,
            r.serial == serial,
            r.blind_signature == blind_signature,
    {
        PrivateNote { denomination, serial, blind_signature }
    }

    /// The digest binding the note's value to its serial.
    pub fn commitment(&self) -> (r: Bytes32)
        ensures
            r@ == commitment_of(self.denomination, self.serial@),
    {
        let mut message = u64_be_bytes(self.denomination);
        append_bytes(&mut message, self.serial.as_slice());
        blake2b256(message.as_slice())
    }

    /// The note's nullifier under the given mint key.
    pub fn nullifier(&self, mint_pubkey: &PublicKey) -> (r: Nullifier)
        ensures
            r@ == nullifier_of(self.serial@, mint_pubkey@),
    {
        Nullifier::compute(&self.serial, mint_pubkey)
    }

    /// The stand-in signature check: accepts exactly the notes whose
    /// signature has both components non-empty, whatever the key.
    pub fn verify_signature(&self, mint_pubkey: &PublicKey) -> (r: bool)
        ensures
            r == signature_well_formed(self.blind_signature),
    {
        self.blind_signature.a.len() > 0 && self.blind_signature.z.len() > 0
    }
}

/// The one-time tag of a note, revealed at redemption.
#[derive(Clone, Copy, Debug, Hash)]
pub struct Nullifier(pub Bytes32);

impl View for Nullifier {
    type V = Seq<u8>;

    open spec fn view(&self) -> Seq<u8> {
        self.0@
    }
}

impl PartialEq for Nullifier {
    fn eq(&self, other: &Nullifier) -> (r: bool) {
        bytes_equal(self.0.as_slice(), other.0.as_slice())
    }
}

impl vstd::std_specs::cmp::PartialEqSpecImpl for Nullifier {
    open spec fn obeys_eq_spec() -> bool {
        true
    }

    open spec fn eq_spec(&self, other: &Nullifier) -> bool {
        self@ == other@
    }
}

impl Eq for Nullifier {}

impl Nullifier {
    /// The nullifier of a serial under a mint key.
    pub fn compute(serial: &Bytes32, mint_pubkey: &PublicKey) -> (r: Self)
        ensures
            r@ == nullifier_of(serial@, mint_pubkey@),
    {
        let tag: [u8; 9] = [110u8, 117u8, 108u8, 108u8, 105u8, 102u8, 105u8, 101u8, 114u8];
        assert(tag@ =~= nullifier_tag());
        let prefix = blake2b256(tag.as_slice());
        let mut message: Vec<u8> = Vec::new();
        append_bytes(&mut message, prefix.as_slice());
        append_bytes(&mut message, serial.as_slice());
        append_bytes(&mut message, mint_pubkey.as_bytes());
        assert(message@ =~= blake2b256_of(nullifier_tag()) + serial@ + mint_pubkey@);
        Nullifier(blake2b256(message.as_slice()))
    }

    pub fn as_bytes(&self) -> (r: &Bytes32)
        ensures
            r@ == self@,
    {
        &self.0
    }

    pub fn from_bytes(bytes: Bytes32) -> (r: Self)
        ensures
            r@ == bytes@,
    {
        Nullifier(bytes)
    }
}

/// Equal serials and equal mint keys give equal nullifiers: computing a
/// nullifier depends on nothing else.
pub proof fn lemma_nullifier_deterministic(
    serial1: Seq<u8>,
    key1: Seq<u8>,
    serial2: Seq<u8>,
    key2: Seq<u8>,
)
    requires
        serial1 == serial2,
        key1 == key2,
    ensures
        nullifier_of(serial1, key1) == nullifier_of(serial2, key2),
{
}

/// The on-chain reserve that backs the issued notes.
#[derive(Clone, Debug)]
pub struct ReserveState {
    pub reserve_nft: Bytes32,
    pub mint_pubkey: PublicKey,
    pub erg_balance: u64,
    pub nullifier_tree_root: Bytes32,
    pub tracker_nft: Bytes32,
}

impl ReserveState {
    pub fn new(
        reserve_nft: Bytes32,
        mint_pubkey: PublicKey,
        erg_balance: u64,
        nullifier_tree_root: Bytes32,
        tracker_nft: Bytes32,
    ) -> (r: Self)
        ensures
            r.reserve_nft == reserve_nft,
            r.mint_pubkey == mint_pubkey,
            r.erg_balance == erg_balance,
            r.nullifier_tree_root == nullifier_tree_root,
            r.tracker_nft == tracker_nft,
    {
        ReserveState { reserve_nft, mint_pubkey, erg_balance, nullifier_tree_root, tracker_nft }
    }

    /// Whether the balance covers the given outstanding value.
    pub fn is_solvent(&self, outstanding_value: u64) -> (r: bool)
        ensures
            r == (self.erg_balance >= outstanding_value),
    {
        self.erg_balance >= outstanding_value
    }
}

/// The tracker's books: the spent nullifiers and the issuance and
/// redemption counts.
#[derive(Clone, Debug)]
pub struct TrackerState {
    pub tracker_nft: Bytes32,
    pub spent_nullifiers: Vec<Nullifier>,
    pub issued_notes_count: u64,
    pub redeemed_notes_count: u64,
}

impl TrackerState {
    /// The set of spent nullifiers, as byte strings.
    pub open spec fn spent(&self) -> Set<Seq<u8>> {
        Set::new(
            |b: Seq<u8>|
                exists|i: int|
                    0 <= i < self.spent_nullifiers@.len() && #[trigger] self.spent_nullifiers@[i]@
                        == b,
        )
    }

    pub fn new(tracker_nft: Bytes32) -> (r: Self)
        ensures
            r.tracker_nft == tracker_nft,
            r.spent() == Set::<Seq<u8>>::empty(),
            r.issued_notes_count == 0,
            r.redeemed_notes_count == 0,
    {
        let r = TrackerState {
            tracker_nft,
            spent_nullifiers: Vec::new(),
            issued_notes_count: 0,
            redeemed_notes_count: 0,
        };
        assert(r.spent() =~= Set::<Seq<u8>>::empty());
        r
    }

    /// Whether the nullifier is in the spent set.
    pub fn is_spent(&self, nullifier: &Nullifier) -> (r: bool)
        ensures
            r == self.spent().contains(nullifier@),
    {
        let mut i: usize = 0;
        while i < self.spent_nullifiers.len()
            invariant
                i <= self.spent_nullifiers@.len(),
                forall|j: int| 0 <= j < i ==> #[trigger] self.spent_nullifiers@[j]@ != nullifier@,
            decreases self.spent_nullifiers@.len() - i,
        {
            if self.spent_nullifiers[i] == *nullifier {
                assert(self.spent_nullifiers@[i as int]@ == nullifier@);
                return true;
            }
            i = i + 1;
        }
        false
    }

    /// Adds a nullifier to the spent set and counts the redemption; refuses
    /// one that is already spent, and then changes nothing.
    pub fn mark_spent(&mut self, nullifier: Nullifier) -> (r: Result<(), String>)
        requires
            !old(self).spent().contains(nullifier@) ==> old(self).redeemed_notes_count < u64::MAX,
        ensures
            r is Err <==> old(self).spent().contains(nullifier@),
            r is Err ==> *final(self) == *old(self),
            r is Ok ==> final(self).spent() == old(self).spent().insert(nullifier@)
                && final(self).redeemed_notes_count == old(self).redeemed_notes_count + 1
                && final(self).issued_notes_count == old(self).issued_notes_count
                && final(self).tracker_nft == old(self).tracker_nft,
    {
        if self.is_spent(&nullifier) {
            return Err("Nullifier already spent (double-spend attempt)".to_owned());
        }
        let ghost before = self.spent();
        self.spent_nullifiers.push(nullifier);
        self.redeemed_notes_count = self.redeemed_notes_count + 1;
        assert(self.spent_nullifiers@[self.spent_nullifiers@.len() - 1]@ == nullifier@);
        assert forall|b: Seq<u8>| self.spent().contains(b) == before.insert(nullifier@).contains(
            b,
        ) by {
            if before.contains(b) {
                let i = choose|i: int|
                    0 <= i < old(self).spent_nullifiers@.len()
                        && #[trigger] old(self).spent_nullifiers@[i]@ == b;
                assert(self.spent_nullifiers@[i]@ == b);
            }
            if self.spent().contains(b) && b != nullifier@ {
                let i = choose|i: int|
                    0 <= i < self.spent_nullifiers@.len() && #[trigger] self.spent_nullifiers@[i]@
                        == b;
                assert(old(self).spent_nullifiers@[i]@ == b);
            }
        }
        assert(self.spent() =~= before.insert(nullifier@));
        Ok(())
    }

    /// Counts one more issued note.
    pub fn record_issuance(&mut self)
        requires
            old(self).issued_notes_count < u64::MAX,
        ensures
            final(self).issued_notes_count == old(self).issued_notes_count + 1,
            final(self).redeemed_notes_count == old(self).redeemed_notes_count,
            final(self).spent_nullifiers == old(self).spent_nullifiers,
            final(self).tracker_nft == old(self).tracker_nft,
    {
        self.issued_notes_count = self.issued_notes_count + 1;
    }

    /// The value of the notes not yet redeemed, every note taken to be worth
    /// `denomination`.
    pub fn outstanding_notes(&self, denomination: u64) -> (r: u64)
        requires
            self.redeemed_notes_count <= self.issued_notes_count,
            (self.issued_notes_count - self.redeemed_notes_count) * denomination <= u64::MAX,
        ensures
            r == (self.issued_notes_count - self.redeemed_notes_count) * denomination,
    {
        let outstanding_count = self.issued_notes_count - self.redeemed_notes_count;
        outstanding_count * denomination
    }
}

} // verus!
