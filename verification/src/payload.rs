//! The work payload: what a round submits, as bytes and as base-58 text.

use crate::aggregate::GlobalBest;
use crate::bytes::{
    from_le, le_bytes, le_value, lemma_le_bytes_injective, lemma_le_bytes_len,
    lemma_le_bytes_of_value, lemma_le_value_bound, lemma_radix_values, to_le,
};
use vstd::prelude::*;

verus! {

/// Length of a payload on the wire: 16 + 8 + 32 + 32 + 4 + 8 bytes.
pub const PAYLOAD_LEN: usize = 100;

/// The result of a round with what identifies the miner and the round.
#[derive(Clone, Copy, Debug, PartialEq, Eq)]
pub struct WorkPayload {
    pub digest: [u8; 16],
    pub nonce: [u8; 8],
    pub miner_id: [u8; 32],
    pub challenge: [u8; 32],
    pub difficulty: u32,
    pub hash_count: u64,
}

/// Why a text is not a payload.
#[derive(Clone, Copy, Debug, PartialEq, Eq)]
pub enum PayloadError {
    /// The text is not the base-58 form of any byte string.
    NotBase58,
    /// The text stands for a byte string that is not as long as a payload.
    WrongLength,
}

/// The text that `bs58` writes for a byte string in its default alphabet.
pub uninterp spec fn base58_text(bytes: Seq<u8>) -> Seq<char>;

/// `bs58::decode::Error`: why a text could not be decoded.
#[verifier::external_type_specification]
#[verifier::external_body]
pub struct ExDecodeError(bs58::decode::Error);

/// Calls `bs58::encode(..).into_string()`, which writes the bytes as
/// base-58 text in the default alphabet.
#[verifier::external_body]
fn base58_encode(bytes: &Vec<u8>) -> (text: String)
    ensures
        text@ == base58_text(bytes@),
{
    bs58::encode(bytes).into_string()
}

/// Calls `bs58::decode(..).into_vec()`, the inverse of the encoder. What it
/// returns is the one byte string for which the encoder writes the text, and
/// it fails only on a text that the encoder writes for no byte string.
#[verifier::external_body]
fn base58_decode(text: &str) -> (decoded: Result<Vec<u8>, bs58::decode::Error>)
    ensures
        decoded matches Ok(found) ==> base58_text(found@) == text@,
        decoded matches Ok(found) ==> forall|bytes: Seq<u8>|
            (#[trigger] base58_text(bytes)) == text@ ==> bytes == found@,
        decoded is Err ==> forall|bytes: Seq<u8>| (#[trigger] base58_text(bytes)) != text@,
{
    bs58::decode(text).into_vec()
}

/// Appends the bytes of an array to a vector.
fn extend<const N: usize>(out: &mut Vec<u8>, bytes: &[u8; N])
    ensures
        final(out)@ == old(out)@ + bytes@,
{
    let mut at: usize = 0;
    while at < N
        invariant
            at <= N,
            bytes@.len() == N,
            out@ == old(out)@ + bytes@.subrange(0, at as int),
        decreases N - at,
    {
        out.push(bytes[at]);
        at += 1;
    }
}

/// Copies `N` bytes that start at `at` into an array.
fn take_array<const N: usize>(bytes: &[u8], at: usize) -> (taken: [u8; N])
    requires
        at + N <= bytes@.len(),
    ensures
        taken@ == bytes@.subrange(at as int, at + N),
{
    let len: usize = bytes.len();
    let mut taken = [0u8; N];
    let mut i: usize = 0;
    while i < N
        invariant
            i <= N,
            at + N <= len == bytes@.len(),
            taken@.len() == N,
            forall|j: int| 0 <= j < i ==> taken@[j] == bytes@[at + j],
        decreases N - i,
    {
        taken[i] = bytes[at + i];
        i += 1;
    }
    taken
}

impl WorkPayload {
    /// The payload on the wire: digest, nonce, miner, challenge, then the
    /// difficulty in four and the hash count in eight little-endian bytes.
    pub open spec fn wire(self) -> Seq<u8> {
        self.digest@ + self.nonce@ + self.miner_id@ + self.challenge@ + le_bytes(
            self.difficulty as nat,
            4,
        ) + le_bytes(self.hash_count as nat, 8)
    }

    /// The payload for the best result of a round.
    pub fn new(best: &GlobalBest, miner_id: [u8; 32], challenge: [u8; 32]) -> (payload: WorkPayload)
        ensures
            payload.digest == best.best.hash.d,
            payload.nonce@ == le_bytes(best.best.nonce as nat, 8),
            payload.miner_id == miner_id,
            payload.challenge == challenge,
            payload.difficulty == best.best.difficulty,
            payload.hash_count == best.total_hashes,
    {
        WorkPayload {
            digest: best.best.hash.d,
            nonce: to_le::<8>(best.best.nonce),
            miner_id,
            challenge,
            difficulty: best.best.difficulty,
            hash_count: best.total_hashes,
        }
    }

    /// The nonce as a number.
    pub fn nonce_value(&self) -> (nonce: u64)
        ensures
            nonce == le_value(self.nonce@),
    {
        from_le::<8>(&self.nonce)
    }

    /// Writes the payload as it goes over the wire.
    pub fn to_bytes(&self) -> (bytes: Vec<u8>)
        ensures
            bytes@ == self.wire(),
            bytes@.len() == PAYLOAD_LEN,
    {
        let mut bytes: Vec<u8> = Vec::new();
        extend::<16>(&mut bytes, &self.digest);
        extend::<8>(&mut bytes, &self.nonce);
        extend::<32>(&mut bytes, &self.miner_id);
        extend::<32>(&mut bytes, &self.challenge);
        extend::<4>(&mut bytes, &to_le::<4>(self.difficulty as u64));
        extend::<8>(&mut bytes, &to_le::<8>(self.hash_count));
        proof {
            lemma_le_bytes_len(self.difficulty as nat, 4);
            lemma_le_bytes_len(self.hash_count as nat, 8);
        }
        bytes
    }

    /// Reads a payload from its wire form. Exactly the byte strings of the
    /// length of a payload are read, each as the one payload that is written
    /// that way.
    pub fn from_bytes(bytes: &[u8]) -> (parsed: Option<WorkPayload>)
        ensures
            parsed is Some <==> bytes@.len() == PAYLOAD_LEN,
            parsed matches Some(payload) ==> payload.wire() == bytes@,
            forall|payload: WorkPayload|
                (#[trigger] payload.wire()) == bytes@ ==> parsed == Some(payload),
    {
        if bytes.len() != PAYLOAD_LEN {
            proof {
                assert forall|payload: WorkPayload|
                    (#[trigger] payload.wire()) == bytes@ implies false by {
                    lemma_wire_len(payload);
                }
            }
            return None;
        }
        let difficulty_bytes = take_array::<4>(bytes, 88);
        let hash_count_bytes = take_array::<8>(bytes, 92);
        proof {
            lemma_le_value_bound(difficulty_bytes@);
            lemma_radix_values();
            lemma_le_bytes_of_value(difficulty_bytes@);
            lemma_le_bytes_of_value(hash_count_bytes@);
        }
        let parsed = WorkPayload {
            digest: take_array::<16>(bytes, 0),
            nonce: take_array::<8>(bytes, 16),
            miner_id: take_array::<32>(bytes, 24),
            challenge: take_array::<32>(bytes, 56),
            difficulty: from_le::<4>(&difficulty_bytes) as u32,
            hash_count: from_le::<8>(&hash_count_bytes),
        };
        proof {
            assert(parsed.wire() =~= bytes@);
            assert forall|payload: WorkPayload|
                (#[trigger] payload.wire()) == bytes@ implies parsed == payload by {
                lemma_wire_injective(parsed, payload);
            }
        }
        Some(parsed)
    }

    /// The payload as the base-58 text that is submitted.
    pub fn encode(&self) -> (text: String)
        ensures
            text@ == base58_text(self.wire()),
    {
        let bytes = self.to_bytes();
        base58_encode(&bytes)
    }

    /// Reads a payload back from its base-58 text. The text of a payload
    /// gives that payload, and no other text gives any.
    pub fn decode(text: &str) -> (decoded: Result<WorkPayload, PayloadError>)
        ensures
            forall|payload: WorkPayload|
                (#[trigger] base58_text(payload.wire())) == text@ ==> decoded == Ok::<
                    WorkPayload,
                    PayloadError,
                >(payload),
            match decoded {
                Ok(payload) => base58_text(payload.wire()) == text@,
                Err(PayloadError::NotBase58) => forall|bytes: Seq<u8>|
                    (#[trigger] base58_text(bytes)) != text@,
                Err(PayloadError::WrongLength) => exists|bytes: Seq<u8>|
                    (#[trigger] base58_text(bytes)) == text@ && bytes.len() != PAYLOAD_LEN,
            },
    {
        match base58_decode(text) {
            Ok(bytes) => match WorkPayload::from_bytes(bytes.as_slice()) {
                Some(payload) => {
                    proof {
                        assert forall|other: WorkPayload|
                            (#[trigger] base58_text(other.wire())) == text@ implies other
                            == payload by {
                            assert(bytes@ == other.wire());
                        }
                    }
                    Ok(payload)
                },
                None => {
                    proof {
                        assert forall|other: WorkPayload|
                            (#[trigger] base58_text(other.wire())) == text@ implies false by {
                            assert(bytes@ == other.wire());
                            lemma_wire_len(other);
                        }
                    }
                    Err(PayloadError::WrongLength)
                },
            },
            Err(_) => Err(PayloadError::NotBase58),
        }
    }
}

/// Every payload is a hundred bytes on the wire.
pub proof fn lemma_wire_len(payload: WorkPayload)
    ensures
        payload.wire().len() == PAYLOAD_LEN,
{
    lemma_le_bytes_len(payload.difficulty as nat, 4);
    lemma_le_bytes_len(payload.hash_count as nat, 8);
}

/// The fields of a payload stand at fixed places of its wire form.
pub proof fn lemma_wire_fields(payload: WorkPayload)
    ensures
        payload.wire().subrange(0, 16) == payload.digest@,
        payload.wire().subrange(16, 24) == payload.nonce@,
        payload.wire().subrange(24, 56) == payload.miner_id@,
        payload.wire().subrange(56, 88) == payload.challenge@,
        payload.wire().subrange(88, 92) == le_bytes(payload.difficulty as nat, 4),
        payload.wire().subrange(92, 100) == le_bytes(payload.hash_count as nat, 8),
{
    lemma_le_bytes_len(payload.difficulty as nat, 4);
    lemma_le_bytes_len(payload.hash_count as nat, 8);
}

/// Two payloads with the same wire form are the same payload.
pub proof fn lemma_wire_injective(a: WorkPayload, b: WorkPayload)
    requires
        a.wire() == b.wire(),
    ensures
        a == b,
{
    lemma_wire_fields(a);
    lemma_wire_fields(b);
    lemma_radix_values();
    lemma_le_bytes_injective(a.difficulty as nat, b.difficulty as nat, 4);
    lemma_le_bytes_injective(a.hash_count as nat, b.hash_count as nat, 8);
    assert(a.digest =~= b.digest);
    assert(a.nonce =~= b.nonce);
    assert(a.miner_id =~= b.miner_id);
    assert(a.challenge =~= b.challenge);
}

} // verus!
