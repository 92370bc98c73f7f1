use pool_miner::aggregate::GlobalBest;
use pool_miner::payload::{PayloadError, WorkPayload, PAYLOAD_LEN};
use pool_miner::worker::{Candidate, HashOutput};

fn sample_payload() -> WorkPayload {
    let mut digest = [0u8; 16];
    let mut miner_id = [0u8; 32];
    let mut challenge = [0u8; 32];
    for i in 0..16 {
        digest[i] = 0xa0 + i as u8;
    }
    for i in 0..32 {
        miner_id[i] = 0x40 + i as u8;
        challenge[i] = 0xc0 + i as u8;
    }
    WorkPayload {
        digest,
        nonce: 0x1122334455667788u64.to_le_bytes(),
        miner_id,
        challenge,
        difficulty: 18,
        hash_count: 0x0102030405060708,
    }
}

#[test]
fn the_wire_form_holds_the_fields_in_order() {
    let payload = sample_payload();
    let bytes = payload.to_bytes();
    assert_eq!(bytes.len(), 100);
    assert_eq!(bytes.len(), PAYLOAD_LEN);
    assert_eq!(&bytes[0..16], &payload.digest[..]);
    assert_eq!(&bytes[16..24], &[0x88, 0x77, 0x66, 0x55, 0x44, 0x33, 0x22, 0x11][..]);
    assert_eq!(&bytes[24..56], &payload.miner_id[..]);
    assert_eq!(&bytes[56..88], &payload.challenge[..]);
    assert_eq!(&bytes[88..92], &[18, 0, 0, 0][..]);
    assert_eq!(&bytes[92..100], &[8, 7, 6, 5, 4, 3, 2, 1][..]);
}

#[test]
fn the_wire_form_is_the_concatenation_of_the_parts() {
    let payload = sample_payload();
    let expected: Vec<u8> = [
        payload.digest.as_slice(),
        payload.nonce.as_slice(),
        payload.miner_id.as_slice(),
        payload.challenge.as_slice(),
        payload.difficulty.to_le_bytes().as_slice(),
        payload.hash_count.to_le_bytes().as_slice(),
    ]
    .concat();
    assert_eq!(payload.to_bytes(), expected);
}

#[test]
fn reading_the_wire_form_gives_the_payload_back() {
    let payload = sample_payload();
    assert_eq!(WorkPayload::from_bytes(&payload.to_bytes()), Some(payload));
    let extreme = WorkPayload {
        digest: [255; 16],
        nonce: [255; 8],
        miner_id: [255; 32],
        challenge: [255; 32],
        difficulty: u32::MAX,
        hash_count: u64::MAX,
    };
    assert_eq!(extreme.to_bytes(), vec![255u8; 100]);
    assert_eq!(WorkPayload::from_bytes(&[255u8; 100]), Some(extreme));
}

#[test]
fn only_a_hundred_bytes_are_a_payload() {
    assert_eq!(WorkPayload::from_bytes(&[]), None);
    assert_eq!(WorkPayload::from_bytes(&[0u8; 99]), None);
    assert_eq!(WorkPayload::from_bytes(&[0u8; 101]), None);
    assert!(WorkPayload::from_bytes(&[0u8; 100]).is_some());
}

#[test]
fn the_text_is_the_base_58_form_of_the_wire_form() {
    let payload = sample_payload();
    let text = payload.encode();
    assert_eq!(text, bs58::encode(payload.to_bytes()).into_string());
    assert_eq!(bs58::decode(&text).into_vec().unwrap(), payload.to_bytes());
    assert!(text
        .chars()
        .all(|c| "123456789ABCDEFGHJKLMNPQRSTUVWXYZabcdefghijkmnopqrstuvwxyz".contains(c)));
}

#[test]
fn a_payload_of_zeros_is_a_hundred_ones() {
    let zero = WorkPayload {
        digest: [0; 16],
        nonce: [0; 8],
        miner_id: [0; 32],
        challenge: [0; 32],
        difficulty: 0,
        hash_count: 0,
    };
    assert_eq!(zero.encode(), "1".repeat(100));
    assert_eq!(WorkPayload::decode(&"1".repeat(100)), Ok(zero));
}

#[test]
fn decoding_the_text_gives_the_payload_back() {
    let payload = sample_payload();
    let decoded = WorkPayload::decode(&payload.encode()).unwrap();
    assert_eq!(decoded, payload);
    assert_eq!(decoded.digest, payload.digest);
    assert_eq!(decoded.nonce, payload.nonce);
    assert_eq!(decoded.miner_id, payload.miner_id);
    assert_eq!(decoded.challenge, payload.challenge);
    assert_eq!(decoded.difficulty, 18);
    assert_eq!(decoded.hash_count, 0x0102030405060708);
    assert_eq!(decoded.nonce_value(), 0x1122334455667788);
}

#[test]
fn a_text_outside_the_alphabet_is_not_base_58() {
    assert_eq!(WorkPayload::decode("0"), Err(PayloadError::NotBase58));
    assert_eq!(WorkPayload::decode("hello world"), Err(PayloadError::NotBase58));
    assert_eq!(WorkPayload::decode("he11o\u{e9}"), Err(PayloadError::NotBase58));
    let mut text = sample_payload().encode();
    text.push('l');
    assert_eq!(WorkPayload::decode(&text), Err(PayloadError::NotBase58));
}

#[test]
fn a_text_for_another_length_is_no_payload() {
    assert_eq!(WorkPayload::decode(""), Err(PayloadError::WrongLength));
    assert_eq!(WorkPayload::decode("he11owor1d"), Err(PayloadError::WrongLength));
    assert_eq!(WorkPayload::decode(&"1".repeat(99)), Err(PayloadError::WrongLength));
    assert_eq!(WorkPayload::decode(&"1".repeat(101)), Err(PayloadError::WrongLength));
    let short = bs58::encode(vec![9u8; 99]).into_string();
    assert_eq!(WorkPayload::decode(&short), Err(PayloadError::WrongLength));
}

#[test]
fn the_payload_of_a_round_takes_its_fields_from_the_best() {
    let best = GlobalBest {
        best: Candidate {
            nonce: 0x0102030405060708,
            difficulty: 21,
            hash: HashOutput { d: [3; 16], h: [4; 32] },
        },
        total_hashes: 123456,
    };
    let payload = WorkPayload::new(&best, [5; 32], [6; 32]);
    assert_eq!(
        payload,
        WorkPayload {
            digest: [3; 16],
            nonce: [8, 7, 6, 5, 4, 3, 2, 1],
            miner_id: [5; 32],
            challenge: [6; 32],
            difficulty: 21,
            hash_count: 123456,
        }
    );
    assert_eq!(payload.nonce_value(), 0x0102030405060708);
}
