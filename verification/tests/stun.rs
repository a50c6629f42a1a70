use jam::addr::SocketAddr;
use jam::stun::{
    binding_request, is_response, parse_binding_response, transaction_id, txid_seed,
};

fn response(txid: [u8; 12], attrs: &[u8]) -> Vec<u8> {
    let mut msg = vec![0x01, 0x01];
    msg.extend_from_slice(&(attrs.len() as u16).to_be_bytes());
    msg.extend_from_slice(&0x2112_A442u32.to_be_bytes());
    msg.extend_from_slice(&txid);
    msg.extend_from_slice(attrs);
    msg
}

const PUBLIC: SocketAddr = SocketAddr::V4 {
    ip: 0xC000_0201,
    port: 32853,
};

/// XOR-MAPPED-ADDRESS of 192.0.2.1:32853.
const XORED: [u8; 12] = [
    0x00, 0x20, 0x00, 0x08, 0x00, 0x01, 0xA1, 0x47, 0xE1, 0x12, 0xA6, 0x43,
];

/// MAPPED-ADDRESS of 192.0.2.1:32853.
const MAPPED: [u8; 12] = [
    0x00, 0x01, 0x00, 0x08, 0x00, 0x01, 0x80, 0x55, 0xC0, 0x00, 0x02, 0x01,
];

#[test]
fn request_has_no_attributes() {
    let txid = [1, 2, 3, 4, 5, 6, 7, 8, 9, 10, 11, 12];
    let req = binding_request(&txid);
    assert_eq!(&req[..8], &[0, 1, 0, 0, 0x21, 0x12, 0xA4, 0x42]);
    assert_eq!(&req[8..], &txid);
}

#[test]
fn both_address_attributes_are_read() {
    assert_eq!(
        parse_binding_response(&response([0; 12], &XORED)),
        Some(PUBLIC)
    );
    assert_eq!(
        parse_binding_response(&response([0; 12], &MAPPED)),
        Some(PUBLIC)
    );
}

#[test]
fn unknown_attributes_are_skipped_with_their_padding() {
    let mut attrs = vec![0x80, 0x22, 0x00, 0x05, b'h', b'e', b'l', b'l', b'o', 0, 0, 0];
    attrs.extend_from_slice(&XORED);
    assert_eq!(
        parse_binding_response(&response([0; 12], &attrs)),
        Some(PUBLIC)
    );
}

#[test]
fn broken_responses_hold_no_address() {
    let full = response([0; 12], &XORED);
    for n in 4..full.len() {
        assert_eq!(parse_binding_response(&full[..n]), None);
    }
    assert_eq!(parse_binding_response(&response([0; 12], &[])), None);
    // An attribute longer than the message.
    assert_eq!(
        parse_binding_response(&response([0; 12], &[0x00, 0x20, 0x00, 0x09, 0, 1, 2, 3])),
        None
    );
    // IPv6.
    let mut v6 = XORED;
    v6[5] = 2;
    assert_eq!(parse_binding_response(&response([0; 12], &v6)), None);
    // Padding that is not there.
    assert_eq!(
        parse_binding_response(&response([0; 12], &[0x80, 0x22, 0x00, 0x01, 7])),
        None
    );
}

#[test]
fn responses_are_told_apart() {
    let txid = [7u8; 12];
    let msg = response(txid, &XORED);
    assert!(is_response(&msg, &txid));
    assert!(!is_response(&msg, &[8; 12]));
    assert!(!is_response(&msg[..19], &txid));
    assert!(is_response(&msg[..20], &txid));
    let mut other = msg;
    other[1] = 0x11;
    assert!(!is_response(&other, &txid));
}

#[test]
fn transaction_ids_come_from_the_seed() {
    assert_eq!(txid_seed(9, 2), 9 ^ (2u64 << 32));
    let seeds = [0u64, 1, 77, txid_seed(9, 2), txid_seed(10, 2), txid_seed(9, 3), u64::MAX];
    for (i, &a) in seeds.iter().enumerate() {
        for &b in &seeds[i + 1..] {
            assert_ne!(transaction_id(a), transaction_id(b));
        }
    }
    // The upper halves of the generator's next three states.
    let mut state = 77u64;
    let mut expected = vec![];
    for _ in 0..3 {
        state = state
            .wrapping_mul(6364136223846793005)
            .wrapping_add(1442695040888963407);
        expected.extend_from_slice(&((state >> 32) as u32).to_be_bytes());
    }
    assert_eq!(transaction_id(77).to_vec(), expected);
}

#[test]
fn responses_to_another_seed_are_not_ours() {
    let ours = transaction_id(txid_seed(1_000, 7));
    let theirs = transaction_id(txid_seed(1_001, 7));
    let msg = response(theirs, &XORED);
    assert!(is_response(&msg, &theirs));
    assert!(!is_response(&msg, &ours));
}
