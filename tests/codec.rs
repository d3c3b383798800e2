use guarakapa::codec::{self, frame, get_version, has_signature, parse_envelope, Envelope};
use guarakapa::fman::{self, Entry, File, Head, Metadata};

fn get_file() -> File {
    let head = Head {
        pw_hash: [1; 32],
        salt: [2; 16],
    };

    let entry = Entry {
        iv: [3; 16],
        content: vec![1, 2, 3, 4, 5],
    };

    let entry2 = Entry {
        iv: [4; 16],
        content: vec![9, 8, 7, 6, 5, 4, 3],
    };

    File {
        head,
        metadata: Metadata {
            iv: [0; 16],
            content: Vec::new(),
        },
        entries: vec![entry, entry2],
    }
}

#[test]
fn can_encode() {
    let file = get_file();
    fman::encode(&file).unwrap();
}

#[test]
fn can_decode() {
    let file = get_file();
    let encoded = fman::encode(&file).unwrap();
    let decoded = fman::decode(encoded.as_slice()).unwrap();

    assert_eq!(file, decoded);
}

#[test]
fn envelope_round_trip_keeps_the_container() {
    let file = get_file();
    let encoded = codec::encode(&file).unwrap();
    assert_eq!(&encoded[..7], &[0, 9, 0, 253, 7, 13, 147]);
    assert_eq!(&encoded[7..], fman::encode(&file).unwrap().as_slice());
    assert_eq!(codec::decode(encoded.as_slice()).unwrap(), file);
}

#[test]
fn legacy_payload_without_header_is_decoded() {
    let file = get_file();
    let legacy = fman::encode(&file).unwrap();
    assert!(!has_signature(&legacy, &[253, 7, 13, 147]));
    assert_eq!(codec::decode(legacy.as_slice()).unwrap(), file);
}

#[test]
fn bincode_layout_of_a_container() {
    let file = get_file();
    let bytes = fman::encode(&file).unwrap();
    // 32 + 16 header bytes, 16 + 8 + 0 for the index, 8 for the entry count,
    // then 16 + 8 + 5 and 16 + 8 + 7 for the two entries.
    assert_eq!(bytes.len(), 32 + 16 + 16 + 8 + 8 + 29 + 31);
    assert_eq!(&bytes[..32], &[1u8; 32]);
    assert_eq!(&bytes[32..48], &[2u8; 16]);
    assert_eq!(&bytes[72..80], &[2, 0, 0, 0, 0, 0, 0, 0]);
}

#[test]
fn garbage_is_a_serialization_error() {
    assert_eq!(
        codec::decode(&[1, 2, 3]),
        Err(guarakapa::error::StoreError::SerializationError)
    );
}

#[test]
fn version_of_signed_payload() {
    assert_eq!(get_version(&[0, 9, 0, 253, 7, 13, 147, 42]), "0.9.0");
    assert_eq!(get_version(&[1, 20, 255, 253, 7, 13, 147, 0, 0]), "1.20.255");
    let encoded = codec::encode(&get_file()).unwrap();
    assert_eq!(get_version(&encoded), "0.9.0");
}

#[test]
fn version_of_legacy_payload() {
    assert_eq!(get_version(&[]), "<= 0.8.5");
    assert_eq!(get_version(&[0, 9, 0, 253, 7, 13, 147]), "<= 0.8.5");
    assert_eq!(get_version(&[0, 9, 0, 253, 7, 13, 148, 1]), "<= 0.8.5");
    assert_eq!(get_version(&fman::encode(&get_file()).unwrap()), "<= 0.8.5");
}

#[test]
fn signature_needs_a_byte_after_the_header() {
    let sig = [253u8, 7, 13, 147];
    assert!(!has_signature(&[0, 0, 0, 253, 7, 13, 147], &sig));
    assert!(has_signature(&[0, 0, 0, 253, 7, 13, 147, 0], &sig));
    assert!(!has_signature(&[0, 0], &sig));
    assert!(!has_signature(&[0, 0, 0, 253, 7, 14, 147, 0], &sig));
}

#[test]
fn envelope_is_split_once() {
    match parse_envelope(&frame(&[5, 6])) {
        Envelope::Signed { version, payload } => {
            assert_eq!(version, vec![0, 9, 0]);
            assert_eq!(payload, vec![5, 6]);
        }
        Envelope::Legacy { .. } => panic!("header not recognised"),
    }
    match parse_envelope(&[5, 6, 7]) {
        Envelope::Legacy { payload } => assert_eq!(payload, vec![5, 6, 7]),
        Envelope::Signed { .. } => panic!("header found where there is none"),
    }
    // An empty payload leaves nothing after the header: read as legacy.
    match parse_envelope(&frame(&[])) {
        Envelope::Legacy { payload } => assert_eq!(payload.len(), 7),
        Envelope::Signed { .. } => panic!("header found on a bare header"),
    }
}
