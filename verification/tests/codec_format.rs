use nfa::codec::{decode_note, encode_note};
use nfa::Note;

fn sample() -> Note {
    Note {
        id: "ab".to_string(),
        title: "cd".to_string(),
        content: "e".to_string(),
        created_at: 1,
        updated_at: 2,
    }
}

#[test]
fn test_encoding_has_exact_layout() {
    let bytes = encode_note(&sample());

    let mut expected: Vec<u8> = Vec::new();
    expected.extend_from_slice(&[2, 0, 0, 0, 0, 0, 0, 0]);
    expected.extend_from_slice(b"ab");
    expected.extend_from_slice(&[2, 0, 0, 0, 0, 0, 0, 0]);
    expected.extend_from_slice(b"cd");
    expected.extend_from_slice(&[1, 0, 0, 0, 0, 0, 0, 0]);
    expected.extend_from_slice(b"e");
    expected.extend_from_slice(&[1, 0, 0, 0, 0, 0, 0, 0]);
    expected.extend_from_slice(&[2, 0, 0, 0, 0, 0, 0, 0]);

    assert_eq!(bytes, expected);
}

#[test]
fn test_decoding_inverts_encoding() {
    let note = sample();
    let bytes = encode_note(&note);
    let decoded = decode_note(bytes.as_slice()).expect("a fresh encoding must decode");

    assert_eq!(decoded, note);
}

#[test]
fn test_truncated_input_is_rejected() {
    let bytes = encode_note(&sample());

    for cut in 0..bytes.len() {
        assert!(decode_note(&bytes[..cut]).is_none());
    }
}

#[test]
fn test_trailing_bytes_are_rejected() {
    let mut bytes = encode_note(&sample());
    bytes.push(0);

    assert!(decode_note(bytes.as_slice()).is_none());
}

#[test]
fn test_malformed_utf8_is_rejected() {
    let mut bytes: Vec<u8> = Vec::new();
    bytes.extend_from_slice(&[1, 0, 0, 0, 0, 0, 0, 0]);
    bytes.push(0xff);
    bytes.extend_from_slice(&[0, 0, 0, 0, 0, 0, 0, 0]);
    bytes.extend_from_slice(&[0, 0, 0, 0, 0, 0, 0, 0]);
    bytes.extend_from_slice(&[1, 0, 0, 0, 0, 0, 0, 0]);
    bytes.extend_from_slice(&[2, 0, 0, 0, 0, 0, 0, 0]);

    assert!(decode_note(bytes.as_slice()).is_none());
}
