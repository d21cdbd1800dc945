use purrtunes::codec::{base64_decode, base64_encode};

#[test]
fn encode_three_bytes() {
    assert_eq!(base64_encode(&[0x4D, 0x61, 0x6E]), "TWFu");
}

#[test]
fn decode_three_bytes() {
    assert_eq!(base64_decode("TWFu"), vec![0x4D, 0x61, 0x6E]);
}

#[test]
fn encode_two_bytes() {
    assert_eq!(base64_encode(&[0x4D, 0x61]), "TWE=");
}

#[test]
fn decode_two_bytes() {
    assert_eq!(base64_decode("TWE="), vec![0x4D, 0x61]);
}

#[test]
fn encode_one_byte() {
    assert_eq!(base64_encode(&[0x4D]), "TQ==");
}

#[test]
fn decode_one_byte() {
    assert_eq!(base64_decode("TQ=="), vec![0x4D]);
}

#[test]
fn encode_empty() {
    assert_eq!(base64_encode(&[]), "");
}

#[test]
fn decode_empty() {
    assert_eq!(base64_decode(""), Vec::<u8>::new());
}

#[test]
fn encode_text() {
    assert_eq!(base64_encode("Hello".as_bytes()), "SGVsbG8=");
    assert_eq!(base64_encode("<svg/>".as_bytes()), "PHN2Zy8+");
}

#[test]
fn round_trip_all_byte_values() {
    let all: Vec<u8> = (0..=255u8).collect();
    assert_eq!(base64_decode(&base64_encode(&all)), all);
}

#[test]
fn round_trip_various_lengths() {
    for n in 0..32usize {
        let buf: Vec<u8> = (0..n).map(|i| (i * 37 + 11) as u8).collect();
        assert_eq!(base64_decode(&base64_encode(&buf)), buf);
    }
}

#[test]
fn length_is_four_per_started_group() {
    for n in 0..32usize {
        let buf = vec![0xABu8; n];
        let enc = base64_encode(&buf);
        assert_eq!(enc.len(), (n + 2) / 3 * 4);
        assert_eq!(enc.len() % 4, 0);
    }
}

#[test]
fn padding_matches_input_length() {
    for n in 0..16usize {
        let buf = vec![0x5Au8; n];
        let enc = base64_encode(&buf);
        let pads = enc.bytes().rev().take_while(|&b| b == b'=').count();
        assert_eq!(pads, (3 - n % 3) % 3);
        assert_eq!(pads == 0, n % 3 == 0);
    }
}

#[test]
fn decode_skips_interior_invalid_character() {
    assert_eq!(base64_decode("TW!Fu"), base64_decode("TWFu"));
    assert_eq!(base64_decode("TW\nFu"), base64_decode("TWFu"));
    assert_eq!(base64_decode("T WFu"), base64_decode("TWFu"));
}

#[test]
fn decode_stops_at_first_padding() {
    assert_eq!(base64_decode("TWE=TWFu"), vec![0x4D, 0x61]);
    assert_eq!(base64_decode("="), Vec::<u8>::new());
}

#[test]
fn decode_of_garbage_is_empty() {
    assert_eq!(base64_decode("!!!"), Vec::<u8>::new());
}

#[test]
fn reencode_is_idempotent() {
    for x in ["TWE=", "TWFu", "TQ==", "", "SGVsbG8=", "QSB0cmFjay4="] {
        let once = base64_encode(&base64_decode(x));
        let twice = base64_encode(&base64_decode(&once));
        assert_eq!(twice, once);
    }
}
