//! Footer parsing: TLV records and credentials extraction.

use tock_core::tbf::FOOTER_TLV_CREDENTIALS;
use tock_core::tbf::TbfParseError;
use tock_core::tbf::parse_tbf_footer;

fn credentials_record(format: u32, data: &[u8]) -> Vec<u8> {
    let len: u16 = 4 + data.len() as u16;
    let mut v = Vec::new();
    v.push((FOOTER_TLV_CREDENTIALS & 0xFF) as u8);
    v.push((FOOTER_TLV_CREDENTIALS >> 8) as u8);
    v.push((len & 0xFF) as u8);
    v.push((len >> 8) as u8);
    v.extend_from_slice(&format.to_le_bytes());
    v.extend_from_slice(data);
    v
}

#[test]
fn parses_credentials_record() {
    let rec = credentials_record(7, &[0xAA, 0xBB, 0xCC]);
    let (creds, len) = parse_tbf_footer(&rec).unwrap();
    assert_eq!(creds.format, 7);
    assert_eq!(creds.data, vec![0xAA, 0xBB, 0xCC]);
    assert_eq!(len, 7);
}

#[test]
fn parses_empty_payload_credentials() {
    let rec = credentials_record(0x1234_5678, &[]);
    let (creds, len) = parse_tbf_footer(&rec).unwrap();
    assert_eq!(creds.format, 0x1234_5678);
    assert!(creds.data.is_empty());
    assert_eq!(len, 4);
}

#[test]
fn short_region_is_not_enough_flash() {
    assert!(matches!(
        parse_tbf_footer(&[0x80, 0x00, 0x04]),
        Err(TbfParseError::NotEnoughFlash)
    ));
    assert!(matches!(parse_tbf_footer(&[]), Err(TbfParseError::NotEnoughFlash)));
}

#[test]
fn missing_format_word_is_not_enough_flash() {
    // Header announces a credentials record but the format word is cut off.
    let rec = vec![0x80, 0x00, 0x08, 0x00, 0x01, 0x02];
    assert!(matches!(parse_tbf_footer(&rec), Err(TbfParseError::NotEnoughFlash)));
}

#[test]
fn wrong_tlv_type_is_bad_entry() {
    let rec = vec![0x10, 0x00, 0x04, 0x00, 1, 2, 3, 4];
    assert!(matches!(parse_tbf_footer(&rec), Err(TbfParseError::BadTlvEntry(0x10))));
}

#[test]
fn undersized_length_is_bad_entry() {
    // The length field cannot even hold the format word.
    let rec = vec![0x80, 0x00, 0x02, 0x00, 1, 2];
    assert!(matches!(
        parse_tbf_footer(&rec),
        Err(TbfParseError::BadTlvEntry(t)) if t == FOOTER_TLV_CREDENTIALS as usize
    ));
}

#[test]
fn overlong_record_parses_with_truncated_data() {
    // The announced length overruns the region: the record still parses
    // (the caller detects the overrun when advancing), with the available
    // payload bytes.
    let mut rec = credentials_record(9, &[1, 2, 3, 4]);
    rec[2] = 0x20;
    let (creds, len) = parse_tbf_footer(&rec).unwrap();
    assert_eq!(len, 0x20);
    assert_eq!(creds.format, 9);
    assert_eq!(creds.data, vec![1, 2, 3, 4]);
}
