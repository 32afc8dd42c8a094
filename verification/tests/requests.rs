use drs_studio::archive::Archive;
use drs_studio::error::LookupError;
use drs_studio::kind::FileKind;
use drs_studio::request::{find_dot, parse_kind, parse_request, Request};
use drs_studio::text::parse_number;

fn archive_with_binary_123() -> Vec<u8> {
    let mut bytes = vec![0u8; 56];
    bytes.extend_from_slice(&1u32.to_le_bytes());
    bytes.extend_from_slice(&0u32.to_le_bytes());
    bytes.extend_from_slice(&[b'a', b'n', b'i', b'b']);
    bytes.extend_from_slice(&76u32.to_le_bytes());
    bytes.extend_from_slice(&1u32.to_le_bytes());
    bytes.extend_from_slice(&123u32.to_le_bytes());
    bytes.extend_from_slice(&88u32.to_le_bytes());
    bytes.extend_from_slice(&3u32.to_le_bytes());
    bytes.extend_from_slice(&[9, 8, 7]);
    bytes
}

#[test]
fn lookup_by_name_ignores_extension_case() {
    let archive = Archive::load(archive_with_binary_123()).unwrap();
    let upper = archive.extract("123.BIN").unwrap();
    let lower = archive.extract("123.bin").unwrap();
    assert_eq!(upper, lower);
    assert_eq!(lower, &[9, 8, 7]);
    assert_eq!(upper.as_ptr(), lower.as_ptr());
    assert_eq!(archive.extract("123.Bin").unwrap(), &[9, 8, 7]);
}

#[test]
fn lookup_by_name_reports_each_failure() {
    let archive = Archive::load(archive_with_binary_123()).unwrap();
    assert_eq!(archive.extract("999999.bin").unwrap_err(), LookupError::NotFound);
    assert_eq!(archive.extract("123.slp").unwrap_err(), LookupError::NotFound);
    assert_eq!(archive.extract("123.txt").unwrap_err(), LookupError::UnknownExtension);
    assert_eq!(archive.extract("abc.bin").unwrap_err(), LookupError::InvalidName);
    assert_eq!(archive.extract("123").unwrap_err(), LookupError::InvalidName);
}

#[test]
fn names_are_parsed() {
    assert_eq!(parse_request("50500.bin"), Ok(Request { id: 50500, kind: FileKind::Binary }));
    assert_eq!(parse_request("00412.slp"), Ok(Request { id: 412, kind: FileKind::Sprite }));
    assert_eq!(parse_request("1.WAV"), Ok(Request { id: 1, kind: FileKind::Audio }));
    assert_eq!(parse_request("0.sHp"), Ok(Request { id: 0, kind: FileKind::Shape }));
    assert_eq!(parse_request("+5.bin"), Ok(Request { id: 5, kind: FileKind::Binary }));
    assert_eq!(parse_request("7.bin.bak"), Ok(Request { id: 7, kind: FileKind::Binary }));
    assert_eq!(
        parse_request("4294967295.shp"),
        Ok(Request { id: u32::MAX, kind: FileKind::Shape })
    );
}

#[test]
fn bad_names_are_rejected() {
    assert_eq!(parse_request(""), Err(LookupError::InvalidName));
    assert_eq!(parse_request("123"), Err(LookupError::InvalidName));
    assert_eq!(parse_request("bin"), Err(LookupError::InvalidName));
    assert_eq!(parse_request(".bin"), Err(LookupError::InvalidName));
    assert_eq!(parse_request("+.bin"), Err(LookupError::InvalidName));
    assert_eq!(parse_request("-1.bin"), Err(LookupError::InvalidName));
    assert_eq!(parse_request("12a.bin"), Err(LookupError::InvalidName));
    assert_eq!(parse_request("1 .bin"), Err(LookupError::InvalidName));
    assert_eq!(parse_request("4294967296.shp"), Err(LookupError::InvalidName));
    assert_eq!(parse_request("99999999999999999999999.shp"), Err(LookupError::InvalidName));
    assert_eq!(parse_request("\u{0663}.bin"), Err(LookupError::InvalidName));
}

#[test]
fn unknown_extensions_are_rejected() {
    assert_eq!(parse_request("1."), Err(LookupError::UnknownExtension));
    assert_eq!(parse_request("1.bi"), Err(LookupError::UnknownExtension));
    assert_eq!(parse_request("1.bina"), Err(LookupError::UnknownExtension));
    assert_eq!(parse_request("1.txt"), Err(LookupError::UnknownExtension));
    assert_eq!(parse_request("1..bin"), Err(LookupError::UnknownExtension));
    assert_eq!(parse_request("1.b\u{00ef}n"), Err(LookupError::UnknownExtension));
    // The extension is judged before the identifier.
    assert_eq!(parse_request("abc.xyz"), Err(LookupError::UnknownExtension));
}

#[test]
fn dots_are_found_by_character_position() {
    assert_eq!(find_dot("12.bin", 0), 2);
    assert_eq!(find_dot("12.bin", 2), 2);
    assert_eq!(find_dot("12.bin", 3), 6);
    assert_eq!(find_dot("a.b.c", 2), 3);
    assert_eq!(find_dot("\u{00e9}\u{00e9}.x", 0), 2);
    assert_eq!(find_dot("", 0), 0);
}

#[test]
fn ids_and_kinds_are_read_from_ranges() {
    assert_eq!(parse_number("x123y", 1, 4, 10), Some(123));
    assert_eq!(parse_number("x123y", 1, 5, 10), None);
    assert_eq!(parse_number("x123y", 2, 2, 10), None);
    assert_eq!(parse_number("+", 0, 1, 10), None);
    assert_eq!(parse_number("+0", 0, 2, 10), Some(0));
    assert_eq!(parse_number("1+2", 0, 3, 10), None);
    assert_eq!(parse_number("4294967295", 0, 10, 10), Some(u32::MAX));
    assert_eq!(parse_number("4294967296", 0, 10, 10), None);
    assert_eq!(parse_number("42949672950", 0, 11, 10), None);
    assert_eq!(parse_kind("a.slp", 2, 5), Some(FileKind::Sprite));
    assert_eq!(parse_kind("a.slp", 1, 5), None);
    assert_eq!(parse_kind("WAV", 0, 3), Some(FileKind::Audio));
    assert_eq!(parse_kind("wa", 0, 2), None);
}
