use nyansync::serve::{check_file, task_count, worker_threads, FileRejection};
use nyansync::{FileType, ParseFileNameError, Resolution, ResponseHeader};

const HASH_HEX: &str = "000102030405060708090a0b0c0d0e0f10111213";

fn hash() -> [u8; 20] {
    let mut h = [0u8; 20];
    for (i, b) in h.iter_mut().enumerate() {
        *b = i as u8;
    }
    h
}

fn parse_err(name: &str) -> ParseFileNameError {
    ResponseHeader::try_from(name).err().unwrap()
}

#[test]
fn parse_valid_name() {
    let name = format!("{HASH_HEX}-1234-640-480-gif");
    let h = ResponseHeader::try_from(name.as_str()).ok().unwrap();
    assert_eq!(h.file_type(), FileType::Gif);
    assert_eq!(h.file_hash(), hash());
    assert_eq!(h.payload_len(), 1234);
    assert_eq!(h.to_string(), name);
}

#[test]
fn parse_name_roundtrip() {
    let h = ResponseHeader::new(FileType::Webp, [0xFF; 20], Resolution::new(u32::MAX, 0), 0);
    let name = h.to_string();
    assert_eq!(name, format!("{}-0-4294967295-0-wbp", "ff".repeat(20)));
    let back = ResponseHeader::try_from(name.as_str()).ok().unwrap();
    assert_eq!(back.to_string(), name);
    assert_eq!(back.file_type(), FileType::Webp);
}

#[test]
fn parse_accepts_upper_case_sign_and_zeros() {
    let name = format!("{}-+0012-007-8-png", HASH_HEX.to_uppercase());
    let h = ResponseHeader::try_from(name.as_str()).ok().unwrap();
    assert_eq!(h.file_hash(), hash());
    assert_eq!(h.payload_len(), 12);
    assert_eq!(h.to_string(), format!("{HASH_HEX}-12-7-8-png"));
}

#[test]
fn parse_field_count() {
    assert_eq!(parse_err("a-b-c-d"), ParseFileNameError::FieldMissing);
    assert_eq!(parse_err(""), ParseFileNameError::FieldMissing);
    assert_eq!(parse_err("a-b-c-d-e-f"), ParseFileNameError::FieldExceed);
    assert_eq!(parse_err(&format!("{HASH_HEX}-1-2-3-gif-")), ParseFileNameError::FieldExceed);
}

#[test]
fn parse_bad_hex() {
    assert_eq!(parse_err("abc-1-2-3-gif"), ParseFileNameError::InvalidHex);
    let bad = format!("{}g-1-2-3-gif", &HASH_HEX[..39]);
    assert_eq!(parse_err(&bad), ParseFileNameError::InvalidHex);
}

#[test]
fn parse_bad_numbers() {
    assert_eq!(parse_err(&format!("{HASH_HEX}-x-2-3-gif")), ParseFileNameError::InvalidFileSize);
    assert_eq!(parse_err(&format!("{HASH_HEX}--2-3-gif")), ParseFileNameError::InvalidFileSize);
    assert_eq!(parse_err(&format!("{HASH_HEX}-+-2-3-gif")), ParseFileNameError::InvalidFileSize);
    assert_eq!(
        parse_err(&format!("{HASH_HEX}-4294967296-2-3-gif")),
        ParseFileNameError::InvalidFileSize
    );
    assert_eq!(parse_err(&format!("{HASH_HEX}-1-a-3-gif")), ParseFileNameError::InvalidResX);
    assert_eq!(parse_err(&format!("{HASH_HEX}-1-2- 3-gif")), ParseFileNameError::InvalidResY);
}

#[test]
fn parse_bad_type() {
    assert_eq!(parse_err(&format!("{HASH_HEX}-1-2-3-bmp")), ParseFileNameError::UnknownType);
    assert_eq!(parse_err(&format!("{HASH_HEX}-1-2-3-webp")), ParseFileNameError::UnknownType);
    assert_eq!(parse_err(&format!("{HASH_HEX}-1-2-3-GIF")), ParseFileNameError::UnknownType);
}

#[test]
fn parse_error_messages() {
    assert_eq!(ParseFileNameError::FieldMissing.message(), "field missing");
    assert_eq!(ParseFileNameError::FieldExceed.message(), "field exceed");
    assert_eq!(ParseFileNameError::InvalidHex.message(), "invalid hex");
    assert_eq!(ParseFileNameError::InvalidFileSize.message(), "invalid file size");
    assert_eq!(ParseFileNameError::InvalidResX.message(), "invalid resolution.x");
    assert_eq!(ParseFileNameError::InvalidResY.message(), "invalid resolution.y");
    assert_eq!(ParseFileNameError::UnknownType.message(), "unknown type");
}

#[test]
fn serve_named_file() {
    let name = format!("{HASH_HEX}-1234-640-480-gif");
    let h = check_file(Some(name.as_str()), 1234, &hash()).ok().unwrap();
    assert_eq!(h.to_string(), name);
}

#[test]
fn refuse_mismatched_file() {
    let name = format!("{HASH_HEX}-1234-640-480-gif");
    assert_eq!(check_file(Some(name.as_str()), 1235, &hash()).err(), Some(FileRejection::SizeMismatch));
    let mut other = hash();
    other[0] = 9;
    assert_eq!(check_file(Some(name.as_str()), 1234, &other).err(), Some(FileRejection::HashMismatch));
    assert_eq!(check_file(None, 1234, &hash()).err(), Some(FileRejection::NotUtf8));
    assert_eq!(
        check_file(Some("not-a-file-name"), 1234, &hash()).err(),
        Some(FileRejection::Name(ParseFileNameError::FieldMissing))
    );
    let wrong_size = format!("{HASH_HEX}-99999999999-640-480-gif");
    assert_eq!(
        check_file(Some(wrong_size.as_str()), 1234, &hash()).err(),
        Some(FileRejection::Name(ParseFileNameError::InvalidFileSize))
    );
}

#[test]
fn thread_plan() {
    assert_eq!(worker_threads(0), 0);
    assert_eq!(worker_threads(1), 0);
    assert_eq!(worker_threads(8), 7);
    assert_eq!(task_count(0, 7), 8);
    assert_eq!(task_count(0, 0), 1);
    assert_eq!(task_count(3, 7), 3);
}
