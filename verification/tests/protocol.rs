use nyansync::hex::{bytes_to_hex, hex_to_bytes};
use nyansync::{ExtCommand, FileType, ProtocolError, Request, Resolution, Response, ResponseHeader};

fn sample_hash() -> [u8; 20] {
    let mut h = [0u8; 20];
    for (i, b) in h.iter_mut().enumerate() {
        *b = i as u8;
    }
    h
}

fn sample_header() -> ResponseHeader {
    ResponseHeader::new(FileType::Jpg, sample_hash(), Resolution::new(1, 2), 5)
}

#[test]
fn request_encodes_big_endian() {
    let req = Request::new(0x0102_0304);
    let mut buf = [0u8; 4];
    req.encode(&mut buf);
    assert_eq!(buf, [1, 2, 3, 4]);
    assert_eq!(req.cursor(), 0x0102_0304);
}

#[test]
fn request_roundtrip() {
    for cursor in [0u32, 1, 255, 256, 0xDEAD_BEEF, u32::MAX] {
        let mut buf = [0u8; 4];
        Request::new(cursor).encode(&mut buf);
        assert_eq!(Request::decode(buf).cursor(), cursor);
    }
}

#[test]
fn resolution_encode_decode() {
    let r = Resolution::new(1920, 1080);
    let bytes = r.encode();
    assert_eq!(bytes, [0, 0, 7, 128, 0, 0, 4, 56]);
    let back = Resolution::decode(bytes);
    assert_eq!(back.encode(), bytes);
    assert_eq!(back.to_string(), "1920-1080");
}

#[test]
fn file_type_bytes() {
    assert_eq!(FileType::Gif.as_byte(), 0);
    assert_eq!(FileType::Jpg.as_byte(), 1);
    assert_eq!(FileType::Webp.as_byte(), 2);
    assert_eq!(FileType::Png.as_byte(), 3);
    assert_eq!(FileType::try_from(2u8), Ok(FileType::Webp));
    assert_eq!(FileType::try_from(4u8), Err(ProtocolError::InvalidFileType));
}

#[test]
fn file_type_names() {
    assert_eq!(FileType::Gif.to_string(), "gif");
    assert_eq!(FileType::Jpg.to_string(), "jpg");
    assert_eq!(FileType::Webp.to_string(), "wbp");
    assert_eq!(FileType::Png.to_string(), "png");
}

#[test]
fn ext_command_bytes() {
    assert_eq!(ExtCommand::FileNameInvalid.as_byte(), 254);
    assert_eq!(ExtCommand::EndOfTransaction.as_byte(), 255);
    assert_eq!(ExtCommand::try_from(255u8), Ok(ExtCommand::EndOfTransaction));
    assert_eq!(ExtCommand::try_from(254u8), Ok(ExtCommand::FileNameInvalid));
    assert_eq!(ExtCommand::try_from(253u8), Err(ProtocolError::InvalidExtCommand));
}

#[test]
fn encode_header_response() {
    let resp = Response::Header(sample_header());
    let mut buf = [0xEEu8; 40];
    assert_eq!(resp.encode(&mut buf), Ok(ResponseHeader::TOTAL_LEN));
    let mut expected = vec![1u8];
    expected.extend_from_slice(&sample_hash());
    expected.extend_from_slice(&[0, 0, 0, 1, 0, 0, 0, 2, 0, 0, 0, 5]);
    assert_eq!(&buf[..33], expected.as_slice());
    assert_eq!(&buf[33..], &[0xEE; 7]);
}

#[test]
fn encode_header_into_short_buffer() {
    let resp = Response::Header(sample_header());
    let mut buf = [7u8; 32];
    assert_eq!(resp.encode(&mut buf), Err(ProtocolError::BufferTooShort));
    assert_eq!(buf, [7u8; 32]);
}

#[test]
fn encode_command_response() {
    let mut buf = [0u8; 3];
    let resp = Response::ExtCommand(ExtCommand::EndOfTransaction);
    assert_eq!(resp.encode(&mut buf), Ok(1));
    assert_eq!(buf, [255, 0, 0]);
    let resp = Response::ExtCommand(ExtCommand::FileNameInvalid);
    assert_eq!(resp.encode(&mut buf[..1]), Ok(1));
    assert_eq!(buf, [254, 0, 0]);
}

#[test]
fn total_len_is_sum_of_fields() {
    assert_eq!(ResponseHeader::TOTAL_LEN, 33);
    assert_eq!(ResponseHeader::FILE_TYPE_LEN, 1);
    assert_eq!(ResponseHeader::FILE_HASH_LEN, 20);
    assert_eq!(ResponseHeader::RESOLUTION_LEN, 8);
    assert_eq!(ResponseHeader::PAYLOAD_LEN_LEN, 4);
}

#[test]
fn decode_needs_more_bytes() {
    assert!(matches!(Response::decode(&[]), Ok(None)));
    assert!(matches!(Response::decode(&[0u8; 32]), Ok(None)));
    assert!(matches!(Response::decode(&[3u8]), Ok(None)));
}

#[test]
fn decode_commands() {
    assert!(matches!(
        Response::decode(&[255, 9, 9]),
        Ok(Some((Response::ExtCommand(ExtCommand::EndOfTransaction), 1)))
    ));
    assert!(matches!(
        Response::decode(&[254]),
        Ok(Some((Response::ExtCommand(ExtCommand::FileNameInvalid), 1)))
    ));
    assert!(matches!(Response::decode(&[200]), Err(ProtocolError::InvalidExtCommand)));
    assert!(matches!(Response::decode(&[128]), Err(ProtocolError::InvalidExtCommand)));
}

#[test]
fn decode_invalid_file_type() {
    let mut buf = [0u8; 33];
    buf[0] = 4;
    assert!(matches!(Response::decode(&buf), Err(ProtocolError::InvalidFileType)));
}

#[test]
fn response_roundtrip() {
    let resp = Response::Header(sample_header());
    let mut buf = [0u8; 50];
    let n = resp.encode(&mut buf).unwrap();
    match Response::decode(&buf) {
        Ok(Some((Response::Header(h), m))) => {
            assert_eq!(m, n);
            assert_eq!(h.file_type(), FileType::Jpg);
            assert_eq!(h.file_hash(), sample_hash());
            assert_eq!(h.payload_len(), 5);
            assert_eq!(h.to_string(), sample_header().to_string());
        }
        _ => panic!("header did not decode"),
    }
}

#[test]
fn file_name_of_header() {
    let h = ResponseHeader::new(FileType::Png, sample_hash(), Resolution::new(640, 480), 1234);
    assert_eq!(h.to_string(), "000102030405060708090a0b0c0d0e0f10111213-1234-640-480-png");
    assert_eq!(
        h.file_name_bytes(),
        b"000102030405060708090a0b0c0d0e0f10111213-1234-640-480-png".to_vec()
    );
    let (a, b) = h.storage_dirs();
    assert_eq!(a, "00");
    assert_eq!(b, "01");
}

#[test]
fn matches_hash() {
    let h = sample_header();
    assert!(h.matches_hash(&sample_hash()));
    let mut other = sample_hash();
    other[19] = 0;
    assert!(!h.matches_hash(&other));
}

#[test]
fn protocol_error_messages() {
    assert_eq!(ProtocolError::BufferTooShort.message(), "buffer too short");
    assert_eq!(ProtocolError::InvalidFileType.message(), "invalid file type");
    assert_eq!(ProtocolError::InvalidExtCommand.message(), "invalid ext command");
}

#[test]
fn hex_roundtrip() {
    let hex = bytes_to_hex(&sample_hash());
    assert_eq!(&hex, b"000102030405060708090a0b0c0d0e0f10111213");
    assert_eq!(hex_to_bytes(&hex), Some(sample_hash()));
}

#[test]
fn hex_upper_and_invalid() {
    let upper = *b"ABCDEF0123456789abcdefABCDEF0123456789ab";
    let bytes = hex_to_bytes(&upper).unwrap();
    assert_eq!(bytes[0], 0xAB);
    assert_eq!(bytes[1], 0xCD);
    assert_eq!(&bytes_to_hex(&bytes), b"abcdef0123456789abcdefabcdef0123456789ab");
    let mut bad = upper;
    bad[39] = b'g';
    assert_eq!(hex_to_bytes(&bad), None);
}
