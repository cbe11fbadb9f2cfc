use d4_harvest::error::DecodeError;
use d4_harvest::pool::{decode_text, read_string, POOL_BASE};
use d4_harvest::utils::{go_to, padding, read_f32, read_offset, read_u32, Cursor};

#[test]
fn read_u32_is_little_endian() {
    let data = [0x78u8, 0x56, 0x34, 0x12, 0xff, 0xff, 0xff, 0xff];
    let mut f = Cursor::new(&data);
    assert_eq!(read_u32(&mut f), Ok(0x1234_5678));
    assert_eq!(f.position(), 4);
    assert_eq!(read_u32(&mut f), Ok(u32::MAX));
    assert_eq!(f.position(), 8);
    assert_eq!(f.remaining(), 0);
}

#[test]
fn read_u32_needs_four_bytes() {
    let data = [1u8, 2, 3];
    let mut f = Cursor::new(&data);
    assert_eq!(read_u32(&mut f), Err(DecodeError::TruncatedRecord));
    assert_eq!(f.position(), 0);

    let data = [1u8, 0, 0, 0, 9];
    let mut f = Cursor::new(&data);
    assert_eq!(read_u32(&mut f), Ok(1));
    assert_eq!(read_u32(&mut f), Err(DecodeError::TruncatedRecord));
    assert_eq!(f.position(), 4);
}

#[test]
fn read_u32_on_empty_data_fails() {
    let data: [u8; 0] = [];
    let mut f = Cursor::new(&data);
    assert_eq!(read_u32(&mut f), Err(DecodeError::TruncatedRecord));
}

#[test]
fn read_f32_returns_the_bits_of_the_single() {
    let mut data = Vec::new();
    data.extend_from_slice(&1.5f32.to_le_bytes());
    data.extend_from_slice(&(-0.25f32).to_le_bytes());
    let mut f = Cursor::new(&data);
    let x = read_f32(&mut f).unwrap();
    let y = read_f32(&mut f).unwrap();
    assert_eq!(x, 0x3fc0_0000);
    assert_eq!(f32::from_bits(x), 1.5f32);
    assert_eq!(f32::from_bits(y), -0.25f32);
    assert_eq!(read_f32(&mut f), Err(DecodeError::TruncatedRecord));
    assert_eq!(f.position(), 8);
}

#[test]
fn padding_moves_both_ways() {
    let data = [0u8; 10];
    let mut f = Cursor::new(&data);
    assert_eq!(padding(&mut f, 6), Ok(()));
    assert_eq!(f.position(), 6);
    assert_eq!(padding(&mut f, -2), Ok(()));
    assert_eq!(f.position(), 4);
    assert_eq!(padding(&mut f, 0), Ok(()));
    assert_eq!(f.position(), 4);
    assert_eq!(padding(&mut f, 6), Ok(()));
    assert_eq!(f.position(), 10);
    assert_eq!(f.remaining(), 0);
}

#[test]
fn padding_before_the_start_is_an_io_failure() {
    let data = [0u8; 10];
    let mut f = Cursor::new(&data);
    assert_eq!(padding(&mut f, 3), Ok(()));
    assert_eq!(padding(&mut f, -4), Err(DecodeError::IoFailure));
    assert_eq!(f.position(), 3);
    assert_eq!(padding(&mut f, i64::MIN), Err(DecodeError::IoFailure));
    assert_eq!(f.position(), 3);
}

#[test]
fn padding_past_the_end_is_truncation() {
    let data = [0u8; 10];
    let mut f = Cursor::new(&data);
    assert_eq!(padding(&mut f, 11), Err(DecodeError::TruncatedRecord));
    assert_eq!(f.position(), 0);
    assert_eq!(padding(&mut f, i64::MAX), Err(DecodeError::TruncatedRecord));
    assert_eq!(f.position(), 0);
}

#[test]
fn go_to_is_absolute() {
    let data = [0u8, 1, 2, 3, 4, 5, 6, 7];
    let mut f = Cursor::new(&data);
    assert_eq!(go_to(&mut f, 4), Ok(()));
    assert_eq!(read_u32(&mut f), Ok(0x0706_0504));
    assert_eq!(go_to(&mut f, 0), Ok(()));
    assert_eq!(read_u32(&mut f), Ok(0x0302_0100));
    assert_eq!(go_to(&mut f, 8), Ok(()));
    assert_eq!(go_to(&mut f, 9), Err(DecodeError::TruncatedRecord));
    assert_eq!(f.position(), 8);
    assert_eq!(go_to(&mut f, u64::MAX), Err(DecodeError::TruncatedRecord));
    assert_eq!(f.position(), 8);
}

#[test]
fn read_offset_keeps_the_position() {
    let data = [10u8, 11, 12, 13, 14, 15, 16, 17];
    let mut f = Cursor::new(&data);
    assert_eq!(padding(&mut f, 2), Ok(()));
    assert_eq!(read_offset(&mut f, 5, 3), Ok(vec![15u8, 16, 17]));
    assert_eq!(f.position(), 2);
    assert_eq!(read_offset(&mut f, 0, 0), Ok(vec![]));
    assert_eq!(read_offset(&mut f, 8, 0), Ok(vec![]));
    assert_eq!(read_offset(&mut f, 0, 8), Ok(data.to_vec()));
    assert_eq!(f.position(), 2);
}

#[test]
fn read_offset_past_the_end_fails_and_keeps_the_position() {
    let data = [10u8, 11, 12, 13];
    let mut f = Cursor::new(&data);
    assert_eq!(padding(&mut f, 1), Ok(()));
    assert_eq!(read_offset(&mut f, 2, 3), Err(DecodeError::TruncatedRecord));
    assert_eq!(read_offset(&mut f, 5, 0), Err(DecodeError::TruncatedRecord));
    assert_eq!(read_offset(&mut f, u64::MAX, usize::MAX), Err(DecodeError::TruncatedRecord));
    assert_eq!(f.position(), 1);
}

#[test]
fn decode_text_strips_nul_padding() {
    assert_eq!(decode_text(b"AB\0\0".to_vec()), Ok("AB".to_string()));
}

#[test]
fn decode_text_strips_every_nul() {
    assert_eq!(decode_text(b"\0A\0\0B\0C".to_vec()), Ok("ABC".to_string()));
    assert_eq!(decode_text(b"\0\0\0".to_vec()), Ok(String::new()));
    assert_eq!(decode_text(Vec::new()), Ok(String::new()));
}

#[test]
fn decode_text_keeps_other_characters() {
    let text = "Zauberstab der Kälte ✓";
    let mut bytes = text.as_bytes().to_vec();
    bytes.push(0);
    assert_eq!(decode_text(bytes), Ok(text.to_string()));
}

#[test]
fn decode_text_rejects_invalid_utf8() {
    assert_eq!(decode_text(vec![0x41, 0xff, 0x42]), Err(DecodeError::InvalidEncoding));
    assert_eq!(decode_text(vec![0xc3]), Err(DecodeError::InvalidEncoding));
    // A NUL inside a two-byte sequence does not become valid by stripping.
    assert_eq!(decode_text(vec![0xc3, 0x00, 0xa4]), Err(DecodeError::InvalidEncoding));
}

#[test]
fn read_string_counts_from_the_pool_base() {
    assert_eq!(POOL_BASE, 16);
    let mut data = vec![0xeeu8; 16];
    data.extend_from_slice(b"skip");
    data.extend_from_slice(b"AB\0\0");
    let mut f = Cursor::new(&data);
    assert_eq!(padding(&mut f, 3), Ok(()));
    assert_eq!(read_string(&mut f, 4, 4), Ok("AB".to_string()));
    assert_eq!(read_string(&mut f, 0, 4), Ok("skip".to_string()));
    assert_eq!(read_string(&mut f, 8, 0), Ok(String::new()));
    assert_eq!(f.position(), 3);
}

#[test]
fn read_string_outside_the_data_is_truncation() {
    let mut data = vec![0u8; 16];
    data.extend_from_slice(b"abcd");
    let mut f = Cursor::new(&data);
    assert_eq!(read_string(&mut f, 2, 3), Err(DecodeError::TruncatedRecord));
    assert_eq!(read_string(&mut f, 5, 0), Err(DecodeError::TruncatedRecord));
    assert_eq!(read_string(&mut f, u32::MAX, u32::MAX), Err(DecodeError::TruncatedRecord));
    assert_eq!(f.position(), 0);
}

#[test]
fn read_string_reports_invalid_encoding() {
    let mut data = vec![0u8; 16];
    data.extend_from_slice(&[0x80, 0x41]);
    let mut f = Cursor::new(&data);
    assert_eq!(read_string(&mut f, 0, 2), Err(DecodeError::InvalidEncoding));
    assert_eq!(read_string(&mut f, 1, 1), Ok("A".to_string()));
}

#[test]
fn errors_describe_themselves() {
    assert_eq!(DecodeError::IoFailure.message(), "invalid seek");
    assert_eq!(DecodeError::TruncatedRecord.message(), "truncated record");
    assert_eq!(DecodeError::InvalidEncoding.message(), "invalid text encoding");
}
