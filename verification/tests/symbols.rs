use qvd::error::QvdErrorKind;
use qvd::symbols::{float_from_buf, get_column_values_from_buf, int_from_buf, string_from_buf};
use qvd::CellValue;

fn float(value: f64) -> CellValue {
    CellValue::Float(value.to_bits())
}

#[test]
fn test_double() {
    let buf: Vec<u8> = vec![
        0x02, 0x00, 0x00, 0x00, 0x00, 0x00, 0x40, 0x7a, 0x40, 0x02, 0x00, 0x00, 0x00, 0x00,
        0x00, 0x50, 0x7a, 0x40,
    ];
    let res = get_column_values_from_buf(&buf).unwrap();
    let expected = vec![float(420.0), float(421.0)];
    assert_eq!(expected, res);
}

#[test]
fn test_int() {
    let buf: Vec<u8> = vec![0x01, 0x0A, 0x00, 0x00, 0x00, 0x01, 0x14, 0x00, 0x00, 0x00];
    let res = get_column_values_from_buf(&buf).unwrap();
    let expected = vec![CellValue::Int(10), CellValue::Int(20)];
    assert_eq!(expected, res);
}

#[test]
fn test_mixed_numbers() {
    let buf: Vec<u8> = vec![
        0x02, 0x00, 0x00, 0x00, 0x00, 0x00, 0x40, 0x7a, 0x40,
        0x02, 0x00, 0x00, 0x00, 0x00, 0x00, 0x50, 0x7a, 0x40,
        0x01, 0x01, 0x00, 0x00, 0x00,
        0x01, 0x02, 0x00, 0x00, 0x00,
        0x05, 0x00, 0x00, 0x00, 0x00, 0x37, 0x30, 0x30, 0x30, 0x00,
        0x06, 0x00, 0x00, 0x00, 0x00, 0x00, 0x00, 0x00, 0x00, 0x38, 0x36, 0x35, 0x2e, 0x32, 0x00,
    ];
    let res = get_column_values_from_buf(&buf).unwrap();
    let expected = vec![
        float(420.),
        float(421.),
        CellValue::Int(1),
        CellValue::Int(2),
        CellValue::Text("7000".into()),
        CellValue::Text("865.2".into()),
    ];
    assert_eq!(expected, res);
}

#[test]
fn test_string() {
    let buf: Vec<u8> = vec![
        4, 101, 120, 97, 109, 112, 108, 101, 32, 116, 101, 120, 116, 0, 4, 114, 117, 115, 116,
        0,
    ];
    let res = get_column_values_from_buf(&buf).unwrap();
    let expected = vec![CellValue::Text("example text".into()), CellValue::Text("rust".into())];
    assert_eq!(expected, res);
}

#[test]
fn test_utf8_string() {
    let buf: Vec<u8> = vec![
        0x04, 0xE4, 0xB9, 0x9F, 0xE6, 0x9C, 0x89, 0xE4, 0xB8, 0xAD, 0xE6, 0x96, 0x87, 0xE7,
        0xAE, 0x80, 0xE4, 0xBD, 0x93, 0xE5, 0xAD, 0x97, 0x00,
        0x04, 0xF0, 0x9F, 0x90, 0x8D, 0xF0, 0x9F, 0xA6, 0x80, 0x00,
        0x04, 0x54, 0x72, 0xC3, 0xA4, 0x67, 0x65, 0x72, 0x00,
    ];
    let res = get_column_values_from_buf(&buf).unwrap();
    let expected = vec![
        CellValue::Text("也有中文简体字".into()),
        CellValue::Text("🐍🦀".into()),
        CellValue::Text("Träger".into()),
    ];
    assert_eq!(expected, res);
}

#[test]
fn test_mixed_string() {
    let buf: Vec<u8> = vec![
        4, 101, 120, 97, 109, 112, 108, 101, 32, 116, 101, 120, 116, 0, 4, 114, 117, 115, 116,
        0, 5, 42, 65, 80, 1, 49, 50, 51, 52, 0, 6, 1, 1, 1, 1, 1, 1, 1, 1, 100, 111, 117, 98,
        108, 101, 0,
    ];
    let res = get_column_values_from_buf(&buf).unwrap();
    let expected = vec![
        CellValue::Text("example text".into()),
        CellValue::Text("rust".into()),
        CellValue::Text("1234".into()),
        CellValue::Text("double".into()),
    ];
    assert_eq!(expected, res);
}

#[test]
fn symbol_vector_of_two_texts() {
    let mut buf: Vec<u8> = vec![0x04];
    buf.extend_from_slice(b"example text");
    buf.push(0x00);
    buf.push(0x04);
    buf.extend_from_slice(b"demo");
    buf.push(0x00);
    let res = get_column_values_from_buf(&buf).unwrap();
    assert_eq!(res, vec![CellValue::Text("example text".into()), CellValue::Text("demo".into())]);
}

#[test]
fn empty_segment_gives_empty_dictionary() {
    let res = get_column_values_from_buf(&[]).unwrap();
    assert_eq!(res, Vec::<CellValue>::new());
}

#[test]
fn negative_integer_is_twos_complement() {
    let res = get_column_values_from_buf(&[0x01, 0xFE, 0xFF, 0xFF, 0xFF]).unwrap();
    assert_eq!(res, vec![CellValue::Int(-2)]);
    let res = get_column_values_from_buf(&[0x01, 0x00, 0x00, 0x00, 0x80]).unwrap();
    assert_eq!(res, vec![CellValue::Int(i32::MIN)]);
    let res = get_column_values_from_buf(&[0x01, 0xFF, 0xFF, 0xFF, 0x7F]).unwrap();
    assert_eq!(res, vec![CellValue::Int(i32::MAX)]);
}

#[test]
fn integer_bytes_are_little_endian() {
    let buf = [0x01, 0x78, 0x56, 0x34, 0x12];
    assert_eq!(int_from_buf(&buf, 0), 0x12345678);
    assert_eq!(int_from_buf(&buf, 0), i32::from_le_bytes([0x78, 0x56, 0x34, 0x12]));
}

#[test]
fn double_bits_are_little_endian() {
    let buf = [0x02, 0x00, 0x00, 0x00, 0x00, 0x00, 0x40, 0x7a, 0x40];
    assert_eq!(float_from_buf(&buf, 0), 0x407a_4000_0000_0000);
    assert_eq!(f64::from_bits(float_from_buf(&buf, 0)), 420.0);
    let all = [0x02, 1, 2, 3, 4, 5, 6, 7, 8];
    assert_eq!(float_from_buf(&all, 0), u64::from_le_bytes([1, 2, 3, 4, 5, 6, 7, 8]));
}

#[test]
fn payload_of_a_number_is_not_scanned() {
    // The payload holds the bytes 0x00 and 0x04, which are not control bytes here.
    let res = get_column_values_from_buf(&[0x01, 0x00, 0x04, 0x00, 0x00]).unwrap();
    assert_eq!(res, vec![CellValue::Int(0x0400)]);
}

#[test]
fn skipped_bytes_are_not_part_of_the_text() {
    let res = get_column_values_from_buf(&[0x05, 0x61, 0x00, 0x62, 0x63, 0x64, 0x00]).unwrap();
    assert_eq!(res, vec![CellValue::Text("d".into())]);
    let res =
        get_column_values_from_buf(&[0x06, 1, 2, 3, 4, 5, 6, 7, 8, 0x78, 0x79, 0x00]).unwrap();
    assert_eq!(res, vec![CellValue::Text("xy".into())]);
}

#[test]
fn empty_text_is_a_value() {
    let res = get_column_values_from_buf(&[0x04, 0x00]).unwrap();
    assert_eq!(res, vec![CellValue::Text(String::new())]);
}

#[test]
fn duplicate_symbols_stay() {
    let res = get_column_values_from_buf(&[0x04, 0x61, 0x00, 0x04, 0x61, 0x00]).unwrap();
    assert_eq!(res, vec![CellValue::Text("a".into()), CellValue::Text("a".into())]);
}

#[test]
fn terminator_without_start_takes_the_last_start() {
    // The second terminator ends a text that began at the start recorded for the first.
    let res = get_column_values_from_buf(&[0x04, 0x61, 0x00, 0x62, 0x00]).unwrap();
    assert_eq!(res, vec![CellValue::Text("a".into()), CellValue::Text("a\0b".into())]);
}

#[test]
fn unterminated_text_gives_no_value() {
    let res = get_column_values_from_buf(&[0x01, 7, 0, 0, 0, 0x04, 0x61, 0x62]).unwrap();
    assert_eq!(res, vec![CellValue::Int(7)]);
    let res = get_column_values_from_buf(&[0x05, 1, 2]).unwrap();
    assert_eq!(res, Vec::<CellValue>::new());
    let res = get_column_values_from_buf(&[0x06, 1, 2, 3, 4, 5, 6, 7, 8]).unwrap();
    assert_eq!(res, Vec::<CellValue>::new());
}

#[test]
fn truncated_integer_is_a_format_error() {
    let err = get_column_values_from_buf(&[0x01, 0x0A, 0x00, 0x00]).unwrap_err();
    assert_eq!(err.kind(), QvdErrorKind::Format);
    assert!(!err.message().is_empty());
}

#[test]
fn truncated_double_is_a_format_error() {
    let err = get_column_values_from_buf(&[0x01, 1, 0, 0, 0, 0x02, 0, 0, 0, 0, 0, 0, 0])
        .unwrap_err();
    assert_eq!(err.kind(), QvdErrorKind::Format);
}

#[test]
fn invalid_utf8_is_replaced_not_dropped() {
    let res = get_column_values_from_buf(&[0x04, 0x61, 0xFF, 0x62, 0x00]).unwrap();
    assert_eq!(res, vec![CellValue::Text("a\u{FFFD}b".into())]);
}

#[test]
fn text_is_decoded_from_the_given_range_only() {
    let buf = b"xxhelloyy";
    assert_eq!(string_from_buf(buf, 2, 7), "hello");
    assert_eq!(string_from_buf(buf, 3, 3), "");
}

#[test]
fn decoding_twice_gives_equal_dictionaries() {
    let buf: Vec<u8> = vec![0x04, 0x51, 0x31, 0x00, 0x01, 1, 0, 0, 0, 0x04, 0xFF, 0x00];
    let first = get_column_values_from_buf(&buf).unwrap();
    let second = get_column_values_from_buf(&buf).unwrap();
    assert_eq!(first, second);
}

#[test]
fn error_names_the_byte_where_the_number_starts() {
    let err = get_column_values_from_buf(&[0x04, 0x61, 0x00, 0x02, 1, 2, 3]).unwrap_err();
    assert_eq!(err.message(), "symbol segment ends inside a double at byte 3");
}
