use qvd::error::QvdErrorKind;
use qvd::qvd_structure::QvdFieldHeader;
use qvd::rows::{bits_to_number, get_row_indexes, index_of_record, reversed};

fn field(bit_offset: usize, bit_width: usize, bias: i64) -> QvdFieldHeader {
    QvdFieldHeader {
        field_name: String::from("name"),
        offset: 0,
        length: 0,
        bit_offset,
        bit_width,
        bias,
    }
}

#[test]
fn test_get_row_indexes() {
    let buf: Vec<u8> = vec![
        0x00, 0x14, 0x00, 0x11, 0x01, 0x22, 0x02, 0x33, 0x13, 0x34, 0x24, 0x35,
    ];
    let field = QvdFieldHeader {
        field_name: String::from("name"),
        offset: 0,
        length: 0,
        bit_offset: 10,
        bit_width: 3,
        bias: 0,
    };
    let record_byte_size = buf.len();
    let res = get_row_indexes(&buf, &field, record_byte_size).unwrap();
    let expected: Vec<i64> = vec![5];
    assert_eq!(expected, res);
}

#[test]
fn index_is_the_bits_above_the_offset_of_the_little_endian_record() {
    // The record read as a little-endian number is 0x1234.
    let buf = [0x34, 0x12];
    assert_eq!(get_row_indexes(&buf, &field(0, 4, 0), 2).unwrap(), vec![0x4]);
    assert_eq!(get_row_indexes(&buf, &field(4, 4, 0), 2).unwrap(), vec![0x3]);
    assert_eq!(get_row_indexes(&buf, &field(8, 8, 0), 2).unwrap(), vec![0x12]);
    assert_eq!(get_row_indexes(&buf, &field(0, 16, 0), 2).unwrap(), vec![0x1234]);
    assert_eq!(get_row_indexes(&buf, &field(3, 7, 0), 2).unwrap(), vec![(0x1234 >> 3) & 0x7f]);
}

#[test]
fn records_are_decoded_in_order() {
    let buf = [0x01, 0x02, 0x03, 0xff];
    assert_eq!(get_row_indexes(&buf, &field(0, 8, 0), 1).unwrap(), vec![1, 2, 3, 255]);
    assert_eq!(get_row_indexes(&buf, &field(0, 8, 0), 2).unwrap(), vec![1, 3]);
    assert_eq!(get_row_indexes(&buf, &field(8, 8, 0), 2).unwrap(), vec![2, 255]);
}

#[test]
fn bias_is_added_and_may_give_a_negative_index() {
    let buf = [0x00, 0x01, 0x02, 0x05];
    assert_eq!(get_row_indexes(&buf, &field(0, 8, -2), 1).unwrap(), vec![-2, -1, 0, 3]);
    assert_eq!(get_row_indexes(&buf, &field(0, 8, 10), 1).unwrap(), vec![10, 11, 12, 15]);
}

#[test]
fn field_of_width_zero_gives_the_bias() {
    let buf = [0xff, 0xff, 0xff];
    assert_eq!(get_row_indexes(&buf, &field(3, 0, -2), 1).unwrap(), vec![-2, -2, -2]);
    assert_eq!(get_row_indexes(&buf, &field(8, 0, 0), 1).unwrap(), vec![0, 0, 0]);
}

#[test]
fn empty_row_section_has_no_rows() {
    assert_eq!(get_row_indexes(&[], &field(0, 3, 0), 4).unwrap(), Vec::<i64>::new());
}

#[test]
fn record_size_zero_is_a_format_error() {
    let err = get_row_indexes(&[1, 2], &field(0, 0, 0), 0).unwrap_err();
    assert_eq!(err.kind(), QvdErrorKind::Format);
}

#[test]
fn partial_record_is_a_format_error() {
    let err = get_row_indexes(&[1, 2, 3], &field(0, 8, 0), 2).unwrap_err();
    assert_eq!(err.kind(), QvdErrorKind::Format);
}

#[test]
fn field_outside_the_record_is_a_format_error() {
    let err = get_row_indexes(&[1, 2], &field(10, 7, 0), 2).unwrap_err();
    assert_eq!(err.kind(), QvdErrorKind::Format);
    let err = get_row_indexes(&[1, 2], &field(17, 0, 0), 2).unwrap_err();
    assert_eq!(err.kind(), QvdErrorKind::Format);
    assert_eq!(get_row_indexes(&[1, 2], &field(10, 6, 0), 2).unwrap(), vec![0]);
}

#[test]
fn index_that_does_not_fit_is_a_format_error() {
    let ones = [0xffu8; 8];
    let err = get_row_indexes(&ones, &field(0, 64, 0), 8).unwrap_err();
    assert_eq!(err.kind(), QvdErrorKind::Format);
    assert_eq!(get_row_indexes(&ones, &field(0, 63, 0), 8).unwrap(), vec![i64::MAX]);
    let err = get_row_indexes(&ones, &field(0, 63, 1), 8).unwrap_err();
    assert_eq!(err.kind(), QvdErrorKind::Format);
    assert_eq!(get_row_indexes(&ones, &field(1, 63, -1), 8).unwrap(), vec![i64::MAX - 1]);
}

#[test]
fn wide_field_with_leading_zero_bits_fits() {
    let mut record = [0u8; 16];
    record[0] = 0x2a;
    assert_eq!(get_row_indexes(&record, &field(0, 128, 0), 16).unwrap(), vec![0x2a]);
}

#[test]
fn bits_are_read_most_significant_first() {
    let bytes = [0b1000_0000u8, 0b0000_0101];
    assert_eq!(bits_to_number(&bytes, 0, 1), Some(1));
    assert_eq!(bits_to_number(&bytes, 1, 8), Some(0));
    assert_eq!(bits_to_number(&bytes, 0, 8), Some(128));
    assert_eq!(bits_to_number(&bytes, 13, 16), Some(5));
    assert_eq!(bits_to_number(&bytes, 0, 16), Some(0x8005));
    assert_eq!(bits_to_number(&bytes, 4, 4), Some(0));
}

#[test]
fn number_of_more_than_63_bits_is_none() {
    let ones = [0xffu8; 9];
    assert_eq!(bits_to_number(&ones, 0, 63), Some(i64::MAX));
    assert_eq!(bits_to_number(&ones, 0, 64), None);
    assert_eq!(bits_to_number(&ones, 0, 72), None);
}

#[test]
fn reversed_turns_the_bytes_around() {
    assert_eq!(reversed(&[1, 2, 3]), vec![3, 2, 1]);
    assert_eq!(reversed(&[]), Vec::<u8>::new());
}

#[test]
fn index_of_one_record() {
    let record = [
        0x00, 0x14, 0x00, 0x11, 0x01, 0x22, 0x02, 0x33, 0x13, 0x34, 0x24, 0x35,
    ];
    assert_eq!(index_of_record(&record, &field(10, 3, 0)), Some(5));
    assert_eq!(index_of_record(&record, &field(10, 3, -7)), Some(-2));
    assert_eq!(index_of_record(&[0xff; 8], &field(0, 64, 0)), None);
}

#[test]
fn error_names_the_start_of_the_first_record_that_does_not_fit() {
    let mut buf = vec![0u8; 24];
    buf[8..16].copy_from_slice(&[0xff; 8]);
    buf[16..24].copy_from_slice(&[0xff; 8]);
    let err = get_row_indexes(&buf, &field(0, 64, 0), 8).unwrap_err();
    assert_eq!(err.message(), "dictionary position does not fit in 64 bits at byte 8");
    let err = get_row_indexes(&buf, &field(0, 64, 0), 0).unwrap_err();
    assert_eq!(err.message(), "record size is not supported");
    let err = get_row_indexes(&buf, &field(60, 5, 0), 8).unwrap_err();
    assert_eq!(err.message(), "field does not lie inside a record");
    let err = get_row_indexes(&buf, &field(0, 8, 0), 5).unwrap_err();
    assert_eq!(err.message(), "row section is not a whole number of records");
}
