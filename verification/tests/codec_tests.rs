use klv::byte_source::ByteSource;
use klv::encoding::ber::read_ber;
use klv::encoding::ber::read_ber_long_form;
use klv::encoding::ber_oid::read_ber_oid;
use klv::encoding::integer::read_i128;
use klv::encoding::integer::read_i16;
use klv::encoding::integer::read_i32;
use klv::encoding::integer::read_i64;
use klv::encoding::integer::read_i8;
use klv::encoding::integer::read_integer;
use klv::encoding::integer::Integer;
use klv::encoding::unsigned_integer::read_u128;
use klv::encoding::unsigned_integer::read_u16;
use klv::encoding::unsigned_integer::read_u32;
use klv::encoding::unsigned_integer::read_u64;
use klv::encoding::unsigned_integer::read_u8;
use klv::encoding::unsigned_integer::read_unsigned_integer;
use klv::encoding::unsigned_integer::UnsignedInteger;
use klv::encoding::Error;
use klv::encoding::IntegerKind;

fn src_of(bytes: &[u8]) -> ByteSource {
    ByteSource::new(bytes.to_vec())
}

#[test]
fn read_ber_short_form_values() {
    assert_eq!(read_ber(&mut src_of(&[0x00])), Ok(0));
    assert_eq!(read_ber(&mut src_of(&[0x01])), Ok(1));
    assert_eq!(read_ber(&mut src_of(&[0x7F])), Ok(127));
}

#[test]
fn read_ber_long_form_values() {
    assert_eq!(read_ber(&mut src_of(&[0x81, 0x80])), Ok(128));
    assert_eq!(read_ber(&mut src_of(&[0x82, 0x3F, 0xFF])), Ok(16_383));
    let mut largest = vec![0x90u8];
    largest.extend_from_slice(&[0xFF; 16]);
    assert_eq!(read_ber(&mut src_of(&largest)), Ok(u128::MAX));
}

#[test]
fn read_ber_consumes_exactly_the_encoding() {
    let mut src = src_of(&[0x7F, 0xAA]);
    assert_eq!(read_ber(&mut src), Ok(127));
    assert_eq!(src.position(), 1);
    let mut src = src_of(&[0x81, 0x80, 0xAA]);
    assert_eq!(read_ber(&mut src), Ok(128));
    assert_eq!(src.position(), 2);
}

#[test]
fn read_ber_empty_and_truncated_are_io_errors() {
    assert_eq!(read_ber(&mut src_of(&[])), Err(Error::UnexpectedEof));
    assert_eq!(read_ber(&mut src_of(&[0x81])), Err(Error::UnexpectedEof));
}

#[test]
fn read_ber_zero_count_header_is_malformed() {
    assert_eq!(read_ber(&mut src_of(&[0x80, 0x01])), Err(Error::MalformedLongForm));
}

#[test]
fn read_ber_over_128_significant_bits_is_overflow() {
    let mut too_large = vec![0x91u8, 0x01];
    too_large.extend_from_slice(&[0x00; 16]);
    assert_eq!(read_ber(&mut src_of(&too_large)), Err(Error::Overflow));
}

#[test]
fn read_ber_long_form_reads_declared_count() {
    let mut src = src_of(&[0x12, 0x34, 0x56]);
    assert_eq!(read_ber_long_form(&mut src, 2), Ok(0x1234));
    assert_eq!(src.position(), 2);
}

#[test]
fn read_ber_oid_single_byte_values() {
    assert_eq!(read_ber_oid(&mut src_of(&[0x00])), Ok(0));
    assert_eq!(read_ber_oid(&mut src_of(&[0x01])), Ok(1));
    assert_eq!(read_ber_oid(&mut src_of(&[0x7F])), Ok(127));
}

#[test]
fn read_ber_oid_multi_byte_values() {
    assert_eq!(read_ber_oid(&mut src_of(&[0x81, 0x00])), Ok(128));
    assert_eq!(read_ber_oid(&mut src_of(&[0xFF, 0x7F])), Ok(16_383));
    let mut largest = vec![0x83u8];
    largest.extend_from_slice(&[0xFF; 17]);
    largest.push(0x7F);
    assert_eq!(read_ber_oid(&mut src_of(&largest)), Ok(u128::MAX));
}

#[test]
fn read_ber_oid_empty_and_unterminated_are_io_errors() {
    assert_eq!(read_ber_oid(&mut src_of(&[])), Err(Error::UnexpectedEof));
    assert_eq!(read_ber_oid(&mut src_of(&[0x81])), Err(Error::UnexpectedEof));
}

#[test]
fn read_ber_oid_over_128_significant_bits_is_overflow() {
    let mut too_large = vec![0x84u8];
    too_large.extend_from_slice(&[0x80; 17]);
    too_large.push(0x00);
    assert_eq!(read_ber_oid(&mut src_of(&too_large)), Err(Error::Overflow));
}

#[test]
fn read_integer_widths_zero_min_max() {
    assert_eq!(read_integer(&mut src_of(&[0x00]), 1), Ok(Integer::I8(0)));
    assert_eq!(read_integer(&mut src_of(&[0x80]), 1), Ok(Integer::I8(i8::MIN)));
    assert_eq!(read_integer(&mut src_of(&[0x7F]), 1), Ok(Integer::I8(i8::MAX)));
    assert_eq!(read_integer(&mut src_of(&[0x00, 0x00]), 2), Ok(Integer::I16(0)));
    assert_eq!(read_integer(&mut src_of(&[0x80, 0x00]), 2), Ok(Integer::I16(i16::MIN)));
    assert_eq!(read_integer(&mut src_of(&[0x7F, 0xFF]), 2), Ok(Integer::I16(i16::MAX)));
    assert_eq!(read_integer(&mut src_of(&[0x00; 4]), 4), Ok(Integer::I32(0)));
    assert_eq!(
        read_integer(&mut src_of(&[0x80, 0x00, 0x00, 0x00]), 4),
        Ok(Integer::I32(i32::MIN))
    );
    assert_eq!(
        read_integer(&mut src_of(&[0x7F, 0xFF, 0xFF, 0xFF]), 4),
        Ok(Integer::I32(i32::MAX))
    );
    assert_eq!(read_integer(&mut src_of(&[0x00; 8]), 8), Ok(Integer::I64(0)));
    let mut min64 = vec![0x80u8];
    min64.extend_from_slice(&[0x00; 7]);
    assert_eq!(read_integer(&mut src_of(&min64), 8), Ok(Integer::I64(i64::MIN)));
    let mut max64 = vec![0x7Fu8];
    max64.extend_from_slice(&[0xFF; 7]);
    assert_eq!(read_integer(&mut src_of(&max64), 8), Ok(Integer::I64(i64::MAX)));
    assert_eq!(read_integer(&mut src_of(&[0x00; 16]), 16), Ok(Integer::I128(0)));
    let mut min128 = vec![0x80u8];
    min128.extend_from_slice(&[0x00; 15]);
    assert_eq!(read_integer(&mut src_of(&min128), 16), Ok(Integer::I128(i128::MIN)));
    let mut max128 = vec![0x7Fu8];
    max128.extend_from_slice(&[0xFF; 15]);
    assert_eq!(read_integer(&mut src_of(&max128), 16), Ok(Integer::I128(i128::MAX)));
}

#[test]
fn read_integer_odd_widths_widen_with_sign() {
    assert_eq!(read_integer(&mut src_of(&[0xFF, 0xFF, 0xFF]), 3), Ok(Integer::I32(-1)));
    assert_eq!(read_integer(&mut src_of(&[0x00, 0x00, 0x2A]), 3), Ok(Integer::I32(42)));
    assert_eq!(
        read_integer(&mut src_of(&[0xFF, 0xFF, 0xFF, 0xFF, 0xFE]), 5),
        Ok(Integer::I64(-2))
    );
}

#[test]
fn read_integer_all_ones_is_minus_one_for_every_wide_length() {
    for length in 9..=16u8 {
        let bytes = vec![0xFFu8; length as usize];
        assert_eq!(
            read_integer(&mut src_of(&bytes), length),
            Ok(Integer::I128(-1)),
            "length {} should widen all-ones to -1",
            length
        );
    }
}

#[test]
fn read_integer_truncated_input_is_io_error() {
    assert_eq!(read_integer(&mut src_of(&[]), 2), Err(Error::UnexpectedEof));
    assert_eq!(read_integer(&mut src_of(&[0x81]), 2), Err(Error::UnexpectedEof));
}

#[test]
fn read_integer_invalid_lengths_are_decoding_errors() {
    let data: Vec<u8> = (0x00..=0x0F).collect();
    assert_eq!(
        read_integer(&mut src_of(&data), 17),
        Err(Error::DecodingError(IntegerKind::Signed))
    );
    assert_eq!(
        read_integer(&mut src_of(&[0x00]), 0),
        Err(Error::DecodingError(IntegerKind::Signed))
    );
}

#[test]
fn read_integer_invalid_length_consumes_nothing() {
    let mut src = src_of(&[0x01, 0x02]);
    assert!(read_integer(&mut src, 0).is_err());
    assert_eq!(src.position(), 0);
    assert!(read_integer(&mut src, 17).is_err());
    assert_eq!(src.position(), 0);
}

#[test]
fn read_unsigned_integer_widths_zero_min_max() {
    assert_eq!(read_unsigned_integer(&mut src_of(&[0x00]), 1), Ok(UnsignedInteger::U8(0)));
    assert_eq!(read_unsigned_integer(&mut src_of(&[0xFF]), 1), Ok(UnsignedInteger::U8(u8::MAX)));
    assert_eq!(read_unsigned_integer(&mut src_of(&[0x00; 2]), 2), Ok(UnsignedInteger::U16(0)));
    assert_eq!(
        read_unsigned_integer(&mut src_of(&[0xFF; 2]), 2),
        Ok(UnsignedInteger::U16(u16::MAX))
    );
    assert_eq!(read_unsigned_integer(&mut src_of(&[0x00; 4]), 4), Ok(UnsignedInteger::U32(0)));
    assert_eq!(
        read_unsigned_integer(&mut src_of(&[0xFF; 4]), 4),
        Ok(UnsignedInteger::U32(u32::MAX))
    );
    assert_eq!(read_unsigned_integer(&mut src_of(&[0x00; 8]), 8), Ok(UnsignedInteger::U64(0)));
    assert_eq!(
        read_unsigned_integer(&mut src_of(&[0xFF; 8]), 8),
        Ok(UnsignedInteger::U64(u64::MAX))
    );
    assert_eq!(read_unsigned_integer(&mut src_of(&[0x00; 16]), 16), Ok(UnsignedInteger::U128(0)));
    assert_eq!(
        read_unsigned_integer(&mut src_of(&[0xFF; 16]), 16),
        Ok(UnsignedInteger::U128(u128::MAX))
    );
}

#[test]
fn read_unsigned_integer_odd_widths_zero_extend() {
    assert_eq!(
        read_unsigned_integer(&mut src_of(&[0xFF, 0xFF, 0xFF]), 3),
        Ok(UnsignedInteger::U32(0x00FF_FFFF))
    );
    let bytes = vec![0xFFu8; 9];
    assert_eq!(
        read_unsigned_integer(&mut src_of(&bytes), 9),
        Ok(UnsignedInteger::U128(0x00FF_FFFF_FFFF_FFFF_FFFF))
    );
}

#[test]
fn read_unsigned_integer_truncated_input_is_io_error() {
    assert_eq!(read_unsigned_integer(&mut src_of(&[]), 2), Err(Error::UnexpectedEof));
    assert_eq!(read_unsigned_integer(&mut src_of(&[0x81]), 2), Err(Error::UnexpectedEof));
}

#[test]
fn read_unsigned_integer_invalid_lengths_are_decoding_errors() {
    let data: Vec<u8> = (0x00..=0x0F).collect();
    assert_eq!(
        read_unsigned_integer(&mut src_of(&data), 17),
        Err(Error::DecodingError(IntegerKind::Unsigned))
    );
    assert_eq!(
        read_unsigned_integer(&mut src_of(&[0x00]), 0),
        Err(Error::DecodingError(IntegerKind::Unsigned))
    );
}

#[test]
fn exact_width_signed_readers() {
    assert_eq!(read_i8(&mut src_of(&[0xFE])), Ok(-2));
    assert_eq!(read_i16(&mut src_of(&[0xFF, 0xFE])), Ok(-2));
    assert_eq!(read_i32(&mut src_of(&[0x00, 0x00, 0x12, 0x34])), Ok(0x1234));
    assert_eq!(read_i64(&mut src_of(&[0xFF; 8])), Ok(-1));
    assert_eq!(read_i128(&mut src_of(&[0xFF; 16])), Ok(-1));
    assert_eq!(read_i8(&mut src_of(&[])), Err(Error::UnexpectedEof));
}

#[test]
fn exact_width_unsigned_readers() {
    assert_eq!(read_u8(&mut src_of(&[0xFE])), Ok(0xFE));
    assert_eq!(read_u16(&mut src_of(&[0x12, 0x34])), Ok(0x1234));
    assert_eq!(read_u32(&mut src_of(&[0x00, 0x01, 0x02, 0x03])), Ok(0x0001_0203));
    assert_eq!(read_u64(&mut src_of(&[0xFF; 8])), Ok(u64::MAX));
    assert_eq!(read_u128(&mut src_of(&[0xFF; 16])), Ok(u128::MAX));
    assert_eq!(read_u16(&mut src_of(&[0x12])), Err(Error::UnexpectedEof));
}
