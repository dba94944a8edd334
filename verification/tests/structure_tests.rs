use klv::byte_source::ByteSource;
use klv::encoding::Error;
use klv::klv::Klv;
use klv::local_set::LocalSet;
use klv::read_tag_number;
use klv::universal_set::UniversalKey;
use klv::universal_set::UniversalSet;
use klv::universal_set::UNIVERSAL_KEY_LENGTH;

const TEST_UNIVERSAL_KEY: [u8; UNIVERSAL_KEY_LENGTH] = [
    0x06, 0x0E, 0x2B, 0x34, 0x02, 0x0B, 0x01, 0x01, 0x0E, 0x01, 0x03, 0x01, 0x01, 0x00, 0x00,
    0x00,
];

fn multiple_uset_buf() -> Vec<u8> {
    let mut buf = Vec::new();
    // Byte before the key starts
    buf.push(0x06);
    buf.extend_from_slice(&TEST_UNIVERSAL_KEY); // Starts at index 1
    buf.push(0x04);
    buf.extend_from_slice(&[0x01, 0x02, 0x03, 0x04]);
    // Bytes that should not be included in either universal set
    buf.extend_from_slice(&[0xFF, 0xFF, 0x06]);
    buf.extend_from_slice(&TEST_UNIVERSAL_KEY);
    buf.push(0x07);
    buf.extend_from_slice(&[0x01, 0x01, 0x02]);
    buf.extend_from_slice(&[0x02, 0x02, 0x04, 0x08]);
    buf
}

#[test]
fn test_read_all() {
    let ukey = UniversalKey::new(TEST_UNIVERSAL_KEY);
    let mut src = ByteSource::new(multiple_uset_buf());
    let sets = UniversalSet::read_all(&ukey, &mut src).unwrap();

    assert_eq!(sets.len(), 2, "Number of universal sets found is incorrect");
    let first_uset = sets.first().unwrap();
    assert_eq!(
        first_uset.data().len(),
        1,
        "Number of KLV triplets in first universal set is incorrect"
    );
    let only_klv = first_uset.data().get(0);
    assert_eq!(
        only_klv.tag(),
        1,
        "Parsed tag value for only KLV triplet in first universal set in incorrect"
    );
    assert_eq!(
        only_klv.length(),
        2,
        "Parsed length for only KLV triplet in first universal set in incorrect"
    );
    assert_eq!(
        only_klv.read_value(&mut src).unwrap(),
        vec![0x03, 0x04],
        "Parsed value for only KLV triplet in first universal set in incorrect"
    );
}

#[test]
fn test_read_all_second_set_contents() {
    let ukey = UniversalKey::new(TEST_UNIVERSAL_KEY);
    let mut src = ByteSource::new(multiple_uset_buf());
    let sets = UniversalSet::read_all(&ukey, &mut src).unwrap();
    let second = &sets[1];
    assert_eq!(second.data().len(), 2);
    assert_eq!(second.data().get(0).tag(), 1);
    assert_eq!(second.data().get(0).read_value(&mut src).unwrap(), vec![0x02]);
    assert_eq!(second.data().get(1).tag(), 2);
    assert_eq!(second.data().get(1).read_value(&mut src).unwrap(), vec![0x04, 0x08]);
}

#[test]
fn start_locations_one_at_beginning() {
    let mut buf = TEST_UNIVERSAL_KEY.to_vec();
    buf.extend_from_slice(&[0x02, 0x01, 0x01]);
    let ukey = UniversalKey::new(TEST_UNIVERSAL_KEY);
    let mut src = ByteSource::new(buf);
    assert_eq!(UniversalSet::start_locations(&ukey, &mut src).unwrap(), vec![0]);
}

#[test]
fn start_locations_one_at_offset() {
    let mut buf = vec![0x06u8];
    buf.extend_from_slice(&TEST_UNIVERSAL_KEY);
    buf.extend_from_slice(&[0x02, 0x01, 0x00]);
    let ukey = UniversalKey::new(TEST_UNIVERSAL_KEY);
    let mut src = ByteSource::new(buf);
    assert_eq!(UniversalSet::start_locations(&ukey, &mut src).unwrap(), vec![1]);
}

#[test]
fn start_locations_two_at_offset() {
    let ukey = UniversalKey::new(TEST_UNIVERSAL_KEY);
    let mut src = ByteSource::new(multiple_uset_buf());
    assert_eq!(UniversalSet::start_locations(&ukey, &mut src).unwrap(), vec![1, 25]);
}

#[test]
fn start_locations_short_source_finds_nothing() {
    let ukey = UniversalKey::new(TEST_UNIVERSAL_KEY);
    let mut src = ByteSource::new(TEST_UNIVERSAL_KEY[..15].to_vec());
    assert_eq!(UniversalSet::start_locations(&ukey, &mut src).unwrap(), Vec::<u64>::new());
}

#[test]
fn start_locations_skips_key_pattern_inside_value() {
    // The whole universal key appears again as the 16 value bytes of the
    // first match; the scan must seek past the value and report one
    // match, not two.
    let mut buf = TEST_UNIVERSAL_KEY.to_vec();
    buf.push(0x10);
    buf.extend_from_slice(&TEST_UNIVERSAL_KEY);
    let ukey = UniversalKey::new(TEST_UNIVERSAL_KEY);
    let mut src = ByteSource::new(buf);
    assert_eq!(UniversalSet::start_locations(&ukey, &mut src).unwrap(), vec![0]);
}

#[test]
fn end_to_end_single_set() {
    // A key, a length field of 4, and four value bytes that form one
    // nested triplet: tag 1, length 2, value [0x03, 0x04].
    let mut buf = TEST_UNIVERSAL_KEY.to_vec();
    buf.extend_from_slice(&[0x04, 0x01, 0x02, 0x03, 0x04]);
    let ukey = UniversalKey::new(TEST_UNIVERSAL_KEY);
    let mut src = ByteSource::new(buf);
    let sets = UniversalSet::read_all(&ukey, &mut src).unwrap();
    assert_eq!(sets.len(), 1);
    assert_eq!(sets[0].data().len(), 1);
    let only = sets[0].data().get(0);
    assert_eq!(only.tag(), 1);
    assert_eq!(only.length(), 2);
    assert_eq!(only.read_value(&mut src).unwrap(), vec![0x03, 0x04]);
    assert_eq!(sets[0].key().as_bytes(), &TEST_UNIVERSAL_KEY);
}

#[test]
fn end_to_end_unparseable_payload_fails_fast() {
    // The four value bytes declare a nested triplet that would run past
    // the local set's span, so the whole read aborts.
    let mut buf = TEST_UNIVERSAL_KEY.to_vec();
    buf.extend_from_slice(&[0x04, 0x01, 0x03, 0xAA, 0xBB]);
    buf.extend_from_slice(&[0xCC, 0xDD]);
    let ukey = UniversalKey::new(TEST_UNIVERSAL_KEY);
    let mut src = ByteSource::new(buf);
    assert_eq!(UniversalSet::read_all(&ukey, &mut src).unwrap_err(), Error::MalformedSpan);
}

#[test]
fn klv_new_reads_tag_length_and_skips_value() {
    let mut src = ByteSource::new(vec![0x01, 0x02, 0x03, 0x04, 0x05]);
    let klv = Klv::new(&mut src).unwrap();
    assert_eq!(klv.tag(), 1);
    assert_eq!(klv.length(), 2);
    assert_eq!(src.position(), 4, "cursor must sit just past the unread value");
    assert_eq!(klv.read_value(&mut src).unwrap(), vec![0x03, 0x04]);
}

#[test]
fn klv_new_rejects_value_past_end_of_source() {
    let mut src = ByteSource::new(vec![0x01, 0x7F, 0x03]);
    assert_eq!(Klv::new(&mut src).unwrap_err(), Error::UnexpectedEof);
}

#[test]
fn klv_read_value_is_idempotent_and_restores_position() {
    let mut src = ByteSource::new(vec![0x01, 0x02, 0x03, 0x04, 0x05]);
    let klv = Klv::new(&mut src).unwrap();
    src.seek(1);
    let before = src.position();
    let first = klv.read_value(&mut src).unwrap();
    let second = klv.read_value(&mut src).unwrap();
    assert_eq!(first, second, "repeated value reads must be byte-identical");
    assert_eq!(src.position(), before, "value reads must not move the shared cursor");
    assert_eq!(first, vec![0x03, 0x04]);
}

#[test]
fn klv_read_length_rejects_lengths_past_u64() {
    // A BER long form of nine 0xFF bytes decodes fine as a number but
    // cannot serve as a 64-bit byte count.
    let mut buf = vec![0x89u8];
    buf.extend_from_slice(&[0xFF; 9]);
    let mut src = ByteSource::new(buf);
    assert_eq!(Klv::read_length(&mut src).unwrap_err(), Error::Overflow);
}

#[test]
fn read_tag_number_decodes_ber_oid() {
    let mut src = ByteSource::new(vec![0x81, 0x00]);
    assert_eq!(read_tag_number(&mut src), Ok(128));
}

#[test]
fn local_set_orders_by_tag_and_keeps_last_duplicate() {
    // Tags arrive as 2, 1, 2: iteration is ascending by tag and the
    // later tag-2 triplet replaces the earlier one.
    let buf = vec![
        0x02, 0x01, 0xAA, // tag 2, value [0xAA]
        0x01, 0x01, 0xBB, // tag 1, value [0xBB]
        0x02, 0x01, 0xCC, // tag 2 again, value [0xCC]
    ];
    let mut src = ByteSource::new(buf);
    let ls = LocalSet::read(0, 9, &mut src).unwrap();
    assert_eq!(ls.len(), 2);
    assert_eq!(ls.get(0).tag(), 1);
    assert_eq!(ls.get(1).tag(), 2);
    assert_eq!(ls.get(0).read_value(&mut src).unwrap(), vec![0xBB]);
    assert_eq!(ls.get(1).read_value(&mut src).unwrap(), vec![0xCC], "the later triplet wins");
    let by_tag = ls.get_tag(2).unwrap();
    assert_eq!(by_tag.read_value(&mut src).unwrap(), vec![0xCC]);
    assert!(ls.get_tag(3).is_none());
}

#[test]
fn local_set_empty_span_has_no_triplets() {
    let mut src = ByteSource::new(vec![0x01, 0x02]);
    let ls = LocalSet::read(1, 1, &mut src).unwrap();
    assert_eq!(ls.len(), 0);
}

#[test]
fn local_set_overshooting_triplet_is_malformed() {
    // The triplet declares three value bytes but the span ends after
    // two of them.
    let mut src = ByteSource::new(vec![0x01, 0x03, 0xAA, 0xBB, 0xCC]);
    assert_eq!(LocalSet::read(0, 4, &mut src).unwrap_err(), Error::MalformedSpan);
}

#[test]
fn local_set_backwards_span_is_malformed() {
    let mut src = ByteSource::new(vec![0x01, 0x01, 0xAA]);
    assert_eq!(LocalSet::read(3, 0, &mut src).unwrap_err(), Error::MalformedSpan);
}

#[test]
fn byte_source_position_tracking() {
    let mut src = ByteSource::new(vec![0x10, 0x20, 0x30]);
    assert_eq!(src.len(), 3);
    assert_eq!(src.position(), 0);
    assert_eq!(src.read_byte(), Some(0x10));
    assert_eq!(src.position(), 1);
    assert_eq!(src.read_bytes(2), Some(vec![0x20, 0x30]));
    assert_eq!(src.read_byte(), None);
    src.seek(1);
    assert_eq!(src.remaining(), 2);
    src.skip(10);
    assert_eq!(src.position(), 3, "skipping clamps at the end of the data");
}

#[test]
fn local_set_codec_error_propagates() {
    let mut src = ByteSource::new(vec![0x01, 0x80, 0xAA]);
    assert_eq!(LocalSet::read(0, 3, &mut src).unwrap_err(), Error::MalformedLongForm);
}
