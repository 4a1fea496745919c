use gdpr_consent::{BitDecoder, ConsentString, DecodeError, Field, Purpose, Purposes, Value};

const ALPHABET: &[u8] = b"ABCDEFGHIJKLMNOPQRSTUVWXYZabcdefghijklmnopqrstuvwxyz0123456789-_";

fn field(v: u64, width: usize) -> String {
    (0..width).rev().map(|i| if (v >> i) & 1 == 1 { '1' } else { '0' }).collect()
}

fn encode(bits: &str) -> String {
    let mut padded = bits.to_string();
    while padded.len() % 6 != 0 {
        padded.push('0');
    }
    padded
        .as_bytes()
        .chunks(6)
        .map(|c| {
            let v = c.iter().fold(0usize, |a, b| a * 2 + (*b - b'0') as usize);
            ALPHABET[v] as char
        })
        .collect()
}

fn header(max_vendor_id: u64) -> String {
    let mut h = String::new();
    h += &field(1, 6);
    h += &field(15100821554, 36);
    h += &field(15100821554, 36);
    h += &field(7, 12);
    h += &field(1, 12);
    h += &field(3, 6);
    h += &field(4, 6);
    h += &field(13, 6);
    h += &field(8, 12);
    h += &field(0b111000000000000000000000, 24);
    h += &field(max_vendor_id, 16);
    h
}

fn range_input(max: u64, default: bool, entries: &[(u64, u64)]) -> String {
    let mut b = header(max);
    b += "1";
    b += if default { "1" } else { "0" };
    b += &field(entries.len() as u64, 12);
    for &(start, end) in entries {
        if start == end {
            b += "0";
            b += &field(start, 16);
        } else {
            b += "1";
            b += &field(start, 16);
            b += &field(end, 16);
        }
    }
    encode(&b)
}

#[test]
fn it_works() {
    let input = "BOEFEAyOEFEAyAHABDENAI4AAAB9vABAASA";
    let consent_string = ConsentString::parse(input).unwrap();

    assert_eq!(consent_string.version, 1);
    let expected_time = chrono::DateTime::from_timestamp(1510082155, 400_000_000).unwrap();
    let created = chrono::DateTime::from_timestamp(
        consent_string.created.seconds() as i64,
        consent_string.created.subsec_nanos(),
    )
    .unwrap();
    let last_updated = chrono::DateTime::from_timestamp(
        consent_string.last_updated.seconds() as i64,
        consent_string.last_updated.subsec_nanos(),
    )
    .unwrap();
    assert_eq!(created, expected_time);
    assert_eq!(last_updated, expected_time);
    assert_eq!(consent_string.cmp_id, 7);
    assert_eq!(consent_string.cmp_version, 1);
    assert_eq!(consent_string.consent_screen, 3);
    assert_eq!(consent_string.consent_language, ['e', 'n']);
    assert_eq!(consent_string.vendor_list_version, 8);
    assert_eq!(
        consent_string.purposes_allowed,
        Purposes::from_raw(
            Purpose::StorageAndAccess.mask()
                | Purpose::Personalization.mask()
                | Purpose::AdSelection.mask()
        )
    );
    assert_eq!(consent_string.max_vendor_id, 2011);
    let mut consents = vec![true; 2012];
    consents[0] = false;
    consents[9] = false;
    assert_eq!(consent_string.vendor_consents, consents);
}

#[test]
fn thingie_iter() {
    let words: Vec<char> = vec!['c', 'c'];
    let mut bc = BitDecoder::new(words);
    assert_eq!(Ok(3), bc.take(3));
    assert_eq!(Ok(8), bc.take(4));
    assert_eq!(Ok(7), bc.take(3));
    assert_eq!(Err(DecodeError::TruncatedInput), bc.take(3));
}

#[test]
fn canonical_sample_timestamps_in_deciseconds() {
    let cs = ConsentString::parse("BOEFEAyOEFEAyAHABDENAI4AAAB9vABAASA").unwrap();
    assert_eq!(cs.created.deciseconds, 15100821554);
    assert_eq!(cs.last_updated.deciseconds, 15100821554);
    assert_eq!(cs.created.subsec_millis(), 400);
    assert!(cs.purposes_allowed.contains(Purpose::AdSelection));
    assert!(!cs.purposes_allowed.contains(Purpose::ContentDelivery));
    assert_eq!(cs.vendor_consents.len(), cs.max_vendor_id as usize + 1);
    assert!(!cs.vendor_consents[0]);
}

#[test]
fn empty_input_is_truncated() {
    assert_eq!(ConsentString::parse("").unwrap_err(), DecodeError::TruncatedInput);
}

#[test]
fn first_fields_only_is_truncated() {
    assert_eq!(ConsentString::parse("BOEFEAyOEF").unwrap_err(), DecodeError::TruncatedInput);
    let mut bd = BitDecoder::new("BOEFEAyOEF".chars().collect());
    assert_eq!(bd.take(6), Ok(1));
    assert_eq!(bd.take(36), Ok(15100821554));
    assert_eq!(bd.take(36), Err(DecodeError::TruncatedInput));
}

#[test]
fn invalid_character_is_an_error() {
    assert_eq!(
        ConsentString::parse("BOEFEAy*EFEAyAHABDENAI4AAAB9vABAASA").unwrap_err(),
        DecodeError::InvalidCharacter
    );
    let mut bd = BitDecoder::new(vec!['c', '=']);
    assert_eq!(bd.take(6), Ok(28));
    assert_eq!(bd.take(1), Err(DecodeError::InvalidCharacter));
}

#[test]
fn trailing_characters_are_ignored() {
    let cs = ConsentString::parse("BOEFEAyOEFEAyAHABDENAI4AAAB9vABAASA*").unwrap();
    assert_eq!(cs.max_vendor_id, 2011);
}

#[test]
fn language_letter_out_of_range() {
    let mut b = header(0);
    b.replace_range(108..114, &field(26, 6));
    b += "0";
    assert_eq!(ConsentString::parse(&encode(&b)).unwrap_err(), DecodeError::OutOfRange);
}

#[test]
fn zero_vendors_bitfield_mode() {
    let mut b = header(0);
    b += "0";
    let cs = ConsentString::parse(&encode(&b)).unwrap();
    assert_eq!(cs.max_vendor_id, 0);
    assert_eq!(cs.vendor_consents, vec![false]);
}

#[test]
fn zero_vendors_range_mode() {
    let cs = ConsentString::parse(&range_input(0, false, &[])).unwrap();
    assert_eq!(cs.vendor_consents, vec![false]);
}

#[test]
fn range_with_equal_ends_flips_one_vendor() {
    let mut b = header(30);
    b += "1";
    b += "0";
    b += &field(1, 12);
    b += "1";
    b += &field(12, 16);
    b += &field(12, 16);
    let cs = ConsentString::parse(&encode(&b)).unwrap();
    assert_eq!(cs.vendor_consents.len(), 31);
    let flipped: Vec<usize> = (0..=30).filter(|&i| cs.vendor_consents[i]).collect();
    assert_eq!(flipped, vec![12]);
}

#[test]
fn overlapping_entries_last_write_wins() {
    let cs = ConsentString::parse(&range_input(40, true, &[(5, 15), (10, 20), (12, 12)])).unwrap();
    assert!(!cs.vendor_consents[0]);
    for i in 1..=40 {
        assert_eq!(cs.vendor_consents[i], !(5..=20).contains(&i), "vendor {}", i);
    }
}

#[test]
fn range_mode_round_trip() {
    let cs = ConsentString::parse(&range_input(100, false, &[(10, 20), (50, 50)])).unwrap();
    assert_eq!(cs.vendor_consents.len(), 101);
    for i in 0..=100 {
        assert_eq!(cs.vendor_consents[i], (10..=20).contains(&i) || i == 50, "vendor {}", i);
    }
}

#[test]
fn range_mode_default_true() {
    let cs = ConsentString::parse(&range_input(10, true, &[(3, 3)])).unwrap();
    assert_eq!(
        cs.vendor_consents,
        vec![false, true, true, false, true, true, true, true, true, true, true]
    );
}

#[test]
fn range_mode_vendor_past_max_is_out_of_range() {
    assert_eq!(
        ConsentString::parse(&range_input(10, false, &[(11, 11)])).unwrap_err(),
        DecodeError::OutOfRange
    );
    assert_eq!(
        ConsentString::parse(&range_input(10, false, &[(5, 12)])).unwrap_err(),
        DecodeError::OutOfRange
    );
}

#[test]
fn range_mode_names_the_largest_vendor() {
    let cs = ConsentString::parse(&range_input(10, false, &[(10, 10)])).unwrap();
    assert_eq!(cs.vendor_consents.len(), 11);
    let flipped: Vec<usize> = (0..=10).filter(|&i| cs.vendor_consents[i]).collect();
    assert_eq!(flipped, vec![10]);
    let cs = ConsentString::parse(&range_input(10, true, &[(8, 10)])).unwrap();
    assert_eq!(
        cs.vendor_consents,
        vec![false, true, true, true, true, true, true, true, false, false, false]
    );
}

#[test]
fn range_mode_vendor_zero_names_no_slot() {
    let cs = ConsentString::parse(&range_input(5, true, &[(0, 0), (0, 2)])).unwrap();
    assert_eq!(cs.vendor_consents, vec![false, false, false, true, true, true]);
}

#[test]
fn range_mode_truncated_entry() {
    let mut b = header(10);
    b += "1";
    b += "0";
    b += &field(2, 12);
    b += "0";
    b += &field(3, 16);
    let text = encode(&b);
    assert_eq!(ConsentString::parse(&text).unwrap_err(), DecodeError::TruncatedInput);
}

#[test]
fn bitfield_mode_reads_each_slot() {
    let mut b = header(5);
    b += "0";
    b += "10110";
    let cs = ConsentString::parse(&encode(&b)).unwrap();
    assert_eq!(cs.vendor_consents, vec![false, true, false, true, true, false]);
    match Field::Consents.get(&cs) {
        Value::Vec(v) => assert_eq!(v, vec![1, 3, 4]),
        _ => panic!("consents should be a vector"),
    }
}

#[test]
fn single_purpose_bit() {
    let mut b = header(0);
    b.replace_range(132..156, &field(1 << (24 - 4), 24));
    b += "0";
    let cs = ConsentString::parse(&encode(&b)).unwrap();
    assert_eq!(cs.purposes_allowed.mask, 1 << 3);
    assert!(cs.purposes_allowed.contains(Purpose::ContentDelivery));
    assert!(!cs.purposes_allowed.contains(Purpose::StorageAndAccess));
    let mut b = header(0);
    b.replace_range(132..156, &field(1, 24));
    b += "0";
    let cs = ConsentString::parse(&encode(&b)).unwrap();
    assert_eq!(cs.purposes_allowed.mask, 1 << 23);
}

#[test]
fn partitioned_reads_join_to_single_read() {
    let text: Vec<char> = "BOEFEAyOEFEAyAHABDENAI4AAAB9vABAASA".chars().collect();
    let mut whole = BitDecoder::new(text.clone());
    whole.take(5).unwrap();
    let single = whole.take(64).unwrap();
    let mut parts = BitDecoder::new(text);
    parts.take(5).unwrap();
    let mut joined: u128 = 0;
    for w in [1u8, 7, 13, 2, 20, 21] {
        joined = (joined << w) | parts.take(w).unwrap() as u128;
    }
    assert_eq!(joined, single as u128);
}

#[test]
fn take_fields_matches_one_read() {
    let text: Vec<char> = "BOEFEAyOEFEAyAHABDENAI4AAAB9vABAASA".chars().collect();
    let mut whole = BitDecoder::new(text.clone());
    whole.take(5).unwrap();
    let single = whole.take(64).unwrap();
    let mut parts = BitDecoder::new(text);
    parts.take(5).unwrap();
    assert_eq!(parts.take_fields(&vec![1, 7, 13, 2, 20, 21]), Ok(single));
    assert_eq!(parts.take(6), whole.take(6));
    let mut one = BitDecoder::new(vec!['c', 'c']);
    assert_eq!(one.take_fields(&vec![3, 4, 3]), Ok(0b011_1000_111));
    let mut short = BitDecoder::new(vec!['c', 'c']);
    assert_eq!(short.take_fields(&vec![3, 4, 3, 3]), Err(DecodeError::TruncatedInput));
    let mut full = BitDecoder::new("__________-".chars().collect());
    assert_eq!(full.take_fields(&vec![64]), Ok(u64::MAX));
}

#[test]
fn decode_maps_the_alphabet() {
    assert_eq!(gdpr_consent::decode('A'), Some(0));
    assert_eq!(gdpr_consent::decode('Z'), Some(25));
    assert_eq!(gdpr_consent::decode('a'), Some(26));
    assert_eq!(gdpr_consent::decode('z'), Some(51));
    assert_eq!(gdpr_consent::decode('0'), Some(52));
    assert_eq!(gdpr_consent::decode('9'), Some(61));
    assert_eq!(gdpr_consent::decode('-'), Some(62));
    assert_eq!(gdpr_consent::decode('_'), Some(63));
    assert_eq!(gdpr_consent::decode('+'), None);
    assert_eq!(gdpr_consent::decode('='), None);
}
