use gdpr_consent::{ConsentString, Purpose, Purposes, SConsentString, Timestamp};

#[test]
fn summary_of_canonical_sample() {
    let cs = ConsentString::parse("BOEFEAyOEFEAyAHABDENAI4AAAB9vABAASA").unwrap();
    let s = SConsentString::new(&cs);
    assert_eq!(s.version, 1);
    assert_eq!(s.created, 15100821554);
    assert_eq!(s.last_updated, 15100821554);
    assert_eq!(s.cmp_id, 7);
    assert_eq!(s.cmp_version, 1);
    assert_eq!(s.consent_screen, 3);
    assert_eq!(s.consent_language, "en");
    assert_eq!(s.vendor_list_version, 8);
    assert_eq!(s.purposes_allowed, vec![1, 2, 3]);
    assert_eq!(s.max_vendor_id, 2011);
    let expected: Vec<u16> = (1..=2011).filter(|&i| i != 9).collect();
    assert_eq!(s.vendor_consents, expected);
}

#[test]
fn timestamp_parts() {
    let t = Timestamp { deciseconds: 15100821554 };
    assert_eq!(t.seconds(), 1510082155);
    assert_eq!(t.subsec_millis(), 400);
    assert_eq!(t.subsec_nanos(), 400_000_000);
    let z = Timestamp { deciseconds: 0 };
    assert_eq!(z.seconds(), 0);
    assert_eq!(z.subsec_nanos(), 0);
}

#[test]
fn purpose_numbers_and_masks() {
    assert_eq!(Purpose::StorageAndAccess.number(), 1);
    assert_eq!(Purpose::Measurement.number(), 5);
    assert_eq!(Purpose::from_number(3), Purpose::AdSelection);
    assert_eq!(Purpose::ContentDelivery.mask(), 8);
    assert_eq!(Purpose::Measurement.mask(), 16);
    let p = Purposes::from_raw(0b10010);
    assert!(p.contains(Purpose::Personalization));
    assert!(p.contains(Purpose::Measurement));
    assert!(!p.contains(Purpose::StorageAndAccess));
}
