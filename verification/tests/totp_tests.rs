use totp_cli::totp::{duration_used, pow10_u32, Totp};

#[test]
fn totp_code_calculation_is_correct() {
    let march_14_2020: u64 = 1_584_140_400;

    let test_data = [
        (
            954_926,
            Totp::new("Acme Inc.", "NBSWY3DPEBXWIZLOMUVZWK4Q=", 6, 30),
        ),
        (711_370, Totp::new("Gizmo Corporation", "MFRGGZDF", 6, 30)),
        (
            672_595,
            Totp::new("Foo Industries", "MZXW6YTBOI======", 6, 30),
        ),
        (
            333_890,
            Totp::new("Bar Enterprises", "JBSWY3DPFQQFO33SNRSCC===", 6, 30),
        ),
    ];

    for (expected, totp) in test_data {
        assert_eq!(expected, totp.code(march_14_2020));
    }
}

#[test]
fn rfc6238_test_vectors() {
    // RFC 6238, appendix B, SHA-1 rows: the key "12345678901234567890" in base32.
    let totp = Totp::new("rfc", "GEZDGNBVGY3TQOJQGEZDGNBVGY3TQOJQ", 8, 30);
    assert!(totp.is_valid());
    assert_eq!(totp.code_padded(59), "94287082");
    assert_eq!(totp.code_padded(1111111109), "07081804");
    assert_eq!(totp.code_padded(1111111111), "14050471");
    assert_eq!(totp.code_padded(1234567890), "89005924");
    assert_eq!(totp.code_padded(2000000000), "69279037");
    assert_eq!(totp.code_padded(20000000000), "65353130");
}

#[test]
fn lower_case_secret_gives_the_same_code() {
    let upper = Totp::new("a", "MFRGGZDF", 6, 30);
    let lower = Totp::new("a", "mfrggzdf", 6, 30);
    assert_eq!(upper.code(1_584_140_400), lower.code(1_584_140_400));
}

#[test]
fn code_is_zero_padded_to_the_digits() {
    let totp = Totp::new("Foo Industries", "32XWIZLOMUVZWK4Q=", 6, 30);
    assert_eq!(totp.code_padded(1_584_188_800), "022136");
    let short = Totp::new("x", "MFRGGZDF", 1, 30);
    assert_eq!(short.code_padded(1_584_140_400).len(), 1);
    let none = Totp::new("x", "MFRGGZDF", 0, 30);
    assert_eq!(none.code_padded(1_584_140_400), "0");
}

#[test]
fn validity_of_settings() {
    assert!(Totp::new("a", "MFRGGZDF", 6, 30).is_valid());
    assert!(Totp::new("a", "mfrg gzdf", 6, 30).is_valid() == false);
    assert!(!Totp::new("a", "8n4mzt7w", 6, 30).is_valid());
    assert!(!Totp::new("a", "MFRGGZDF", 6, 0).is_valid());
    assert!(!Totp::new("a", "MFRGGZDF", 10, 30).is_valid());
    assert!(Totp::new("a", "", 9, 1).is_valid());
}

#[test]
fn powers_of_ten() {
    assert_eq!(pow10_u32(0), 1);
    assert_eq!(pow10_u32(6), 1_000_000);
    assert_eq!(pow10_u32(9), 1_000_000_000);
}

#[test]
fn duration_used_is_the_remainder() {
    assert_eq!(duration_used(30, 1_584_140_400), 0);
    assert_eq!(duration_used(30, 1_584_140_429), 29);
    assert_eq!(duration_used(30, 1_584_140_431), 1);
}

#[test]
fn code_changes_only_when_a_new_step_starts() {
    let totp = Totp::new("Gizmo Corporation", "MFRGGZDF", 6, 30);
    let start: u64 = 1_584_140_400;
    assert_eq!(duration_used(30, start), 0);
    for offset in 0..30 {
        assert_eq!(totp.code(start + offset), totp.code(start));
    }
    assert_eq!(duration_used(30, start + 30), 0);
    assert_ne!(totp.code(start + 30), totp.code(start + 29));
}
