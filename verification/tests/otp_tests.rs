use totp_cli::otp::{counter_bytes, hotp, hotp_raw, step_counter, totp, truncate};

#[test]
fn get_hotp_no_counter() {
    let assertions = [
        (124_111, "Hello world!"),
        (654_079, "it works!"),
        (722_283, "yes it does!"),
    ];

    for (expected, secret) in assertions {
        let result = hotp(secret, 0);
        assert_eq!(expected, result);
    }
}

#[test]
fn otp_get_totp() {
    // Want make sure that something is returned.
    // We cannot, assert on specific values, since the current time
    // changes all the time.
    assert!(totp("hello", 30).unwrap() > 0);
}

#[test]
fn get_hotp() {
    let assertions = [
        (124_111, "Hello world!"),
        (654_079, "it works!"),
        (722_283, "yes it does!"),
    ];

    for (expected, secret) in assertions {
        let result = hotp(secret, 0);
        assert_eq!(expected, result);
    }
}

#[test]
fn rfc4226_test_vectors() {
    // RFC 4226, appendix D: key "12345678901234567890".
    let key = b"12345678901234567890";
    let expected_values: [u32; 10] = [
        1284755224, 1094287082, 137359152, 1726969429, 1640338314, 868254676, 1918287922,
        82162583, 673399871, 645520489,
    ];
    let expected_codes: [u32; 10] =
        [755224, 287082, 359152, 969429, 338314, 254676, 287922, 162583, 399871, 520489];
    for counter in 0..10u64 {
        assert_eq!(hotp_raw(key, counter), expected_values[counter as usize]);
        assert_eq!(hotp("12345678901234567890", counter), expected_codes[counter as usize]);
    }
}

#[test]
fn dynamic_truncation_example() {
    // RFC 4226, section 5.4.
    let mac = [
        0x1f, 0x86, 0x98, 0x69, 0x0e, 0x02, 0xca, 0x16, 0x61, 0x85, 0x50, 0xef, 0x7f, 0x19, 0xda,
        0x8e, 0x94, 0x5b, 0x55, 0x5a,
    ];
    assert_eq!(truncate(&mac), 0x50ef7f19);
    assert_eq!(truncate(&mac) % 1_000_000, 872921);
}

#[test]
fn counter_is_big_endian() {
    assert_eq!(counter_bytes(0x0102030405060708), vec![1, 2, 3, 4, 5, 6, 7, 8]);
    assert_eq!(counter_bytes(0), vec![0; 8]);
}

#[test]
fn step_counter_counts_whole_steps() {
    assert_eq!(step_counter(59, 30), 1);
    assert_eq!(step_counter(60, 30), 2);
    assert_eq!(step_counter(1_584_140_400, 30), 52_804_680);
}
