use hls_m3u8::{Cause, EncryptionMethod, Error, InitializationVector, ProtocolVersion, Seconds};

fn bad(context: &str, cause: Cause) -> Error {
    Error::InvalidInput { context: context.to_string(), cause }
}

#[test]
fn versions_are_ordered_by_rank() {
    let all = [
        ProtocolVersion::V1,
        ProtocolVersion::V2,
        ProtocolVersion::V3,
        ProtocolVersion::V4,
        ProtocolVersion::V5,
        ProtocolVersion::V6,
        ProtocolVersion::V7,
    ];
    for (i, a) in all.iter().enumerate() {
        assert_eq!(a.rank() as usize, i + 1);
        assert_eq!(ProtocolVersion::from_rank(a.rank() as u64), Some(*a));
        for b in all.iter() {
            assert_eq!(a.at_least(*b), a.rank() >= b.rank());
            assert_eq!(a.higher(*b).rank(), a.rank().max(b.rank()));
            assert_eq!(a >= b, a.at_least(*b));
        }
    }
    assert_eq!(ProtocolVersion::lowest(), ProtocolVersion::V1);
    assert_eq!(ProtocolVersion::from_rank(0), None);
    assert_eq!(ProtocolVersion::from_rank(8), None);
    assert_eq!(ProtocolVersion::V2.higher(ProtocolVersion::V5), ProtocolVersion::V5);
}

#[test]
fn seconds_are_read_with_and_without_a_fraction() {
    let whole = Seconds::parse("10").unwrap();
    assert_eq!((whole.whole(), whole.nanos()), (10, 0));
    assert!(whole.is_whole());
    let half = Seconds::parse("3.5").unwrap();
    assert_eq!((half.whole(), half.nanos()), (3, 500_000_000));
    assert!(!half.is_whole());
    let fine = Seconds::parse("9.009").unwrap();
    assert_eq!((fine.whole(), fine.nanos()), (9, 9_000_000));
    let nano = Seconds::parse("0.000000001").unwrap();
    assert_eq!((nano.whole(), nano.nanos()), (0, 1));
    let most = Seconds::parse("18446744073709551615.999999999").unwrap();
    assert_eq!((most.whole(), most.nanos()), (u64::MAX, 999_999_999));
    let zero = Seconds::parse("7.0").unwrap();
    assert_eq!((zero.whole(), zero.nanos()), (7, 0));
}

#[test]
fn seconds_are_written_without_zeros_at_the_end() {
    assert_eq!(Seconds::from_secs(10).to_string(), "10");
    assert_eq!(Seconds::new(3, 500_000_000).unwrap().to_string(), "3.5");
    assert_eq!(Seconds::new(0, 1).unwrap().to_string(), "0.000000001");
    assert_eq!(Seconds::new(7, 0).unwrap().to_string(), "7");
    assert_eq!(Seconds::new(1, 999_999_999).unwrap().to_string(), "1.999999999");
    assert_eq!(Seconds::new(1, 10).unwrap().to_string(), "1.00000001");
    assert_eq!(Seconds::new(1, 100_000_000).unwrap().to_string(), "1.1");
    assert_eq!(Seconds::new(20, 20_000_000).unwrap().to_string(), "20.02");
}

#[test]
fn seconds_read_back() {
    for (whole, nanos) in [(0, 0), (1, 1), (12, 340_000_000), (u64::MAX, 999_999_999)] {
        let d = Seconds::new(whole, nanos).unwrap();
        assert_eq!(Seconds::parse(&d.to_string()), Ok(d));
    }
}

#[test]
fn seconds_refuse_a_second_of_nanoseconds() {
    assert_eq!(Seconds::new(1, 1_000_000_000), None);
    assert_eq!(Seconds::new(1, u32::MAX), None);
    assert!(Seconds::new(1, 999_999_999).is_some());
}

#[test]
fn seconds_refuse_malformed_text() {
    assert_eq!(Seconds::parse(""), Err(bad("", Cause::Empty)));
    assert_eq!(Seconds::parse(".5"), Err(bad("", Cause::Empty)));
    assert_eq!(Seconds::parse("3."), Err(bad("", Cause::BadFraction)));
    assert_eq!(Seconds::parse("3.1234567890"), Err(bad("1234567890", Cause::BadFraction)));
    assert_eq!(Seconds::parse("3.5s"), Err(bad("5s", Cause::NotADigit)));
    assert_eq!(Seconds::parse("3.5.1"), Err(bad("5.1", Cause::NotADigit)));
    assert_eq!(Seconds::parse("-3.5"), Err(bad("-3", Cause::NotADigit)));
    assert_eq!(
        Seconds::parse("18446744073709551616.5"),
        Err(bad("18446744073709551616", Cause::Overflow))
    );
}

#[test]
fn initialization_vector_is_written_in_lower_case() {
    let bytes = [
        0x00, 0x01, 0x0a, 0x10, 0x7f, 0x80, 0xab, 0xcd, 0xef, 0xff, 0x12, 0x34, 0x56, 0x78, 0x9a,
        0xbc,
    ];
    let iv = InitializationVector::new(bytes);
    assert_eq!(iv.to_string(), "0x00010a107f80abcdefff123456789abc");
    assert_eq!(iv.bytes(), bytes);
    assert_eq!(InitializationVector::parse(&iv.to_string()), Ok(iv));
}

#[test]
fn initialization_vector_is_read_in_either_case() {
    let expected = InitializationVector::new([
        0xde, 0xad, 0xbe, 0xef, 0x00, 0x11, 0x22, 0x33, 0x44, 0x55, 0x66, 0x77, 0x88, 0x99, 0xaa,
        0xff,
    ]);
    assert_eq!(InitializationVector::parse("0xdeadbeef00112233445566778899aaff"), Ok(expected));
    assert_eq!(InitializationVector::parse("0XDEADBEEF00112233445566778899AAFF"), Ok(expected));
    assert_eq!(InitializationVector::parse("0xDeAdBeEf00112233445566778899aAfF"), Ok(expected));
}

#[test]
fn initialization_vector_refuses_malformed_text() {
    for text in [
        "",
        "0x",
        "deadbeef00112233445566778899aaff",
        "0xdeadbeef00112233445566778899aaf",
        "0xdeadbeef00112233445566778899aaff0",
        "0xdeadbeef00112233445566778899aagf",
        "1xdeadbeef00112233445566778899aaff",
        "0ydeadbeef00112233445566778899aaff",
        "0x deadbeef0112233445566778899aaff",
    ] {
        assert_eq!(InitializationVector::parse(text), Err(bad(text, Cause::NotHexadecimal)));
    }
}

#[test]
fn encryption_methods_are_three_literals() {
    for (method, text) in [
        (EncryptionMethod::Plain, "NONE"),
        (EncryptionMethod::Aes128, "AES-128"),
        (EncryptionMethod::SampleAes, "SAMPLE-AES"),
    ] {
        assert_eq!(method.as_str(), text);
        assert_eq!(EncryptionMethod::parse(text), Ok(method));
    }
    for text in ["", "none", "AES", "AES-256", "SAMPLE-AES ", "NONEAES-128"] {
        assert_eq!(EncryptionMethod::parse(text), Err(bad(text, Cause::UnknownLiteral)));
    }
}
