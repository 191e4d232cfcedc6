use hls_m3u8::tags::basic::ExtXVersion;
use hls_m3u8::tags::media_playlist::{
    ExtXDiscontinuitySequence, ExtXEndList, ExtXIFramesOnly, ExtXMediaSequence,
    ExtXTargetDuration,
};
use hls_m3u8::tags::media_segment::{ExtInf, ExtXDiscontinuity, ExtXKey};
use hls_m3u8::tags::shared::ExtXStart;
use hls_m3u8::tags::identify;
use hls_m3u8::{
    Cause, EncryptionMethod, Error, InitializationVector, ProtocolVersion, Seconds, Tag, TagKind,
};

fn bad(context: &str, cause: Cause) -> Error {
    Error::InvalidInput { context: context.to_string(), cause }
}

fn iv() -> InitializationVector {
    InitializationVector::new([0, 1, 2, 3, 4, 5, 6, 7, 8, 9, 10, 11, 12, 13, 14, 255])
}

fn sample_tags() -> Vec<(Tag, &'static str, ProtocolVersion)> {
    let key = ExtXKey::new(EncryptionMethod::Aes128, "https://example.com/k,1").unwrap();
    vec![
        (Tag::Version(ExtXVersion::new(ProtocolVersion::V7)), "#EXT-X-VERSION:7", ProtocolVersion::V1),
        (
            Tag::TargetDuration(ExtXTargetDuration::new(10)),
            "#EXT-X-TARGETDURATION:10",
            ProtocolVersion::V1,
        ),
        (
            Tag::MediaSequence(ExtXMediaSequence::new(0)),
            "#EXT-X-MEDIA-SEQUENCE:0",
            ProtocolVersion::V1,
        ),
        (
            Tag::DiscontinuitySequence(ExtXDiscontinuitySequence::new(u64::MAX)),
            "#EXT-X-DISCONTINUITY-SEQUENCE:18446744073709551615",
            ProtocolVersion::V1,
        ),
        (Tag::Discontinuity(ExtXDiscontinuity), "#EXT-X-DISCONTINUITY", ProtocolVersion::V1),
        (Tag::EndList(ExtXEndList), "#EXT-X-ENDLIST", ProtocolVersion::V1),
        (Tag::IFramesOnly(ExtXIFramesOnly), "#EXT-X-I-FRAMES-ONLY", ProtocolVersion::V4),
        (
            Tag::Start(ExtXStart::new(false, Seconds::from_secs(25), false)),
            "#EXT-X-START:TIME-OFFSET=25",
            ProtocolVersion::V1,
        ),
        (
            Tag::Start(ExtXStart::new(true, Seconds::new(1, 500_000_000).unwrap(), true)),
            "#EXT-X-START:TIME-OFFSET=-1.5,PRECISE=YES",
            ProtocolVersion::V1,
        ),
        (Tag::Inf(ExtInf::new(Seconds::from_secs(10))), "#EXTINF:10,", ProtocolVersion::V1),
        (
            Tag::Inf(ExtInf::with_title(Seconds::new(9, 9_000_000).unwrap(), "a, b").unwrap()),
            "#EXTINF:9.009,a, b",
            ProtocolVersion::V3,
        ),
        (Tag::Key(ExtXKey::unencrypted()), "#EXT-X-KEY:METHOD=NONE", ProtocolVersion::V1),
        (
            Tag::Key(key.clone()),
            "#EXT-X-KEY:METHOD=AES-128,URI=\"https://example.com/k,1\"",
            ProtocolVersion::V1,
        ),
        (
            Tag::Key(key.clone().with_iv(iv()).unwrap()),
            "#EXT-X-KEY:METHOD=AES-128,URI=\"https://example.com/k,1\",IV=0x000102030405060708090a0b0c0d0eff",
            ProtocolVersion::V2,
        ),
        (
            Tag::Key(
                key.clone()
                    .with_iv(iv())
                    .unwrap()
                    .with_key_format("identity")
                    .unwrap()
                    .with_key_format_versions("1/2/5")
                    .unwrap(),
            ),
            "#EXT-X-KEY:METHOD=AES-128,URI=\"https://example.com/k,1\",IV=0x000102030405060708090a0b0c0d0eff,KEYFORMAT=\"identity\",KEYFORMATVERSIONS=\"1/2/5\"",
            ProtocolVersion::V5,
        ),
        (
            Tag::Key(
                ExtXKey::new(EncryptionMethod::SampleAes, "")
                    .unwrap()
                    .with_key_format_versions("1")
                    .unwrap(),
            ),
            "#EXT-X-KEY:METHOD=SAMPLE-AES,URI=\"\",KEYFORMATVERSIONS=\"1\"",
            ProtocolVersion::V5,
        ),
    ]
}

#[test]
fn each_tag_has_its_text() {
    for (tag, text, _) in sample_tags() {
        assert_eq!(tag.to_string(), text);
    }
}

#[test]
fn each_text_reads_as_its_tag() {
    for (tag, text, _) in sample_tags() {
        assert_eq!(Tag::parse(text), Ok(tag.clone()));
        assert_eq!(text.parse::<Tag>(), Ok(tag));
    }
}

#[test]
fn a_tag_reads_back_from_its_text() {
    for (tag, _, _) in sample_tags() {
        assert_eq!(Tag::parse(&tag.to_string()), Ok(tag));
    }
}

#[test]
fn each_tag_requires_its_version() {
    for (tag, _, version) in sample_tags() {
        assert_eq!(tag.requires_version(), version);
    }
}

#[test]
fn the_end_marker_is_its_prefix_and_nothing_more() {
    assert_eq!(ExtXEndList.to_string(), "#EXT-X-ENDLIST");
    assert_eq!(ExtXEndList.requires_version(), ProtocolVersion::lowest());
    assert_eq!(ExtXEndList::parse("#EXT-X-ENDLIST"), Ok(ExtXEndList));
    assert_eq!(
        ExtXEndList::parse("#EXT-X-ENDLIST extra"),
        Err(bad(" extra", Cause::TrailingCharacters))
    );
    assert_eq!(Tag::parse("#EXT-X-ENDLIST extra"), Err(bad(" extra", Cause::TrailingCharacters)));
    assert_eq!(Tag::parse("#EXT-X-ENDLIST:"), Err(bad(":", Cause::TrailingCharacters)));
    assert_eq!(
        ExtXEndList::parse("#EXT-X-ENDLIS"),
        Err(Error::UnmatchedPrefix {
            expected: "#EXT-X-ENDLIST".to_string(),
            actual: "#EXT-X-ENDLIS".to_string(),
        })
    );
    assert_eq!(
        "#EXT-X-VERSION:3".parse::<ExtXEndList>(),
        Err(Error::UnmatchedPrefix {
            expected: "#EXT-X-ENDLIST".to_string(),
            actual: "#EXT-X-VERSION:3".to_string(),
        })
    );
}

#[test]
fn a_line_is_identified_by_its_longest_prefix() {
    assert_eq!(identify("#EXT-X-DISCONTINUITY-SEQUENCE:5"), Some(TagKind::DiscontinuitySequence));
    assert_eq!(identify("#EXT-X-DISCONTINUITY"), Some(TagKind::Discontinuity));
    assert_eq!(identify("#EXT-X-DISCONTINUITY-SEQ"), Some(TagKind::Discontinuity));
    assert_eq!(identify("#EXT-X-KEYS"), Some(TagKind::Key));
    assert_eq!(identify("#EXTINF"), Some(TagKind::Inf));
    assert_eq!(identify("#EXT-X-VERSION"), Some(TagKind::Version));
    assert_eq!(identify("#EXT-X-ENDLIST"), Some(TagKind::EndList));
    assert_eq!(identify("#EXT-X-TARGETDURATION:1"), Some(TagKind::TargetDuration));
    assert_eq!(identify("#EXT-X-MEDIA-SEQUENCE:1"), Some(TagKind::MediaSequence));
    assert_eq!(identify("#EXT-X-I-FRAMES-ONLY"), Some(TagKind::IFramesOnly));
    assert_eq!(identify("#EXT-X-UNKNOWN"), None);
    assert_eq!(identify("#EXTIN"), None);
    assert_eq!(identify(" #EXTINF:1,"), None);
    assert_eq!(identify(""), None);
    assert_eq!(identify("segment.ts"), None);
}

#[test]
fn the_longer_of_two_prefixes_decides_how_a_line_is_read() {
    assert_eq!(
        Tag::parse("#EXT-X-DISCONTINUITY-SEQUENCE:5"),
        Ok(Tag::DiscontinuitySequence(ExtXDiscontinuitySequence::new(5)))
    );
    assert_eq!(
        Tag::parse("#EXT-X-DISCONTINUITY-SEQ"),
        Err(bad("-SEQ", Cause::TrailingCharacters))
    );
    assert_eq!(
        ExtXDiscontinuity::parse("#EXT-X-DISCONTINUITY-SEQUENCE:5"),
        Err(bad("-SEQUENCE:5", Cause::TrailingCharacters))
    );
}

#[test]
fn a_line_with_no_known_prefix_is_an_unknown_tag() {
    for line in ["#EXT-X-UNKNOWN:1", "", "segment.ts", "# comment", "#ext-x-endlist"] {
        assert_eq!(Tag::parse(line), Err(bad(line, Cause::UnknownTag)));
    }
}

#[test]
fn a_value_needs_its_colon() {
    assert_eq!(Tag::parse("#EXT-X-VERSION"), Err(bad("", Cause::MissingColon)));
    assert_eq!(Tag::parse("#EXT-X-VERSION=3"), Err(bad("=3", Cause::MissingColon)));
    assert_eq!(Tag::parse("#EXT-X-KEYS:METHOD=NONE"), Err(bad("S:METHOD=NONE", Cause::MissingColon)));
    assert_eq!(Tag::parse("#EXTINF"), Err(bad("", Cause::MissingColon)));
    assert_eq!(ExtXMediaSequence::parse("#EXT-X-MEDIA-SEQUENCE 1"), Err(bad(" 1", Cause::MissingColon)));
}

#[test]
fn the_version_tag_knows_seven_versions() {
    assert_eq!(ExtXVersion::parse("#EXT-X-VERSION:1").unwrap().version(), ProtocolVersion::V1);
    assert_eq!(ExtXVersion::parse("#EXT-X-VERSION:7").unwrap().version(), ProtocolVersion::V7);
    assert_eq!(ExtXVersion::parse("#EXT-X-VERSION:03").unwrap().version(), ProtocolVersion::V3);
    assert_eq!(ExtXVersion::parse("#EXT-X-VERSION:0"), Err(bad("0", Cause::UnknownVersion)));
    assert_eq!(ExtXVersion::parse("#EXT-X-VERSION:8"), Err(bad("8", Cause::UnknownVersion)));
    assert_eq!(ExtXVersion::parse("#EXT-X-VERSION:"), Err(bad("", Cause::Empty)));
    assert_eq!(ExtXVersion::parse("#EXT-X-VERSION:v3"), Err(bad("v3", Cause::NotADigit)));
    assert_eq!(
        ExtXVersion::parse("#EXT-X-VERSION:99999999999999999999"),
        Err(bad("99999999999999999999", Cause::Overflow))
    );
    assert_eq!(ExtXVersion::new(ProtocolVersion::V6).requires_version(), ProtocolVersion::V1);
}

#[test]
fn number_tags_carry_a_decimal_integer() {
    assert_eq!(ExtXTargetDuration::parse("#EXT-X-TARGETDURATION:8").unwrap().duration(), 8);
    assert_eq!(ExtXMediaSequence::parse("#EXT-X-MEDIA-SEQUENCE:2680").unwrap().seq_num(), 2680);
    assert_eq!(
        ExtXDiscontinuitySequence::parse("#EXT-X-DISCONTINUITY-SEQUENCE:123").unwrap().seq_num(),
        123
    );
    assert_eq!(ExtXTargetDuration::new(8).to_string(), "#EXT-X-TARGETDURATION:8");
    assert_eq!(ExtXMediaSequence::new(2680).to_string(), "#EXT-X-MEDIA-SEQUENCE:2680");
    assert_eq!(
        ExtXTargetDuration::parse("#EXT-X-TARGETDURATION:8.5"),
        Err(bad("8.5", Cause::NotADigit))
    );
    assert_eq!(ExtXMediaSequence::parse("#EXT-X-MEDIA-SEQUENCE:"), Err(bad("", Cause::Empty)));
    assert_eq!(ExtXMediaSequence::parse("#EXT-X-MEDIA-SEQUENCE:-1"), Err(bad("-1", Cause::NotADigit)));
}

#[test]
fn a_segment_tag_has_a_duration_and_a_title() {
    let plain = ExtInf::parse("#EXTINF:10,").unwrap();
    assert_eq!((plain.duration().whole(), plain.duration().nanos()), (10, 0));
    assert_eq!(plain.title(), "");
    assert_eq!(plain.requires_version(), ProtocolVersion::V1);
    let bare = ExtInf::parse("#EXTINF:10").unwrap();
    assert_eq!(bare, plain);
    let titled = ExtInf::parse("#EXTINF:9.5,Title, with comma").unwrap();
    assert_eq!((titled.duration().whole(), titled.duration().nanos()), (9, 500_000_000));
    assert_eq!(titled.title(), "Title, with comma");
    assert_eq!(titled.requires_version(), ProtocolVersion::V3);
    assert_eq!(titled.to_string(), "#EXTINF:9.5,Title, with comma");
    let zero_fraction = ExtInf::parse("#EXTINF:10.000,x").unwrap();
    assert_eq!(zero_fraction.requires_version(), ProtocolVersion::V1);
    assert_eq!(zero_fraction.to_string(), "#EXTINF:10,x");
}

#[test]
fn a_segment_tag_refuses_a_malformed_value() {
    assert_eq!(ExtInf::parse("#EXTINF:,title"), Err(bad("", Cause::Empty)));
    assert_eq!(ExtInf::parse("#EXTINF:"), Err(bad("", Cause::Empty)));
    assert_eq!(ExtInf::parse("#EXTINF:ten,title"), Err(bad("ten", Cause::NotADigit)));
    assert_eq!(ExtInf::parse("#EXTINF:1.,t"), Err(bad("", Cause::BadFraction)));
    assert_eq!(ExtInf::parse("#EXTINF:1.5x,t"), Err(bad("5x", Cause::NotADigit)));
    assert_eq!(ExtInf::parse("#EXTINF:1,a\rb"), Err(bad("a\rb", Cause::ForbiddenCharacter)));
    assert_eq!(ExtInf::parse("#EXTINF:1,a\nb"), Err(bad("a\nb", Cause::ForbiddenCharacter)));
    assert_eq!(
        ExtInf::with_title(Seconds::from_secs(1), "two\nlines"),
        Err(bad("two\nlines", Cause::ForbiddenCharacter))
    );
}

#[test]
fn a_key_tag_is_read_from_its_attributes() {
    let key = ExtXKey::parse(
        "#EXT-X-KEY:IV=0X000102030405060708090A0B0C0D0EFF,URI=\"k\",METHOD=SAMPLE-AES",
    )
    .unwrap();
    assert_eq!(key.method(), EncryptionMethod::SampleAes);
    assert_eq!(key.uri(), &Some("k".to_string()));
    assert_eq!(key.iv(), Some(iv()));
    assert_eq!(key.key_format(), &None);
    assert_eq!(key.key_format_versions(), &None);
    assert_eq!(key.requires_version(), ProtocolVersion::V2);
    assert_eq!(
        key.to_string(),
        "#EXT-X-KEY:METHOD=SAMPLE-AES,URI=\"k\",IV=0x000102030405060708090a0b0c0d0eff"
    );
    let none = ExtXKey::parse("#EXT-X-KEY:METHOD=NONE").unwrap();
    assert_eq!(none, ExtXKey::unencrypted());
    assert_eq!(none.method(), EncryptionMethod::Plain);
    assert_eq!(none.uri(), &None);
}

#[test]
fn a_key_tag_requires_its_method_and_its_uri() {
    let missing = |name: &str| Error::MissingAttribute { name: name.to_string() };
    assert_eq!(ExtXKey::parse("#EXT-X-KEY:"), Err(missing("METHOD")));
    assert_eq!(ExtXKey::parse("#EXT-X-KEY:URI=\"k\""), Err(missing("METHOD")));
    assert_eq!(ExtXKey::parse("#EXT-X-KEY:METHOD=AES-128"), Err(missing("URI")));
    assert_eq!(
        ExtXKey::parse("#EXT-X-KEY:METHOD=AES-128,KEYFORMAT=\"identity\""),
        Err(missing("URI"))
    );
}

#[test]
fn a_key_tag_refuses_attributes_that_it_does_not_allow() {
    let unexpected = |name: &str| Error::UnexpectedAttribute { name: name.to_string() };
    assert_eq!(ExtXKey::parse("#EXT-X-KEY:METHOD=NONE,URI=\"k\""), Err(unexpected("URI")));
    assert_eq!(
        ExtXKey::parse("#EXT-X-KEY:IV=0x000102030405060708090a0b0c0d0eff,METHOD=NONE"),
        Err(unexpected("IV"))
    );
    assert_eq!(
        ExtXKey::parse("#EXT-X-KEY:METHOD=AES-128,URI=\"k\",BANDWIDTH=1"),
        Err(unexpected("BANDWIDTH"))
    );
    assert_eq!(ExtXKey::parse("#EXT-X-KEY:FOO=1,BAR=2"), Err(unexpected("FOO")));
    assert_eq!(ExtXKey::parse("#EXT-X-KEY:method=NONE"), Err(unexpected("method")));
    assert_eq!(ExtXKey::new(EncryptionMethod::Plain, "k"), Err(unexpected("URI")));
    assert_eq!(ExtXKey::unencrypted().with_iv(iv()), Err(unexpected("IV")));
    assert_eq!(ExtXKey::unencrypted().with_key_format("identity"), Err(unexpected("KEYFORMAT")));
    assert_eq!(
        ExtXKey::unencrypted().with_key_format_versions("1"),
        Err(unexpected("KEYFORMATVERSIONS"))
    );
}

#[test]
fn a_key_tag_holds_each_value_to_its_form() {
    assert_eq!(
        ExtXKey::parse("#EXT-X-KEY:METHOD=\"NONE\""),
        Err(bad("NONE", Cause::UnexpectedQuotes))
    );
    assert_eq!(ExtXKey::parse("#EXT-X-KEY:METHOD=AES"), Err(bad("AES", Cause::UnknownLiteral)));
    assert_eq!(
        ExtXKey::parse("#EXT-X-KEY:METHOD=AES-128,URI=k"),
        Err(bad("k", Cause::MissingQuotes))
    );
    assert_eq!(
        ExtXKey::parse("#EXT-X-KEY:METHOD=AES-128,URI=\"k\",IV=\"0x000102030405060708090a0b0c0d0eff\""),
        Err(bad("0x000102030405060708090a0b0c0d0eff", Cause::UnexpectedQuotes))
    );
    assert_eq!(
        ExtXKey::parse("#EXT-X-KEY:METHOD=AES-128,URI=\"k\",IV=0x00"),
        Err(bad("0x00", Cause::NotHexadecimal))
    );
    assert_eq!(
        ExtXKey::parse("#EXT-X-KEY:METHOD=AES-128,URI=\"k\",KEYFORMAT=identity"),
        Err(bad("identity", Cause::MissingQuotes))
    );
    assert_eq!(
        ExtXKey::parse("#EXT-X-KEY:METHOD=AES-128,URI=\"k\",KEYFORMATVERSIONS=1"),
        Err(bad("1", Cause::MissingQuotes))
    );
    assert_eq!(
        ExtXKey::parse("#EXT-X-KEY:METHOD=AES-128,URI=\"k"),
        Err(bad("\"k", Cause::UnterminatedQuote))
    );
    assert_eq!(
        ExtXKey::new(EncryptionMethod::Aes128, "a\"b"),
        Err(bad("a\"b", Cause::ForbiddenCharacter))
    );
    assert_eq!(
        ExtXKey::new(EncryptionMethod::Aes128, "k").unwrap().with_key_format("a\nb"),
        Err(bad("a\nb", Cause::ForbiddenCharacter))
    );
}

#[test]
fn a_key_tag_requires_the_version_of_its_attributes() {
    let key = ExtXKey::new(EncryptionMethod::Aes128, "k").unwrap();
    assert_eq!(key.requires_version(), ProtocolVersion::V1);
    assert_eq!(key.clone().with_iv(iv()).unwrap().requires_version(), ProtocolVersion::V2);
    assert_eq!(
        key.clone().with_key_format("identity").unwrap().requires_version(),
        ProtocolVersion::V5
    );
    assert_eq!(
        key.clone().with_key_format_versions("1").unwrap().requires_version(),
        ProtocolVersion::V5
    );
    assert_eq!(
        key.with_iv(iv()).unwrap().with_key_format("identity").unwrap().requires_version(),
        ProtocolVersion::V5
    );
    assert_eq!(ExtXKey::unencrypted().requires_version(), ProtocolVersion::V1);
}

#[test]
fn kinds_know_their_prefix_and_whether_they_may_repeat() {
    let kinds = [
        (TagKind::Version, "#EXT-X-VERSION", true),
        (TagKind::TargetDuration, "#EXT-X-TARGETDURATION", true),
        (TagKind::MediaSequence, "#EXT-X-MEDIA-SEQUENCE", true),
        (TagKind::DiscontinuitySequence, "#EXT-X-DISCONTINUITY-SEQUENCE", true),
        (TagKind::Discontinuity, "#EXT-X-DISCONTINUITY", false),
        (TagKind::EndList, "#EXT-X-ENDLIST", true),
        (TagKind::IFramesOnly, "#EXT-X-I-FRAMES-ONLY", true),
        (TagKind::Start, "#EXT-X-START", true),
        (TagKind::Inf, "#EXTINF", false),
        (TagKind::Key, "#EXT-X-KEY", false),
    ];
    for (kind, prefix, once) in kinds {
        assert_eq!(kind.prefix(), prefix);
        assert_eq!(kind.is_once_only(), once);
        assert_eq!(identify(prefix), Some(kind));
    }
    for (tag, _, _) in sample_tags() {
        assert!(tag.to_string().starts_with(tag.kind().prefix()));
    }
}

#[test]
fn a_start_tag_has_an_offset_and_a_flag() {
    let start = ExtXStart::parse("#EXT-X-START:TIME-OFFSET=-12.5,PRECISE=YES").unwrap();
    assert!(start.is_negative());
    assert_eq!((start.offset().whole(), start.offset().nanos()), (12, 500_000_000));
    assert!(start.is_precise());
    assert_eq!(start.requires_version(), ProtocolVersion::V1);
    assert_eq!(start.to_string(), "#EXT-X-START:TIME-OFFSET=-12.5,PRECISE=YES");
    let plain = ExtXStart::parse("#EXT-X-START:PRECISE=NO,TIME-OFFSET=3").unwrap();
    assert_eq!(plain, ExtXStart::new(false, Seconds::from_secs(3), false));
    assert_eq!(plain.to_string(), "#EXT-X-START:TIME-OFFSET=3");
    let zero = ExtXStart::parse("#EXT-X-START:TIME-OFFSET=-0").unwrap();
    assert_eq!(zero, ExtXStart::new(true, Seconds::from_secs(0), false));
    assert_eq!(ExtXStart::parse(&zero.to_string()), Ok(zero));
}

#[test]
fn a_start_tag_holds_each_value_to_its_form() {
    assert_eq!(
        ExtXStart::parse("#EXT-X-START:PRECISE=YES"),
        Err(Error::MissingAttribute { name: "TIME-OFFSET".to_string() })
    );
    assert_eq!(
        ExtXStart::parse("#EXT-X-START:"),
        Err(Error::MissingAttribute { name: "TIME-OFFSET".to_string() })
    );
    assert_eq!(
        ExtXStart::parse("#EXT-X-START:TIME-OFFSET=1,EXACT=YES"),
        Err(Error::UnexpectedAttribute { name: "EXACT".to_string() })
    );
    assert_eq!(
        ExtXStart::parse("#EXT-X-START:TIME-OFFSET=1,PRECISE=yes"),
        Err(bad("yes", Cause::NotYesOrNo))
    );
    assert_eq!(
        ExtXStart::parse("#EXT-X-START:TIME-OFFSET=1,PRECISE=maybe"),
        Err(bad("maybe", Cause::NotYesOrNo))
    );
    assert_eq!(
        ExtXStart::parse("#EXT-X-START:TIME-OFFSET=1,PRECISE=\"YES\""),
        Err(bad("YES", Cause::UnexpectedQuotes))
    );
    assert_eq!(
        ExtXStart::parse("#EXT-X-START:TIME-OFFSET=\"1\""),
        Err(bad("1", Cause::UnexpectedQuotes))
    );
    assert_eq!(ExtXStart::parse("#EXT-X-START:TIME-OFFSET=+1"), Err(bad("+1", Cause::NotADigit)));
    assert_eq!(ExtXStart::parse("#EXT-X-START:TIME-OFFSET=--1"), Err(bad("-1", Cause::NotADigit)));
    assert_eq!(ExtXStart::parse("#EXT-X-START:TIME-OFFSET=-"), Err(bad("", Cause::Empty)));
    assert_eq!(ExtXStart::parse("#EXT-X-START:TIME-OFFSET="), Err(bad("", Cause::Empty)));
    assert_eq!(ExtXStart::parse("#EXT-X-START:TIME-OFFSET=1."), Err(bad("", Cause::BadFraction)));
    assert_eq!(
        ExtXStart::parse("#EXT-X-START:TIME-OFFSET=x,PRECISE=maybe"),
        Err(bad("x", Cause::NotADigit))
    );
}
