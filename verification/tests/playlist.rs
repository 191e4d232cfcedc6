use hls_m3u8::tags::basic::ExtXVersion;
use hls_m3u8::tags::media_playlist::{ExtXEndList, ExtXMediaSequence, ExtXTargetDuration};
use hls_m3u8::tags::media_segment::{ExtInf, ExtXDiscontinuity, ExtXKey};
use hls_m3u8::{
    parse_playlist, parse_playlist_text, split_lines, Cause, EncryptionMethod, Entry, Error,
    InitializationVector, Playlist, ProtocolVersion, Seconds, Tag, UnknownPolicy,
};

fn lines(text: &[&str]) -> Vec<String> {
    text.iter().map(|s| s.to_string()).collect()
}

fn entries(p: &Playlist) -> Vec<Entry> {
    (0..p.len()).map(|i| p.entry(i).unwrap().clone()).collect()
}

const KEY_WITH_IV: &str =
    "#EXT-X-KEY:METHOD=AES-128,URI=\"k\",IV=0x000102030405060708090a0b0c0d0e0f";

#[test]
fn a_playlist_holds_its_tags_in_the_order_of_the_lines() {
    let p = parse_playlist(&lines(&[
        "#EXT-X-VERSION:3",
        "#EXT-X-TARGETDURATION:10",
        "#EXT-X-MEDIA-SEQUENCE:7",
        "#EXTINF:9.5,first",
        "#EXT-X-DISCONTINUITY",
        "#EXTINF:10,",
        "#EXT-X-ENDLIST",
    ]))
    .unwrap();
    assert_eq!(
        entries(&p),
        vec![
            Entry::Tag(Tag::Version(ExtXVersion::new(ProtocolVersion::V3))),
            Entry::Tag(Tag::TargetDuration(ExtXTargetDuration::new(10))),
            Entry::Tag(Tag::MediaSequence(ExtXMediaSequence::new(7))),
            Entry::Tag(Tag::Inf(
                ExtInf::with_title(Seconds::new(9, 500_000_000).unwrap(), "first").unwrap()
            )),
            Entry::Tag(Tag::Discontinuity(ExtXDiscontinuity)),
            Entry::Tag(Tag::Inf(ExtInf::new(Seconds::from_secs(10)))),
            Entry::Tag(Tag::EndList(ExtXEndList)),
        ]
    );
    assert_eq!(p.requires_version(), ProtocolVersion::V3);
    assert_eq!(p.declared_version(), Some(ProtocolVersion::V3));
}

#[test]
fn the_required_version_is_the_highest_of_the_tags() {
    let p = parse_playlist(&lines(&["#EXT-X-ENDLIST", "#EXTINF:1.5,", KEY_WITH_IV])).unwrap();
    assert_eq!(p.requires_version(), ProtocolVersion::V3);
    assert_eq!(p.declared_version(), None);
    let q = parse_playlist(&lines(&["#EXTINF:1.5,", "#EXT-X-I-FRAMES-ONLY", KEY_WITH_IV])).unwrap();
    assert_eq!(q.requires_version(), ProtocolVersion::V4);
    let r = parse_playlist(&lines(&["#EXTINF:1,", KEY_WITH_IV])).unwrap();
    assert_eq!(r.requires_version(), ProtocolVersion::V2);
}

#[test]
fn an_empty_playlist_requires_the_lowest_version() {
    let p = parse_playlist(&lines(&[])).unwrap();
    assert_eq!(p.len(), 0);
    assert_eq!(p.entry(0), None);
    assert_eq!(p.requires_version(), ProtocolVersion::V1);
    assert_eq!(p.declared_version(), None);
    assert_eq!(p.to_lines(), Vec::<String>::new());
}

#[test]
fn a_declared_version_below_the_required_one_is_a_mismatch() {
    let mismatch = Error::VersionMismatch {
        declared: ProtocolVersion::V2,
        required: ProtocolVersion::V3,
    };
    assert_eq!(
        parse_playlist(&lines(&["#EXT-X-VERSION:2", "#EXT-X-ENDLIST", "#EXTINF:1.5,", KEY_WITH_IV])),
        Err(mismatch.clone())
    );
    assert_eq!(
        parse_playlist(&lines(&["#EXT-X-ENDLIST", "#EXTINF:1.5,", KEY_WITH_IV, "#EXT-X-VERSION:2"])),
        Err(mismatch)
    );
    assert_eq!(
        parse_playlist(&lines(&["#EXT-X-VERSION:1", KEY_WITH_IV])),
        Err(Error::VersionMismatch {
            declared: ProtocolVersion::V1,
            required: ProtocolVersion::V2,
        })
    );
}

#[test]
fn a_declared_version_at_or_above_the_required_one_is_accepted() {
    for declared in ["#EXT-X-VERSION:3", "#EXT-X-VERSION:4", "#EXT-X-VERSION:7"] {
        let p = parse_playlist(&lines(&[declared, "#EXT-X-ENDLIST", "#EXTINF:1.5,", KEY_WITH_IV]))
            .unwrap();
        assert_eq!(p.requires_version(), ProtocolVersion::V3);
        assert!(p.declared_version().unwrap().at_least(p.requires_version()));
    }
}

#[test]
fn a_tag_that_may_occur_once_is_refused_when_it_occurs_again() {
    let duplicate = |name: &str| Error::DuplicateTag { name: name.to_string() };
    assert_eq!(
        parse_playlist(&lines(&["#EXT-X-ENDLIST", "#EXT-X-ENDLIST"])),
        Err(duplicate("#EXT-X-ENDLIST"))
    );
    assert_eq!(
        parse_playlist(&lines(&["#EXT-X-VERSION:3", "#EXTINF:1,", "#EXT-X-VERSION:3"])),
        Err(duplicate("#EXT-X-VERSION"))
    );
    assert_eq!(
        parse_playlist(&lines(&["#EXT-X-TARGETDURATION:1", "#EXT-X-TARGETDURATION:2"])),
        Err(duplicate("#EXT-X-TARGETDURATION"))
    );
    assert_eq!(
        parse_playlist(&lines(&["#EXT-X-MEDIA-SEQUENCE:1", "", "#EXT-X-MEDIA-SEQUENCE:1"])),
        Err(duplicate("#EXT-X-MEDIA-SEQUENCE"))
    );
    assert_eq!(
        parse_playlist(&lines(&[
            "#EXT-X-DISCONTINUITY-SEQUENCE:1",
            "#EXT-X-DISCONTINUITY",
            "#EXT-X-DISCONTINUITY-SEQUENCE:2"
        ])),
        Err(duplicate("#EXT-X-DISCONTINUITY-SEQUENCE"))
    );
    assert_eq!(
        parse_playlist(&lines(&["#EXT-X-I-FRAMES-ONLY", "#EXT-X-I-FRAMES-ONLY"])),
        Err(duplicate("#EXT-X-I-FRAMES-ONLY"))
    );
    assert_eq!(
        parse_playlist(&lines(&["#EXT-X-START:TIME-OFFSET=1", "#EXT-X-START:TIME-OFFSET=2"])),
        Err(duplicate("#EXT-X-START"))
    );
}

#[test]
fn other_tags_may_repeat() {
    let p = parse_playlist(&lines(&[
        "#EXTINF:1,",
        "#EXTINF:1,",
        "#EXT-X-DISCONTINUITY",
        "#EXT-X-DISCONTINUITY",
        "#EXT-X-KEY:METHOD=NONE",
        "#EXT-X-KEY:METHOD=NONE",
    ]))
    .unwrap();
    assert_eq!(p.len(), 6);
}

#[test]
fn the_first_failing_line_decides_the_error() {
    assert_eq!(
        parse_playlist(&lines(&["#EXT-X-ENDLIST", "#EXT-X-ENDLIST", "#EXT-X-VERSION:x"])),
        Err(Error::DuplicateTag { name: "#EXT-X-ENDLIST".to_string() })
    );
    assert_eq!(
        parse_playlist(&lines(&["#EXT-X-ENDLIST", "#EXT-X-VERSION:x", "#EXT-X-ENDLIST"])),
        Err(Error::InvalidInput { context: "x".to_string(), cause: Cause::NotADigit })
    );
    assert_eq!(
        parse_playlist(&lines(&["#EXT-X-VERSION:1", "#EXTINF:1.5,", "#EXT-X-ENDLIST extra"])),
        Err(Error::InvalidInput { context: " extra".to_string(), cause: Cause::TrailingCharacters })
    );
    assert_eq!(
        parse_playlist(&lines(&["#EXT-X-VERSION:1", "#EXTINF:1.5,", "#EXT-X-VERSION:7"])),
        Err(Error::DuplicateTag { name: "#EXT-X-VERSION".to_string() })
    );
}

#[test]
fn blank_lines_and_comments_are_skipped() {
    let p = parse_playlist(&lines(&[
        "",
        "   ",
        "\t",
        "# a comment",
        "#",
        "#EX",
        "#EXT-X-ENDLIST",
        "#comment, not a tag",
    ]))
    .unwrap();
    assert_eq!(entries(&p), vec![Entry::Tag(Tag::EndList(ExtXEndList))]);
    let q = Playlist::parse(&lines(&["", "# a comment", "#EXT-X-ENDLIST"]), UnknownPolicy::Reject)
        .unwrap();
    assert_eq!(entries(&q), vec![Entry::Tag(Tag::EndList(ExtXEndList))]);
}

#[test]
fn unknown_lines_are_kept_or_refused_as_the_policy_says() {
    let text = lines(&["#EXTM3U", "#EXTINF:1,", "segment0.ts", "#EXT-X-FUTURE:1", "#EXT-X-ENDLIST"]);
    let kept = Playlist::parse(&text, UnknownPolicy::Preserve).unwrap();
    assert_eq!(
        entries(&kept),
        vec![
            Entry::Opaque("#EXTM3U".to_string()),
            Entry::Tag(Tag::Inf(ExtInf::new(Seconds::from_secs(1)))),
            Entry::Opaque("segment0.ts".to_string()),
            Entry::Opaque("#EXT-X-FUTURE:1".to_string()),
            Entry::Tag(Tag::EndList(ExtXEndList)),
        ]
    );
    assert_eq!(kept.requires_version(), ProtocolVersion::V1);
    assert_eq!(
        kept.tags(),
        vec![Tag::Inf(ExtInf::new(Seconds::from_secs(1))), Tag::EndList(ExtXEndList)]
    );
    assert_eq!(
        Playlist::parse(&text, UnknownPolicy::Reject),
        Err(Error::InvalidInput { context: "#EXTM3U".to_string(), cause: Cause::UnknownTag })
    );
    assert_eq!(
        Playlist::parse(&lines(&["#EXTINF:1,", " x"]), UnknownPolicy::Reject),
        Err(Error::InvalidInput { context: " x".to_string(), cause: Cause::UnknownTag })
    );
}

#[test]
fn the_lines_of_a_playlist_read_back_as_the_playlist() {
    let text = lines(&[
        "#EXTM3U",
        "#EXT-X-VERSION:5",
        "#EXT-X-TARGETDURATION:10",
        "#EXT-X-KEY:METHOD=AES-128,URI=\"k,1\",KEYFORMAT=\"identity\"",
        "#EXTINF:9.5,first",
        "segment0.ts",
        "#EXT-X-ENDLIST",
    ]);
    let p = parse_playlist(&text).unwrap();
    let written = p.to_lines();
    assert_eq!(
        written,
        lines(&[
            "#EXTM3U",
            "#EXT-X-VERSION:5",
            "#EXT-X-TARGETDURATION:10",
            "#EXT-X-KEY:METHOD=AES-128,URI=\"k,1\",KEYFORMAT=\"identity\"",
            "#EXTINF:9.5,first",
            "segment0.ts",
            "#EXT-X-ENDLIST",
        ])
    );
    assert_eq!(parse_playlist(&written), Ok(p));
}

#[test]
fn a_playlist_is_assembled_from_tags() {
    let iv = InitializationVector::new([7; 16]);
    let key = ExtXKey::new(EncryptionMethod::Aes128, "k").unwrap().with_iv(iv).unwrap();
    let tags = vec![
        Tag::EndList(ExtXEndList),
        Tag::Inf(ExtInf::new(Seconds::new(1, 500_000_000).unwrap())),
        Tag::Key(key),
    ];
    let p = Playlist::from_tags(tags.clone()).unwrap();
    assert_eq!(entries(&p), tags.iter().map(|t| Entry::Tag(t.clone())).collect::<Vec<_>>());
    assert_eq!(p.requires_version(), ProtocolVersion::V3);

    let mut declared = vec![Tag::Version(ExtXVersion::new(ProtocolVersion::V2))];
    declared.extend(tags.clone());
    assert_eq!(
        Playlist::from_tags(declared),
        Err(Error::VersionMismatch {
            declared: ProtocolVersion::V2,
            required: ProtocolVersion::V3,
        })
    );

    let mut twice = tags.clone();
    twice.push(Tag::EndList(ExtXEndList));
    assert_eq!(
        Playlist::from_tags(twice),
        Err(Error::DuplicateTag { name: "#EXT-X-ENDLIST".to_string() })
    );
    assert_eq!(Playlist::from_tags(Vec::new()).unwrap().len(), 0);
}

#[test]
fn a_text_is_split_into_its_lines() {
    assert_eq!(split_lines(""), Vec::<String>::new());
    assert_eq!(split_lines("a"), lines(&["a"]));
    assert_eq!(split_lines("a\n"), lines(&["a"]));
    assert_eq!(split_lines("a\nb"), lines(&["a", "b"]));
    assert_eq!(split_lines("a\r\nb\r\n"), lines(&["a", "b"]));
    assert_eq!(split_lines("a\n\nb"), lines(&["a", "", "b"]));
    assert_eq!(split_lines("\n"), lines(&[""]));
    assert_eq!(split_lines("\n\n"), lines(&["", ""]));
    assert_eq!(split_lines("a\r"), lines(&["a"]));
    assert_eq!(split_lines("a\rb\n"), lines(&["a\rb"]));
    assert_eq!(split_lines("\r\n"), lines(&[""]));
    assert_eq!(split_lines("a\r\r\n"), lines(&["a\r"]));
    for text in ["", "a", "a\n", "a\nb", "a\r\nb\r\n", "a\n\nb", "\n", "\n\n", "x\ry\n"] {
        let expected: Vec<String> = text.lines().map(|l| l.to_string()).collect();
        assert_eq!(split_lines(text), expected);
    }
}

#[test]
fn a_playlist_is_assembled_from_a_text() {
    let text = "#EXTM3U\r\n#EXT-X-VERSION:3\r\n\r\n#EXTINF:9.5,\r\nsegment0.ts\r\n#EXT-X-ENDLIST\r\n";
    let p = parse_playlist_text(text, UnknownPolicy::Preserve).unwrap();
    assert_eq!(
        p.to_lines(),
        lines(&["#EXTM3U", "#EXT-X-VERSION:3", "#EXTINF:9.5,", "segment0.ts", "#EXT-X-ENDLIST"])
    );
    assert_eq!(
        parse_playlist_text("#EXT-X-ENDLIST\n#EXT-X-ENDLIST", UnknownPolicy::Reject),
        Err(Error::DuplicateTag { name: "#EXT-X-ENDLIST".to_string() })
    );
    assert_eq!(
        parse_playlist_text("#EXT-X-ENDLIST\nsegment.ts\n", UnknownPolicy::Reject),
        Err(Error::InvalidInput { context: "segment.ts".to_string(), cause: Cause::UnknownTag })
    );
    assert_eq!(parse_playlist_text("", UnknownPolicy::Reject).unwrap().len(), 0);
}
