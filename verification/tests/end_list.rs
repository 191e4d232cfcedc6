use hls_m3u8::tags::media_playlist::ExtXEndList;
use hls_m3u8::ProtocolVersion;

#[test]
fn ext_x_endlist() {
    let tag = ExtXEndList;
    let text = "#EXT-X-ENDLIST";
    assert_eq!(text.parse().ok(), Some(tag));
    assert_eq!(tag.to_string(), text);
    assert_eq!(tag.requires_version(), ProtocolVersion::V1);
}
