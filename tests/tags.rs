use hls_m3u8::{
    ByteRange, DecimalResolution, Error, ExtInf, ExtXByteRange, ExtXIFrameStreamInf, ExtXMap,
    HdcpLevel, MediaSegment, ProtocolVersion, QuotedString,
};
use std::str::FromStr;

#[test]
fn media_segment_test_display() {
    assert_eq!(
        MediaSegment::builder()
            .map(ExtXMap::new(QuotedString::new("https://www.example.com/").unwrap()))
            .byte_range(ExtXByteRange::from_range(5, 25))
            .has_discontinuity(true)
            .inf(ExtInf::from_secs(4))
            .uri("http://www.uri.com/")
            .build()
            .unwrap()
            .to_string(),
        [
            "#EXT-X-MAP:URI=\"https://www.example.com/\"\n",
            "#EXT-X-BYTERANGE:20@5\n",
            "#EXT-X-DISCONTINUITY\n",
            "#EXTINF:4,\n",
            "http://www.uri.com/\n"
        ]
        .concat()
    );
}

#[test]
fn i_frame_stream_inf_test_display() {
    let text = r#"#EXT-X-I-FRAME-STREAM-INF:URI="foo",BANDWIDTH=1000"#;
    assert_eq!(ExtXIFrameStreamInf::new("foo", 1000).to_string(), text);
}

#[test]
fn test_parser() {
    let text = r#"#EXT-X-I-FRAME-STREAM-INF:URI="foo",BANDWIDTH=1000"#;
    let i_frame_stream_inf = ExtXIFrameStreamInf::new("foo", 1000);
    assert_eq!(
        text.parse::<ExtXIFrameStreamInf>().unwrap(),
        i_frame_stream_inf.clone()
    );

    assert_eq!(i_frame_stream_inf.uri(), "foo");
    assert_eq!(*i_frame_stream_inf.bandwidth(), 1000);
}

#[test]
fn test_requires_version() {
    assert_eq!(
        ExtXIFrameStreamInf::new("foo", 1000).requires_version(),
        ProtocolVersion::V1
    );
}

#[test]
fn ext_x_map() {
    let tag = ExtXMap::new(QuotedString::new("foo").unwrap());
    let text = r#"#EXT-X-MAP:URI="foo""#;
    assert_eq!(text.parse().ok(), Some(tag.clone()));
    assert_eq!(tag.to_string(), text);
    assert_eq!(tag.requires_version(), ProtocolVersion::V6);

    let tag = ExtXMap::with_range(
        QuotedString::new("foo").unwrap(),
        ByteRange {
            length: 9,
            start: Some(2),
        },
    );
    let text = r#"#EXT-X-MAP:URI="foo",BYTERANGE="9@2""#;
    ExtXMap::from_str(text).unwrap();
    assert_eq!(text.parse().ok(), Some(tag.clone()));
    assert_eq!(tag.to_string(), text);
    assert_eq!(tag.requires_version(), ProtocolVersion::V6);
}
