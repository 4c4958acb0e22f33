use hls_m3u8::attribute::parse_attribute_pairs;
use hls_m3u8::{
    resolve_segments, ByteRange, DecimalResolution, EncryptionMethod, Error, ExtInf, ExtXDateRange, ExtXProgramDateTime,
    ExtXByteRange, ExtXIFrameStreamInf, ExtXKey, ExtXMap, HdcpLevel, MediaSegment,
    ProtocolVersion, QuotedString,
};

fn chars(s: &str) -> Vec<char> {
    s.chars().collect()
}

fn segment(uri: &str) -> MediaSegment {
    MediaSegment::builder()
        .inf(ExtInf::from_secs(4))
        .uri(uri)
        .build()
        .unwrap()
}

fn ranged(uri: &str, length: usize, start: Option<usize>) -> MediaSegment {
    MediaSegment::builder()
        .byte_range(ExtXByteRange::new(ByteRange { length, start }))
        .inf(ExtInf::from_secs(4))
        .uri(uri)
        .build()
        .unwrap()
}

fn key(uri: &str) -> ExtXKey {
    ExtXKey::new(EncryptionMethod::Aes128, QuotedString::new(uri).unwrap())
}

#[test]
fn unknown_attribute_is_ignored() {
    let a = ExtXMap::parse("#EXT-X-MAP:URI=\"a\",FUTURE-FIELD=1").unwrap();
    let b = ExtXMap::parse("#EXT-X-MAP:URI=\"a\"").unwrap();
    assert_eq!(a, b);
}

#[test]
fn numbering_from_zero_and_five() {
    let segs = vec![segment("a"), segment("b"), segment("c")];
    let out = resolve_segments(segs.clone(), 0).unwrap();
    let numbers: Vec<usize> = out.iter().map(|s| s.number).collect();
    assert_eq!(numbers, vec![0, 1, 2]);
    let out = resolve_segments(segs, 5).unwrap();
    let numbers: Vec<usize> = out.iter().map(|s| s.number).collect();
    assert_eq!(numbers, vec![5, 6, 7]);
}

#[test]
fn pinned_number_sets_the_next() {
    let pinned = MediaSegment::builder()
        .number(Some(10))
        .inf(ExtInf::from_secs(4))
        .uri("b")
        .build()
        .unwrap();
    let out = resolve_segments(vec![segment("a"), pinned, segment("c")], 0).unwrap();
    let numbers: Vec<usize> = out.iter().map(|s| s.number).collect();
    assert_eq!(numbers, vec![0, 10, 11]);
    assert!(out[1].explicit_number);
}

#[test]
fn number_past_largest_fails() {
    let pinned = MediaSegment::builder()
        .number(Some(usize::MAX))
        .inf(ExtInf::from_secs(4))
        .uri("a")
        .build()
        .unwrap();
    assert_eq!(
        resolve_segments(vec![pinned, segment("b")], 0),
        Err(Error::InconsistentSegmentNumbering)
    );
}

#[test]
fn key_inheritance() {
    let a = MediaSegment::builder()
        .push_key(key("k"))
        .inf(ExtInf::from_secs(4))
        .uri("a")
        .build()
        .unwrap();
    let c = MediaSegment::builder()
        .push_key(ExtXKey::empty())
        .inf(ExtInf::from_secs(4))
        .uri("c")
        .build()
        .unwrap();
    let out = resolve_segments(vec![a, segment("b"), c, segment("d")], 0).unwrap();
    assert_eq!(out[0].keys, vec![key("k")]);
    assert_eq!(out[1].keys, vec![key("k")]);
    assert_eq!(out[2].keys, vec![ExtXKey::empty()]);
    assert_eq!(out[3].keys, vec![ExtXKey::empty()]);
}

#[test]
fn no_keys_before_any_declared() {
    let out = resolve_segments(vec![segment("a")], 0).unwrap();
    assert!(out[0].keys.is_empty());
}

#[test]
fn byte_range_continuation() {
    let out = resolve_segments(vec![ranged("a", 9, Some(2)), ranged("b", 5, None)], 0).unwrap();
    assert_eq!(
        out[1].byte_range,
        Some(ExtXByteRange::new(ByteRange { length: 5, start: Some(11) }))
    );
}

#[test]
fn byte_range_after_discontinuity_fails() {
    let mut a = ranged("a", 9, Some(2));
    a.has_discontinuity = true;
    assert_eq!(
        resolve_segments(vec![a.clone(), ranged("b", 5, None)], 0),
        Err(Error::MissingByteRangeOffset)
    );
    let out = resolve_segments(vec![a, ranged("b", 5, Some(0))], 0).unwrap();
    assert_eq!(
        out[1].byte_range,
        Some(ExtXByteRange::new(ByteRange { length: 5, start: Some(0) }))
    );
}

#[test]
fn byte_range_without_previous_fails() {
    assert_eq!(
        resolve_segments(vec![segment("a"), ranged("b", 5, None)], 0),
        Err(Error::MissingByteRangeOffset)
    );
}

#[test]
fn empty_segment_list() {
    assert_eq!(resolve_segments(vec![], 3), Ok(vec![]));
}

#[test]
fn version_aggregation() {
    let base = segment("a");
    assert_eq!(base.required_version(), ProtocolVersion::V1);
    let mut with_map = base.clone();
    with_map.map = Some(ExtXMap::new(QuotedString::new("m").unwrap()));
    assert_eq!(with_map.required_version(), ProtocolVersion::V6);
    let mut with_range = base.clone();
    with_range.byte_range = Some(ExtXByteRange::from_range(0, 4));
    assert_eq!(with_range.required_version(), ProtocolVersion::V4);
    let mut fractional = base;
    fractional.inf = ExtInf::from_millis(4500);
    assert_eq!(fractional.required_version(), ProtocolVersion::V3);
}

#[test]
fn duration_text() {
    let mut s = segment("u");
    s.inf = ExtInf::from_millis(4500);
    assert_eq!(s.to_string(), "#EXTINF:4.5,\nu\n");
    s.inf = ExtInf::from_millis(10025);
    assert_eq!(s.to_string(), "#EXTINF:10.025,\nu\n");
    s.inf = ExtInf::from_millis(120);
    assert_eq!(s.to_string(), "#EXTINF:0.12,\nu\n");
}

#[test]
fn missing_duration_or_uri() {
    assert_eq!(
        MediaSegment::builder().uri("a").build(),
        Err(Error::MissingAttribute("inf".to_string()))
    );
    assert_eq!(
        MediaSegment::builder().inf(ExtInf::from_secs(1)).build(),
        Err(Error::MissingAttribute("uri".to_string()))
    );
}

#[test]
fn attribute_pairs_respect_quotes() {
    let pairs = parse_attribute_pairs(&chars("A=\"x,y\",B=2")).unwrap();
    assert_eq!(pairs.len(), 2);
    assert_eq!(pairs[0].key, chars("A"));
    assert_eq!(pairs[0].value, chars("\"x,y\""));
    assert_eq!(pairs[1].key, chars("B"));
    assert_eq!(pairs[1].value, chars("2"));
    let pairs = parse_attribute_pairs(&chars("A=b=c")).unwrap();
    assert_eq!(pairs[0].value, chars("b=c"));
    assert!(parse_attribute_pairs(&[]).unwrap().is_empty());
}

#[test]
fn malformed_attribute_lists() {
    assert_eq!(
        parse_attribute_pairs(&chars("A=\"x")),
        Err(Error::MalformedAttributeList)
    );
    assert_eq!(
        parse_attribute_pairs(&chars("A=1,B")),
        Err(Error::MalformedAttributeList)
    );
    assert_eq!(
        ExtXMap::parse("#EXT-X-MAP:URI=\"a"),
        Err(Error::MalformedAttributeList)
    );
}

#[test]
fn decode_errors() {
    assert_eq!(ExtXMap::parse("#EXT-X-MAP:BYTERANGE=\"1@2\""), Err(Error::MissingAttribute("URI".to_string())));
    assert_eq!(ExtXMap::parse("#EXT-X-MAPS:URI=\"a\""), Err(Error::InvalidInput));
    assert_eq!(ExtXMap::parse("#EXT-X-MAP:URI=a"), Err(Error::InvalidQuotedString));
    assert_eq!(ExtXMap::parse("#EXT-X-MAP:URI=\"a\",BYTERANGE=\"x@2\""), Err(Error::InvalidNumber));
    assert_eq!(
        ExtXIFrameStreamInf::parse("#EXT-X-I-FRAME-STREAM-INF:URI=\"a\""),
        Err(Error::MissingAttribute("BANDWIDTH".to_string()))
    );
    assert_eq!(
        ExtXIFrameStreamInf::parse("#EXT-X-I-FRAME-STREAM-INF:URI=\"a\",BANDWIDTH=1x"),
        Err(Error::InvalidNumber)
    );
    assert_eq!(
        ExtXIFrameStreamInf::parse("#EXT-X-I-FRAME-STREAM-INF:URI=\"a\",BANDWIDTH=18446744073709551616"),
        Err(Error::InvalidNumber)
    );
    assert_eq!(
        ExtXIFrameStreamInf::parse("#EXT-X-I-FRAME-STREAM-INF:URI=\"a\",BANDWIDTH=1,RESOLUTION=12"),
        Err(Error::InvalidResolution)
    );
    assert_eq!(
        ExtXIFrameStreamInf::parse("#EXT-X-I-FRAME-STREAM-INF:URI=\"a\",BANDWIDTH=1,HDCP-LEVEL=type-0"),
        Err(Error::InvalidEnumValue)
    );
    assert_eq!(QuotedString::new("a\"b"), Err(Error::InvalidQuotedString));
}

#[test]
fn i_frame_stream_inf_round_trip_all_fields() {
    let mut tag = ExtXIFrameStreamInf::new("low/iframe.m3u8", 86000);
    tag.set_average_bandwidth(Some(80000));
    tag.set_codecs(Some("avc1.4d001f,mp4a.40.5".to_string()));
    tag.set_resolution(1920, 1080);
    tag.set_hdcp_level(Some(HdcpLevel::Type0));
    tag.set_video(Some("vid".to_string()));
    let text = tag.to_string();
    assert_eq!(
        text,
        "#EXT-X-I-FRAME-STREAM-INF:URI=\"low/iframe.m3u8\",BANDWIDTH=86000,AVERAGE-BANDWIDTH=80000,CODECS=\"avc1.4d001f,mp4a.40.5\",RESOLUTION=1920x1080,HDCP-LEVEL=TYPE-0,VIDEO=\"vid\""
    );
    let back = ExtXIFrameStreamInf::parse(&text).unwrap();
    assert_eq!(back, tag);
    assert_eq!(back.resolution(), Some((1920, 1080)));
    assert_eq!(back.to_string(), text);
}

#[test]
fn map_round_trip_and_determinism() {
    let tag = ExtXMap::with_range(QuotedString::new("init.mp4").unwrap(), ByteRange { length: 720, start: Some(0) });
    let text = tag.to_string();
    assert_eq!(text, "#EXT-X-MAP:URI=\"init.mp4\",BYTERANGE=\"720@0\"");
    assert_eq!(tag.clone().to_string(), text);
    assert_eq!(ExtXMap::parse(&text).unwrap(), tag);
    assert_eq!(ExtXMap::parse(&text).unwrap().range(), Some(ByteRange { length: 720, start: Some(0) }));
}

#[test]
fn primitive_values() {
    assert_eq!(ByteRange::parse(&chars("20@5")), Ok(ByteRange { length: 20, start: Some(5) }));
    assert_eq!(ByteRange::parse(&chars("5")), Ok(ByteRange { length: 5, start: None }));
    assert_eq!(ByteRange::parse(&chars("")), Err(Error::InvalidNumber));
    assert_eq!(ByteRange { length: 0, start: Some(18446744073709551615) }.to_string(), "0@18446744073709551615");
    assert_eq!(DecimalResolution::parse(&chars("640x360")), Ok(DecimalResolution::new(640, 360)));
    assert_eq!(DecimalResolution::parse(&chars("640X360")), Err(Error::InvalidResolution));
    assert_eq!(HdcpLevel::parse(&chars("NONE")), Ok(HdcpLevel::Unprotected));
    assert_eq!(QuotedString::parse(&chars("\"q\"")).unwrap().value(), "q");
    assert_eq!(QuotedString::parse(&chars("\"")), Err(Error::InvalidQuotedString));
    assert_eq!(ProtocolVersion::V2.max(ProtocolVersion::V6), ProtocolVersion::V6);
}

#[test]
fn key_text() {
    let mut out = Vec::new();
    key("k.bin").encode_into(&mut out);
    assert_eq!(out.iter().collect::<String>(), "#EXT-X-KEY:METHOD=AES-128,URI=\"k.bin\"");
    let mut out = Vec::new();
    ExtXKey::empty().encode_into(&mut out);
    assert_eq!(out.iter().collect::<String>(), "#EXT-X-KEY:METHOD=NONE");
}

#[test]
fn segment_tag_decoders() {
    assert_eq!(
        ExtXByteRange::parse("#EXT-X-BYTERANGE:20@5"),
        Ok(ExtXByteRange::from_range(5, 25))
    );
    assert_eq!(ExtXByteRange::parse("#EXT-X-BYTERANGE:"), Err(Error::InvalidNumber));
    let pdt = ExtXProgramDateTime::parse("#EXT-X-PROGRAM-DATE-TIME:2010-02-19T14:54:23.031+08:00").unwrap();
    assert_eq!(pdt.date_time, "2010-02-19T14:54:23.031+08:00");
    assert_eq!(ExtXKey::parse("#EXT-X-KEY:METHOD=NONE"), Ok(ExtXKey::empty()));
    assert_eq!(ExtXKey::parse("#EXT-X-KEY:METHOD=AES-128,URI=\"k\",IV=0x1"), Ok(key("k")));
    assert_eq!(ExtXKey::parse("#EXT-X-KEY:METHOD=AES-128"), Err(Error::MissingAttribute("URI".to_string())));
    assert_eq!(ExtXKey::parse("#EXT-X-KEY:METHOD=AES-256,URI=\"k\""), Err(Error::InvalidEnumValue));
    assert_eq!(ExtXKey::parse("#EXT-X-KEY:URI=\"k\""), Err(Error::MissingAttribute("METHOD".to_string())));
    let dr = ExtXDateRange::parse("#EXT-X-DATERANGE:ID=\"ad\",START-DATE=\"2014-03-05T11:15:00Z\"").unwrap();
    assert_eq!(dr.id.value(), "ad");
    assert_eq!(dr.start_date.value(), "2014-03-05T11:15:00Z");
    assert_eq!(
        ExtXDateRange::parse("#EXT-X-DATERANGE:ID=\"ad\""),
        Err(Error::MissingAttribute("START-DATE".to_string()))
    );
    let inf = ExtInf::parse("#EXTINF:10.5,title").unwrap();
    assert_eq!(inf.millis, 10500);
    assert_eq!(inf.title, Some("title".to_string()));
    assert_eq!(ExtInf::parse("#EXTINF:4,"), Ok(ExtInf::from_secs(4)));
    assert_eq!(ExtInf::parse("#EXTINF:4.1234,"), Err(Error::InvalidNumber));
    assert_eq!(ExtInf::parse("#EXTINF:4"), Err(Error::InvalidInput));
}

#[test]
fn segment_tag_round_trips() {
    let mut out = Vec::new();
    let dr = ExtXDateRange {
        id: QuotedString::new("x").unwrap(),
        start_date: QuotedString::new("2020-01-01T00:00:00Z").unwrap(),
    };
    dr.encode_into(&mut out);
    let text: String = out.iter().collect();
    assert_eq!(ExtXDateRange::parse(&text), Ok(dr));
    for ms in [0u64, 7, 40, 500, 1234, 4000, 999999] {
        let inf = ExtInf::from_millis(ms);
        let mut out = Vec::new();
        inf.encode_into(&mut out);
        let text: String = out.iter().collect();
        assert_eq!(ExtInf::parse(&text), Ok(inf));
    }
    let pdt = ExtXProgramDateTime { date_time: "2020-01-01T00:00:00Z".to_string() };
    let mut out = Vec::new();
    pdt.encode_into(&mut out);
    let text: String = out.iter().collect();
    assert_eq!(ExtXProgramDateTime::parse(&text), Ok(pdt));
}
