use vstd::prelude::*;

use crate::i_frame_stream_inf::{
    decode_i_frame_stream_inf, empty_draft, encode_i_frame_stream_inf, i_frame_step,
    IFrameStreamInfDraft, IFrameStreamInfModel,
};
use crate::attribute::{field_text, plain, safe_value};
use crate::types::{DecimalResolution, HdcpLevel};
use crate::attribute::{
    has_prefix, attribute_pairs, lemma_attribute_pairs_append, fold_pairs, join_pairs, lemma_attribute_pairs_round_trip, safe_key, safe_pair,
};
use crate::map::{decode_map, encode_map, map_step, ExtXMap, MapModel};
use crate::text::{decimal, lemma_decimal_round_trip};
use crate::types::{lemma_unquote_quoted, quotable, quoted};
use crate::media_segment::MediaSegment;
use crate::key_and_date_range::{date_range_step, decode_date_range, decode_key, key_step, method_of};
use crate::segment_tags::{EncryptionMethod, ExtInf, ExtXByteRange, ExtXDateRange, ExtXKey, ExtXProgramDateTime};
use crate::sequencer::{resolve_shapes, resolve_step, SegmentShape};
use crate::types::{ByteRange, ErrorView, ProtocolVersion};

verus! {

/// Equal tags have equal text: encoding depends on the value alone,
/// attribute order included.
pub proof fn lemma_encode_deterministic(
    a: MapModel,
    b: MapModel,
    c: IFrameStreamInfModel,
    d: IFrameStreamInfModel,
    s: MediaSegment,
    t: MediaSegment,
)
    requires
        a == b,
        c == d,
        s == t,
    ensures
        encode_map(a) == encode_map(b),
        encode_i_frame_stream_inf(c) == encode_i_frame_stream_inf(d),
        s.spec_encode() == t.spec_encode(),
{
}

/// Without pinned numbers, the segments are numbered `start`, `start + 1`, ...
/// in order.
pub proof fn lemma_numbering(shapes: Seq<SegmentShape>, start: nat)
    requires
        forall|i: int| 0 <= i < shapes.len() ==> (#[trigger] shapes[i]).pinned is None,
        resolve_shapes(shapes, start) is Ok,
    ensures
        resolve_shapes(shapes, start)->Ok_0.1.next == start + shapes.len(),
        resolve_shapes(shapes, start)->Ok_0.0.len() == shapes.len(),
        forall|i: int|
            0 <= i < shapes.len() ==> (#[trigger] resolve_shapes(shapes, start)->Ok_0.0[i]).number
                == start + i,
    decreases shapes.len(),
{
    if shapes.len() > 0 {
        let init = shapes.drop_last();
        assert forall|i: int| 0 <= i < init.len() implies (#[trigger] init[i]).pinned is None by {
            assert(init[i] == shapes[i]);
        }
        lemma_numbering(init, start);
        assert(shapes[shapes.len() - 1].pinned is None);
    }
}

/// Numbering never fails while the numbers fit and no byte range needs an
/// offset that is not there.
pub proof fn lemma_numbering_succeeds(shapes: Seq<SegmentShape>, start: nat)
    requires
        forall|i: int| 0 <= i < shapes.len() ==> (#[trigger] shapes[i]).pinned is None,
        forall|i: int| 0 <= i < shapes.len() ==> (#[trigger] shapes[i]).range is None,
        start + shapes.len() <= usize::MAX + 1,
    ensures
        resolve_shapes(shapes, start) is Ok,
    decreases shapes.len(),
{
    if shapes.len() > 0 {
        let init = shapes.drop_last();
        assert forall|i: int| 0 <= i < init.len() implies (#[trigger] init[i]).pinned is None by {
            assert(init[i] == shapes[i]);
        }
        assert forall|i: int| 0 <= i < init.len() implies (#[trigger] init[i]).range is None by {
            assert(init[i] == shapes[i]);
        }
        lemma_numbering_succeeds(init, start);
        lemma_numbering(init, start);
        assert(shapes[shapes.len() - 1].pinned is None);
        assert(shapes[shapes.len() - 1].range is None);
    }
}

/// The last segment at or before `i` that declares key tags.
pub open spec fn last_declaring(shapes: Seq<SegmentShape>, i: int) -> Option<nat>
    decreases i + 1,
{
    if i < 0 || i >= shapes.len() {
        None
    } else if shapes[i].declares_keys {
        Some(i as nat)
    } else {
        last_declaring(shapes, i - 1)
    }
}

/// Each segment's keys are those of the last segment at or before it that
/// declared key tags (an empty-key marker included); before any, none.
pub proof fn lemma_key_inheritance(shapes: Seq<SegmentShape>, start: nat)
    requires
        resolve_shapes(shapes, start) is Ok,
    ensures
        resolve_shapes(shapes, start)->Ok_0.0.len() == shapes.len(),
        resolve_shapes(shapes, start)->Ok_0.1.key_source == last_declaring(shapes, shapes.len() - 1),
        forall|i: int|
            0 <= i < shapes.len() ==> (#[trigger] resolve_shapes(shapes, start)->Ok_0.0[i]).key_source
                == last_declaring(shapes, i),
    decreases shapes.len(),
{
    if shapes.len() > 0 {
        let init = shapes.drop_last();
        let n = shapes.len() - 1;
        lemma_key_inheritance(init, start);
        lemma_last_declaring_prefix(shapes, n);
        let (rs, st) = resolve_shapes(init, start)->Ok_0;
        let all = resolve_shapes(shapes, start)->Ok_0;
        assert(resolve_step(st, n as nat, shapes[n]) is Ok);
        assert(all.0 == rs.push(resolve_step(st, n as nat, shapes[n])->Ok_0.0));
        assert(last_declaring(shapes, n) == if shapes[n].declares_keys {
            Some(n as nat)
        } else {
            last_declaring(shapes, n - 1)
        });
        assert forall|i: int| 0 <= i < shapes.len() implies (#[trigger] all.0[i]).key_source
            == last_declaring(shapes, i) by {
            if i < n {
                assert(all.0[i] == rs[i]);
            }
        }
    }
}

/// Below the last index, the last declaring segment is that of the prefix.
proof fn lemma_last_declaring_prefix(shapes: Seq<SegmentShape>, n: int)
    requires
        0 <= n < shapes.len(),
        n == shapes.len() - 1,
    ensures
        forall|i: int| -1 <= i < n ==> #[trigger] last_declaring(shapes, i) == last_declaring(shapes.drop_last(), i),
{
    assert forall|i: int| -1 <= i < n implies #[trigger] last_declaring(shapes, i) == last_declaring(
        shapes.drop_last(),
        i,
    ) by {
        lemma_last_declaring_eq(shapes, shapes.drop_last(), i);
    }
}

proof fn lemma_last_declaring_eq(a: Seq<SegmentShape>, b: Seq<SegmentShape>, i: int)
    requires
        i < b.len() <= a.len(),
        forall|k: int| 0 <= k < b.len() ==> a[k] == b[k],
    ensures
        last_declaring(a, i) == last_declaring(b, i),
    decreases i + 1,
{
    if i >= 0 {
        lemma_last_declaring_eq(a, b, i - 1);
    }
}

/// A byte range without offset starts where the previous segment's range
/// ended, when that segment had a range and no discontinuity. After a
/// discontinuity, or after a segment without range, it fails for want of an
/// offset (unless the segment's own number already failed, having passed the
/// largest `usize`).
pub proof fn lemma_byte_range_continuation(shapes: Seq<SegmentShape>, start: nat, i: int)
    requires
        1 <= i < shapes.len(),
        shapes[i].range is Some,
        shapes[i].range->0.start is None,
        resolve_shapes(shapes.take(i), start) is Ok,
    ensures
        ({
            let prev = shapes[i - 1];
            let (rs, st) = resolve_shapes(shapes.take(i), start)->Ok_0;
            let r = rs[i - 1];
            let next = resolve_shapes(shapes.take(i + 1), start);
            &&& (prev.discontinuity || r.range is None) ==> {
                ||| next == Err::<(Seq<crate::sequencer::Resolved>, crate::sequencer::SequenceState), ErrorView>(ErrorView::MissingByteRangeOffset)
                ||| next == Err::<(Seq<crate::sequencer::Resolved>, crate::sequencer::SequenceState), ErrorView>(ErrorView::InconsistentSegmentNumbering)
            }
            &&& (!prev.discontinuity && r.range is Some && next is Ok) ==> next->Ok_0.0[i].range
                == Some(
                ByteRange {
                    length: shapes[i].range->0.length,
                    start: Some((r.range->0.start->0 + r.range->0.length) as usize),
                },
            )
        }),
{
    let t = shapes.take(i);
    lemma_resolve_len(t, start);
    assert(t.drop_last() =~= shapes.take(i - 1));
    let (rs0, st0) = resolve_shapes(shapes.take(i - 1), start)->Ok_0;
    assert(resolve_shapes(t, start)->Ok_0.0 == rs0.push(resolve_step(st0, (i - 1) as nat, shapes[i - 1])->Ok_0.0));
    assert(resolve_shapes(t, start)->Ok_0.1 == resolve_step(st0, (i - 1) as nat, shapes[i - 1])->Ok_0.1);
    assert(t.last() == shapes[i - 1]);
    assert(shapes.take(i + 1).drop_last() =~= t);
    assert(shapes.take(i + 1).last() == shapes[i]);
}

/// A resolution that succeeds decides once for each segment.
pub proof fn lemma_resolve_len(shapes: Seq<SegmentShape>, start: nat)
    requires
        resolve_shapes(shapes, start) is Ok,
    ensures
        resolve_shapes(shapes, start)->Ok_0.0.len() == shapes.len(),
    decreases shapes.len(),
{
    if shapes.len() > 0 {
        lemma_resolve_len(shapes.drop_last(), start);
    }
}

/// A segment with a duration of whole seconds and a uri, and otherwise only
/// tags that the first version has, needs the first version;
/// an initialization section raises that to exactly the sixth, a byte range
/// to exactly the fourth, a fractional duration to exactly the third.
pub proof fn lemma_version_aggregation(s: MediaSegment, m: ExtXMap, b: ExtXByteRange, inf: ExtInf)
    requires
        s.map is None,
        s.byte_range is None,
        s.inf.millis % 1000 == 0,
        inf.millis % 1000 != 0,
    ensures
        s.spec_required_version() == ProtocolVersion::V1,
        (MediaSegment { map: Some(m), ..s }).spec_required_version() == ProtocolVersion::V6,
        (MediaSegment { byte_range: Some(b), ..s }).spec_required_version() == ProtocolVersion::V4,
        (MediaSegment { inf: inf, ..s }).spec_required_version() == ProtocolVersion::V3,
{
}

/// A decimal form can stand between quotes.
proof fn lemma_decimal_quotable(n: nat)
    ensures
        quotable(decimal(n)),
{
    lemma_decimal_round_trip(n);
}

/// The text form of a byte range can stand between quotes.
proof fn lemma_byte_range_quotable(r: ByteRange)
    ensures
        quotable(r.spec_encode()),
{
    lemma_decimal_quotable(r.length as nat);
    if let Some(st) = r.start {
        lemma_decimal_quotable(st as nat);
        let e = r.spec_encode();
        let d = decimal(r.length as nat);
        assert forall|i: int| 0 <= i < e.len() implies #[trigger] e[i] != '"' && e[i] != '\r' && e[i] != '\n' by {
            if i < d.len() {
                assert(e[i] == d[i]);
            } else if i > d.len() {
                assert(e[i] == decimal(st as nat)[i - d.len() - 1]);
            }
        }
    }
}

/// A quoted string is a safe attribute value.
proof fn lemma_quoted_safe(k: Seq<char>, u: Seq<char>)
    requires
        safe_key(k),
        quotable(u),
    ensures
        safe_pair((k, quoted(u))),
{
    assert(quoted(u).subrange(1, quoted(u).len() - 1) =~= u);
}

/// An initialization-section tag reads back from its text as the same tag.
pub proof fn lemma_map_round_trip(m: MapModel)
    requires
        quotable(m.uri),
    ensures
        decode_map(encode_map(m)) == Ok::<MapModel, ErrorView>(m),
{
    reveal_strlit("#EXT-X-MAP:");
    reveal_strlit("URI=");
    reveal_strlit("URI");
    reveal_strlit(",BYTERANGE=");
    reveal_strlit("BYTERANGE");
    let prefix = "#EXT-X-MAP:"@;
    let e = encode_map(m);
    assert(e.take(prefix.len() as int) =~= prefix);
    let body = e.skip(prefix.len() as int);
    let p1 = ("URI"@, quoted(m.uri));
    assert(safe_key("URI"@));
    lemma_quoted_safe("URI"@, m.uri);
    lemma_unquote_quoted(m.uri);
    let step = |st, p| map_step(st, p);
    match m.range {
        None => {
            let ps = seq![p1];
            assert(body =~= join_pairs(ps));
            lemma_attribute_pairs_round_trip(ps);
            assert(ps.drop_last() =~= Seq::<(Seq<char>, Seq<char>)>::empty());
            assert(ps.last() == p1);
            assert(fold_pairs(ps.drop_last(), (None, None), step) == Ok::<_, ErrorView>((None::<Seq<char>>, None::<ByteRange>)));
            assert(fold_pairs(ps, (None, None), step) == map_step((None, None), p1));
        },
        Some(r) => {
            let q = r.spec_encode();
            lemma_byte_range_quotable(r);
            r.lemma_round_trip();
            lemma_unquote_quoted(q);
            let p2 = ("BYTERANGE"@, quoted(q));
            assert(safe_key("BYTERANGE"@));
            lemma_quoted_safe("BYTERANGE"@, q);
            let ps = seq![p1, p2];
            assert(join_pairs(ps.drop_last()) == join_pairs(seq![p1])) by {
                assert(ps.drop_last() =~= seq![p1]);
            }
            assert(body =~= join_pairs(ps));
            lemma_attribute_pairs_round_trip(ps);
            assert(ps.drop_last() =~= seq![p1]);
            assert(seq![p1].drop_last() =~= Seq::<(Seq<char>, Seq<char>)>::empty());
            assert("BYTERANGE"@ != "URI"@);
            assert(seq![p1].last() == p1);
            assert(ps.last() == p2);
            assert(fold_pairs(seq![p1].drop_last(), (None, None), step) == Ok::<_, ErrorView>((None::<Seq<char>>, None::<ByteRange>)));
            assert(fold_pairs(seq![p1], (None, None), step) == map_step((None, None), p1));
        },
    }
}

/// `ps` with `o` appended where it is given.
pub open spec fn push_opt(
    ps: Seq<(Seq<char>, Seq<char>)>,
    o: Option<(Seq<char>, Seq<char>)>,
) -> Seq<(Seq<char>, Seq<char>)> {
    match o {
        Some(x) => ps.push(x),
        None => ps,
    }
}

pub open spec fn all_safe(ps: Seq<(Seq<char>, Seq<char>)>) -> bool {
    forall|k: int| 0 <= k < ps.len() ==> safe_pair(#[trigger] ps[k])
}

/// A decimal form is plain text.
proof fn lemma_decimal_plain(n: nat)
    ensures
        plain(decimal(n)),
{
    lemma_decimal_round_trip(n);
}

/// A key with the given characters is safe.
proof fn lemma_keys_safe()
    ensures
        safe_key("URI"@),
        safe_key("BANDWIDTH"@),
        safe_key("AVERAGE-BANDWIDTH"@),
        safe_key("CODECS"@),
        safe_key("RESOLUTION"@),
        safe_key("HDCP-LEVEL"@),
        safe_key("VIDEO"@),
{
    reveal_strlit("URI");
    reveal_strlit("BANDWIDTH");
    reveal_strlit("AVERAGE-BANDWIDTH");
    reveal_strlit("CODECS");
    reveal_strlit("RESOLUTION");
    reveal_strlit("HDCP-LEVEL");
    reveal_strlit("VIDEO");
}

/// The names of the i-frame variant tag's attributes differ from one another.
proof fn lemma_keys_distinct()
    ensures
        "BANDWIDTH"@ != "URI"@,
        "AVERAGE-BANDWIDTH"@ != "URI"@,
        "AVERAGE-BANDWIDTH"@ != "BANDWIDTH"@,
        "CODECS"@ != "URI"@,
        "CODECS"@ != "BANDWIDTH"@,
        "CODECS"@ != "AVERAGE-BANDWIDTH"@,
        "RESOLUTION"@ != "URI"@,
        "RESOLUTION"@ != "BANDWIDTH"@,
        "RESOLUTION"@ != "AVERAGE-BANDWIDTH"@,
        "RESOLUTION"@ != "CODECS"@,
        "HDCP-LEVEL"@ != "URI"@,
        "HDCP-LEVEL"@ != "BANDWIDTH"@,
        "HDCP-LEVEL"@ != "AVERAGE-BANDWIDTH"@,
        "HDCP-LEVEL"@ != "CODECS"@,
        "HDCP-LEVEL"@ != "RESOLUTION"@,
        "VIDEO"@ != "URI"@,
        "VIDEO"@ != "BANDWIDTH"@,
        "VIDEO"@ != "AVERAGE-BANDWIDTH"@,
        "VIDEO"@ != "CODECS"@,
        "VIDEO"@ != "RESOLUTION"@,
        "VIDEO"@ != "HDCP-LEVEL"@,
{
    reveal_strlit("URI");
    reveal_strlit("BANDWIDTH");
    reveal_strlit("AVERAGE-BANDWIDTH");
    reveal_strlit("CODECS");
    reveal_strlit("RESOLUTION");
    reveal_strlit("HDCP-LEVEL");
    reveal_strlit("VIDEO");
    assert("RESOLUTION"@[0] != "HDCP-LEVEL"@[0]);
    assert("URI"@.len() == 3);
    assert("BANDWIDTH"@.len() == 9);
    assert("AVERAGE-BANDWIDTH"@.len() == 17);
    assert("CODECS"@.len() == 6);
    assert("RESOLUTION"@.len() == 10);
    assert("HDCP-LEVEL"@.len() == 10);
    assert("VIDEO"@.len() == 5);
}

/// The text forms of a resolution and of a protection level are plain.
proof fn lemma_values_plain(r: DecimalResolution, h: HdcpLevel)
    ensures
        plain(r.spec_encode()),
        plain(h.spec_encode()),
{
    reveal_strlit("TYPE-0");
    reveal_strlit("NONE");
    lemma_decimal_plain(r.width as nat);
    lemma_decimal_plain(r.height as nat);
    let e = r.spec_encode();
    let d = decimal(r.width as nat);
    assert forall|i: int| 0 <= i < e.len() implies #[trigger] e[i] != '"' && e[i] != ',' by {
        if i < d.len() {
            assert(e[i] == d[i]);
        } else if i > d.len() {
            assert(e[i] == decimal(r.height as nat)[i - d.len() - 1]);
        }
    }
}

/// The optional text after the required attributes: `,KEY=VALUE`, or nothing.
pub open spec fn opt_text(o: Option<(Seq<char>, Seq<char>)>) -> Seq<char> {
    match o {
        Some(x) => seq![','] + field_text(x),
        None => Seq::empty(),
    }
}

pub open spec fn avg_pair(v: Option<u64>) -> Option<(Seq<char>, Seq<char>)> {
    match v {
        Some(b) => Some(("AVERAGE-BANDWIDTH"@, decimal(b as nat))),
        None => None,
    }
}

pub open spec fn codecs_pair(v: Option<Seq<char>>) -> Option<(Seq<char>, Seq<char>)> {
    match v {
        Some(c) => Some(("CODECS"@, quoted(c))),
        None => None,
    }
}

pub open spec fn resolution_pair(v: Option<DecimalResolution>) -> Option<(Seq<char>, Seq<char>)> {
    match v {
        Some(r) => Some(("RESOLUTION"@, r.spec_encode())),
        None => None,
    }
}

pub open spec fn hdcp_pair(v: Option<HdcpLevel>) -> Option<(Seq<char>, Seq<char>)> {
    match v {
        Some(h) => Some(("HDCP-LEVEL"@, h.spec_encode())),
        None => None,
    }
}

pub open spec fn video_pair(v: Option<Seq<char>>) -> Option<(Seq<char>, Seq<char>)> {
    match v {
        Some(c) => Some(("VIDEO"@, quoted(c))),
        None => None,
    }
}

/// The head of the tag is the two required pairs, joined.
proof fn lemma_i_frame_head(m: IFrameStreamInfModel)
    requires
        quotable(m.uri),
    ensures
        ({
            let ps0 = seq![("URI"@, quoted(m.uri)), ("BANDWIDTH"@, decimal(m.bandwidth as nat))];
            let prefix = "#EXT-X-I-FRAME-STREAM-INF:"@;
            &&& all_safe(ps0)
            &&& crate::i_frame_stream_inf::head_text(m) == prefix + join_pairs(ps0)
            &&& fold_pairs(ps0, empty_draft(), |d, p| i_frame_step(d, p)) == Ok::<_, ErrorView>(
                IFrameStreamInfDraft { uri: Some(m.uri), bandwidth: Some(m.bandwidth), ..empty_draft() },
            )
        }),
{
    reveal_strlit("URI=");
    reveal_strlit(",BANDWIDTH=");
    reveal_strlit("URI");
    reveal_strlit("BANDWIDTH");
    lemma_keys_safe();
    lemma_keys_distinct();
    let step = |d, p| i_frame_step(d, p);
    let p_uri = ("URI"@, quoted(m.uri));
    let p_bw = ("BANDWIDTH"@, decimal(m.bandwidth as nat));
    lemma_quoted_safe("URI"@, m.uri);
    lemma_unquote_quoted(m.uri);
    lemma_decimal_plain(m.bandwidth as nat);
    crate::types::lemma_u64_round_trip(m.bandwidth);
    let ps0 = seq![p_uri, p_bw];
    assert(ps0.drop_last() =~= seq![p_uri]);
    assert(seq![p_uri].drop_last() =~= Seq::<(Seq<char>, Seq<char>)>::empty());
    assert(ps0[0] == p_uri);
    assert(ps0.last() == p_bw);
    assert(seq![p_uri][0] == p_uri);
    assert(join_pairs(seq![p_uri]) == field_text(p_uri));
    assert(join_pairs(ps0) == join_pairs(seq![p_uri]) + seq![','] + field_text(p_bw));
    assert(crate::i_frame_stream_inf::head_text(m) =~= "#EXT-X-I-FRAME-STREAM-INF:"@ + join_pairs(ps0));
    assert(all_safe(ps0));
    assert(seq![p_uri].last() == p_uri);
    assert(fold_pairs(seq![p_uri].drop_last(), empty_draft(), step) == Ok::<_, ErrorView>(empty_draft()));
    assert(fold_pairs(seq![p_uri], empty_draft(), step) == i_frame_step(empty_draft(), p_uri));
}

proof fn lemma_avg_stage(v: Option<u64>, d: IFrameStreamInfDraft)
    ensures
        crate::i_frame_stream_inf::average_bandwidth_text(v) == opt_text(avg_pair(v)),
        avg_pair(v) is Some ==> safe_pair(avg_pair(v)->0) && i_frame_step(d, avg_pair(v)->0)
            == Ok::<_, ErrorView>(IFrameStreamInfDraft { average_bandwidth: v, ..d }),
{
    reveal_strlit(",AVERAGE-BANDWIDTH=");
    reveal_strlit("AVERAGE-BANDWIDTH");
    lemma_keys_safe();
    lemma_keys_distinct();
    if let Some(b) = v {
        lemma_decimal_plain(b as nat);
        crate::types::lemma_u64_round_trip(b);
        assert(crate::i_frame_stream_inf::average_bandwidth_text(v) =~= opt_text(avg_pair(v)));
    }
}

proof fn lemma_codecs_stage(v: Option<Seq<char>>, d: IFrameStreamInfDraft)
    requires
        v is Some ==> quotable(v->0),
    ensures
        crate::i_frame_stream_inf::codecs_text(v) == opt_text(codecs_pair(v)),
        codecs_pair(v) is Some ==> safe_pair(codecs_pair(v)->0) && i_frame_step(d, codecs_pair(v)->0)
            == Ok::<_, ErrorView>(IFrameStreamInfDraft { codecs: v, ..d }),
{
    reveal_strlit(",CODECS=");
    reveal_strlit("CODECS");
    lemma_keys_safe();
    lemma_keys_distinct();
    if let Some(c) = v {
        lemma_quoted_safe("CODECS"@, c);
        lemma_unquote_quoted(c);
        assert(crate::i_frame_stream_inf::codecs_text(v) =~= opt_text(codecs_pair(v)));
    }
}

proof fn lemma_resolution_stage(v: Option<DecimalResolution>, d: IFrameStreamInfDraft)
    ensures
        crate::i_frame_stream_inf::resolution_text(v) == opt_text(resolution_pair(v)),
        resolution_pair(v) is Some ==> safe_pair(resolution_pair(v)->0) && i_frame_step(
            d,
            resolution_pair(v)->0,
        ) == Ok::<_, ErrorView>(IFrameStreamInfDraft { resolution: v, ..d }),
{
    reveal_strlit(",RESOLUTION=");
    reveal_strlit("RESOLUTION");
    lemma_keys_safe();
    lemma_keys_distinct();
    if let Some(r) = v {
        lemma_values_plain(r, HdcpLevel::Type0);
        r.lemma_round_trip();
        assert(crate::i_frame_stream_inf::resolution_text(v) =~= opt_text(resolution_pair(v)));
    }
}

proof fn lemma_hdcp_stage(v: Option<HdcpLevel>, d: IFrameStreamInfDraft)
    ensures
        crate::i_frame_stream_inf::hdcp_level_text(v) == opt_text(hdcp_pair(v)),
        hdcp_pair(v) is Some ==> safe_pair(hdcp_pair(v)->0) && i_frame_step(d, hdcp_pair(v)->0)
            == Ok::<_, ErrorView>(IFrameStreamInfDraft { hdcp_level: v, ..d }),
{
    reveal_strlit(",HDCP-LEVEL=");
    reveal_strlit("HDCP-LEVEL");
    lemma_keys_safe();
    lemma_keys_distinct();
    if let Some(h) = v {
        lemma_values_plain(DecimalResolution { width: 0, height: 0 }, h);
        h.lemma_round_trip();
        assert(crate::i_frame_stream_inf::hdcp_level_text(v) =~= opt_text(hdcp_pair(v)));
    }
}

proof fn lemma_video_stage(v: Option<Seq<char>>, d: IFrameStreamInfDraft)
    requires
        v is Some ==> quotable(v->0),
    ensures
        crate::i_frame_stream_inf::video_text(v) == opt_text(video_pair(v)),
        video_pair(v) is Some ==> safe_pair(video_pair(v)->0) && i_frame_step(d, video_pair(v)->0)
            == Ok::<_, ErrorView>(IFrameStreamInfDraft { video: v, ..d }),
{
    reveal_strlit(",VIDEO=");
    reveal_strlit("VIDEO");
    lemma_keys_safe();
    lemma_keys_distinct();
    if let Some(c) = v {
        lemma_quoted_safe("VIDEO"@, c);
        lemma_unquote_quoted(c);
        assert(crate::i_frame_stream_inf::video_text(v) =~= opt_text(video_pair(v)));
    }
}

/// The attribute pairs of an i-frame variant tag's text, in order.
pub open spec fn i_frame_pairs(m: IFrameStreamInfModel) -> Seq<(Seq<char>, Seq<char>)> {
    push_opt(
        push_opt(
            push_opt(
                push_opt(
                    push_opt(
                        seq![("URI"@, quoted(m.uri)), ("BANDWIDTH"@, decimal(m.bandwidth as nat))],
                        avg_pair(m.average_bandwidth),
                    ),
                    codecs_pair(m.codecs),
                ),
                resolution_pair(m.resolution),
            ),
            hdcp_pair(m.hdcp_level),
        ),
        video_pair(m.video),
    )
}

pub open spec fn full_draft(m: IFrameStreamInfModel) -> IFrameStreamInfDraft {
    IFrameStreamInfDraft {
        uri: Some(m.uri),
        bandwidth: Some(m.bandwidth),
        average_bandwidth: m.average_bandwidth,
        codecs: m.codecs,
        resolution: m.resolution,
        hdcp_level: m.hdcp_level,
        video: m.video,
    }
}

/// One optional attribute: the walk over the pairs takes it into the draft.
proof fn lemma_stage_fold(
    ps: Seq<(Seq<char>, Seq<char>)>,
    o: Option<(Seq<char>, Seq<char>)>,
    d: IFrameStreamInfDraft,
    d2: IFrameStreamInfDraft,
)
    requires
        fold_pairs(ps, empty_draft(), |d, p| i_frame_step(d, p)) == Ok::<_, ErrorView>(d),
        o is Some ==> i_frame_step(d, o->0) == Ok::<_, ErrorView>(d2),
        o is None ==> d2 == d,
    ensures
        fold_pairs(push_opt(ps, o), empty_draft(), |d, p| i_frame_step(d, p)) == Ok::<_, ErrorView>(d2),
{
    if let Some(x) = o {
        let q = ps.push(x);
        assert(q.drop_last() =~= ps);
        assert(q.last() == x);
    }
}

/// One optional attribute: the text gains `,KEY=VALUE`.
proof fn lemma_stage_join(ps: Seq<(Seq<char>, Seq<char>)>, o: Option<(Seq<char>, Seq<char>)>)
    requires
        ps.len() >= 1,
    ensures
        push_opt(ps, o).len() >= 1,
        join_pairs(push_opt(ps, o)) == join_pairs(ps) + opt_text(o),
{
    if let Some(x) = o {
        let q = ps.push(x);
        assert(q.drop_last() =~= ps);
        assert(q.last() == x);
        assert(join_pairs(q) =~= join_pairs(ps) + (seq![','] + field_text(x)));
    } else {
        assert(join_pairs(ps) + Seq::<char>::empty() =~= join_pairs(ps));
    }
}

/// One optional safe attribute keeps the pairs safe.
proof fn lemma_stage_safe(ps: Seq<(Seq<char>, Seq<char>)>, o: Option<(Seq<char>, Seq<char>)>)
    requires
        all_safe(ps),
        o is Some ==> safe_pair(o->0),
    ensures
        all_safe(push_opt(ps, o)),
{
    if let Some(x) = o {
        let q = ps.push(x);
        assert forall|k: int| 0 <= k < q.len() implies safe_pair(#[trigger] q[k]) by {
            if k < ps.len() {
                assert(q[k] == ps[k]);
            }
        }
    }
}

/// Regrouping a concatenation of six texts.
proof fn lemma_regroup(p: Seq<char>, j: Seq<char>, a: Seq<char>, b: Seq<char>, c: Seq<char>, d: Seq<char>, e: Seq<char>)
    ensures
        p + j + a + b + c + d + e == p + ((((((j + a) + b) + c) + d) + e)),
{
    assert(p + j + a + b + c + d + e =~= p + ((((((j + a) + b) + c) + d) + e)));
}

/// Reading the tag's pairs rebuilds every attribute.
proof fn lemma_i_frame_fold(m: IFrameStreamInfModel)
    requires
        quotable(m.uri),
        m.codecs is Some ==> quotable(m.codecs->0),
        m.video is Some ==> quotable(m.video->0),
    ensures
        fold_pairs(i_frame_pairs(m), empty_draft(), |d, p| i_frame_step(d, p)) == Ok::<_, ErrorView>(
            full_draft(m),
        ),
{
    lemma_i_frame_head(m);
    let ps0 = seq![("URI"@, quoted(m.uri)), ("BANDWIDTH"@, decimal(m.bandwidth as nat))];
    let d0 = IFrameStreamInfDraft { uri: Some(m.uri), bandwidth: Some(m.bandwidth), ..empty_draft() };
    let d1 = IFrameStreamInfDraft { average_bandwidth: m.average_bandwidth, ..d0 };
    lemma_avg_stage(m.average_bandwidth, d0);
    lemma_stage_fold(ps0, avg_pair(m.average_bandwidth), d0, d1);
    let ps1 = push_opt(ps0, avg_pair(m.average_bandwidth));
    let d2 = IFrameStreamInfDraft { codecs: m.codecs, ..d1 };
    lemma_codecs_stage(m.codecs, d1);
    lemma_stage_fold(ps1, codecs_pair(m.codecs), d1, d2);
    let ps2 = push_opt(ps1, codecs_pair(m.codecs));
    let d3 = IFrameStreamInfDraft { resolution: m.resolution, ..d2 };
    lemma_resolution_stage(m.resolution, d2);
    lemma_stage_fold(ps2, resolution_pair(m.resolution), d2, d3);
    let ps3 = push_opt(ps2, resolution_pair(m.resolution));
    let d4 = IFrameStreamInfDraft { hdcp_level: m.hdcp_level, ..d3 };
    lemma_hdcp_stage(m.hdcp_level, d3);
    lemma_stage_fold(ps3, hdcp_pair(m.hdcp_level), d3, d4);
    let ps4 = push_opt(ps3, hdcp_pair(m.hdcp_level));
    let d5 = IFrameStreamInfDraft { video: m.video, ..d4 };
    lemma_video_stage(m.video, d4);
    lemma_stage_fold(ps4, video_pair(m.video), d4, d5);
    assert(d5 == full_draft(m));
}

/// The optional attributes' texts, each `,KEY=VALUE` of a safe pair or nothing.
#[verifier::spinoff_prover]
proof fn lemma_optional_texts(m: IFrameStreamInfModel)
    requires
        m.codecs is Some ==> quotable(m.codecs->0),
        m.video is Some ==> quotable(m.video->0),
    ensures
        crate::i_frame_stream_inf::average_bandwidth_text(m.average_bandwidth) == opt_text(avg_pair(m.average_bandwidth)),
        avg_pair(m.average_bandwidth) is Some ==> safe_pair(avg_pair(m.average_bandwidth)->0),
        crate::i_frame_stream_inf::codecs_text(m.codecs) == opt_text(codecs_pair(m.codecs)),
        codecs_pair(m.codecs) is Some ==> safe_pair(codecs_pair(m.codecs)->0),
        crate::i_frame_stream_inf::resolution_text(m.resolution) == opt_text(resolution_pair(m.resolution)),
        resolution_pair(m.resolution) is Some ==> safe_pair(resolution_pair(m.resolution)->0),
        crate::i_frame_stream_inf::hdcp_level_text(m.hdcp_level) == opt_text(hdcp_pair(m.hdcp_level)),
        hdcp_pair(m.hdcp_level) is Some ==> safe_pair(hdcp_pair(m.hdcp_level)->0),
        crate::i_frame_stream_inf::video_text(m.video) == opt_text(video_pair(m.video)),
        video_pair(m.video) is Some ==> safe_pair(video_pair(m.video)->0),
{
    let d = empty_draft();
    lemma_avg_stage(m.average_bandwidth, d);
    lemma_codecs_stage(m.codecs, d);
    lemma_resolution_stage(m.resolution, d);
    lemma_hdcp_stage(m.hdcp_level, d);
    lemma_video_stage(m.video, d);
}

/// The tag's pairs are safe.
proof fn lemma_i_frame_safe(m: IFrameStreamInfModel)
    requires
        quotable(m.uri),
        m.codecs is Some ==> quotable(m.codecs->0),
        m.video is Some ==> quotable(m.video->0),
    ensures
        i_frame_pairs(m).len() >= 1,
        all_safe(i_frame_pairs(m)),
{
    lemma_i_frame_head(m);
    lemma_optional_texts(m);
    let ps0 = seq![("URI"@, quoted(m.uri)), ("BANDWIDTH"@, decimal(m.bandwidth as nat))];
    lemma_stage_safe(ps0, avg_pair(m.average_bandwidth));
    let ps1 = push_opt(ps0, avg_pair(m.average_bandwidth));
    lemma_stage_safe(ps1, codecs_pair(m.codecs));
    let ps2 = push_opt(ps1, codecs_pair(m.codecs));
    lemma_stage_safe(ps2, resolution_pair(m.resolution));
    let ps3 = push_opt(ps2, resolution_pair(m.resolution));
    lemma_stage_safe(ps3, hdcp_pair(m.hdcp_level));
    let ps4 = push_opt(ps3, hdcp_pair(m.hdcp_level));
    lemma_stage_safe(ps4, video_pair(m.video));
    lemma_stage_join(ps0, avg_pair(m.average_bandwidth));
    lemma_stage_join(ps1, codecs_pair(m.codecs));
    lemma_stage_join(ps2, resolution_pair(m.resolution));
    lemma_stage_join(ps3, hdcp_pair(m.hdcp_level));
    lemma_stage_join(ps4, video_pair(m.video));
}

/// The tag's text is its prefix and its pairs, joined.
proof fn lemma_i_frame_text(m: IFrameStreamInfModel)
    requires
        quotable(m.uri),
        m.codecs is Some ==> quotable(m.codecs->0),
        m.video is Some ==> quotable(m.video->0),
    ensures
        encode_i_frame_stream_inf(m) == "#EXT-X-I-FRAME-STREAM-INF:"@ + join_pairs(i_frame_pairs(m)),
{
    lemma_i_frame_head(m);
    lemma_optional_texts(m);
    let ps0 = seq![("URI"@, quoted(m.uri)), ("BANDWIDTH"@, decimal(m.bandwidth as nat))];
    lemma_stage_join(ps0, avg_pair(m.average_bandwidth));
    let ps1 = push_opt(ps0, avg_pair(m.average_bandwidth));
    lemma_stage_join(ps1, codecs_pair(m.codecs));
    let ps2 = push_opt(ps1, codecs_pair(m.codecs));
    lemma_stage_join(ps2, resolution_pair(m.resolution));
    let ps3 = push_opt(ps2, resolution_pair(m.resolution));
    lemma_stage_join(ps3, hdcp_pair(m.hdcp_level));
    let ps4 = push_opt(ps3, hdcp_pair(m.hdcp_level));
    lemma_stage_join(ps4, video_pair(m.video));
    lemma_regroup(
        "#EXT-X-I-FRAME-STREAM-INF:"@,
        join_pairs(ps0),
        opt_text(avg_pair(m.average_bandwidth)),
        opt_text(codecs_pair(m.codecs)),
        opt_text(resolution_pair(m.resolution)),
        opt_text(hdcp_pair(m.hdcp_level)),
        opt_text(video_pair(m.video)),
    );
}

/// A line that begins with the tag's prefix, followed by safe pairs that
/// build a full draft, reads as the tag the draft describes.
proof fn lemma_i_frame_decode(s: Seq<char>, ps: Seq<(Seq<char>, Seq<char>)>, m: IFrameStreamInfModel)
    requires
        ps.len() >= 1,
        all_safe(ps),
        s == "#EXT-X-I-FRAME-STREAM-INF:"@ + join_pairs(ps),
        fold_pairs(ps, empty_draft(), |d, p| i_frame_step(d, p)) == Ok::<_, ErrorView>(full_draft(m)),
    ensures
        decode_i_frame_stream_inf(s) == Ok::<IFrameStreamInfModel, ErrorView>(m),
{
    let prefix = "#EXT-X-I-FRAME-STREAM-INF:"@;
    assert(s.take(prefix.len() as int) =~= prefix);
    assert(s.skip(prefix.len() as int) =~= join_pairs(ps));
    lemma_attribute_pairs_round_trip(ps);
}

/// An i-frame variant tag reads back from its text as the same tag, where its
/// strings can stand between quotes.
pub proof fn lemma_i_frame_stream_inf_round_trip(m: IFrameStreamInfModel)
    requires
        quotable(m.uri),
        m.codecs is Some ==> quotable(m.codecs->0),
        m.video is Some ==> quotable(m.video->0),
    ensures
        decode_i_frame_stream_inf(encode_i_frame_stream_inf(m)) == Ok::<
            IFrameStreamInfModel,
            ErrorView,
        >(m),
{
    lemma_i_frame_safe(m);
    lemma_i_frame_text(m);
    lemma_i_frame_fold(m);
    lemma_i_frame_decode(encode_i_frame_stream_inf(m), i_frame_pairs(m), m);
}

/// An attribute of a name the initialization-section tag does not know is
/// ignored: appending `,KEY=VALUE` to a line whose attribute list is well
/// formed leaves what the line reads as unchanged.
pub proof fn lemma_map_unknown_attribute(s: Seq<char>, k: Seq<char>, v: Seq<char>)
    requires
        has_prefix(s, "#EXT-X-MAP:"@),
        s.len() > "#EXT-X-MAP:"@.len(),
        attribute_pairs(s.skip("#EXT-X-MAP:"@.len() as int)) is Some,
        safe_pair((k, v)),
        k != "URI"@,
        k != "BYTERANGE"@,
    ensures
        decode_map(s + seq![','] + field_text((k, v))) == decode_map(s),
{
    let prefix = "#EXT-X-MAP:"@;
    let body = s.skip(prefix.len() as int);
    let ext = s + seq![','] + field_text((k, v));
    assert(ext.take(prefix.len() as int) =~= s.take(prefix.len() as int));
    assert(ext.skip(prefix.len() as int) =~= body + seq![','] + field_text((k, v)));
    lemma_attribute_pairs_append(body, (k, v));
    let ps = attribute_pairs(body)->0;
    let step = |st, p| map_step(st, p);
    assert(ps.push((k, v)).drop_last() =~= ps);
    assert(ps.push((k, v)).last() == (k, v));
    assert(fold_pairs(ps.push((k, v)), (None, None), step) == fold_pairs(ps, (None, None), step));
}

/// A byte-range tag reads back from its text as the same tag.
pub proof fn lemma_byte_range_tag_round_trip(t: ExtXByteRange)
    ensures
        ExtXByteRange::spec_parse(t.spec_encode()) == Ok::<ExtXByteRange, ErrorView>(t),
{
    let prefix = "#EXT-X-BYTERANGE:"@;
    let e = t.spec_encode();
    assert(e.take(prefix.len() as int) =~= prefix);
    assert(e.skip(prefix.len() as int) =~= t.range.spec_encode());
    t.range.lemma_round_trip();
}

/// A program date-time tag reads back from its text as the same date and time.
pub proof fn lemma_program_date_time_round_trip(t: ExtXProgramDateTime)
    ensures
        ExtXProgramDateTime::spec_parse(t.spec_encode()) == Ok::<Seq<char>, ErrorView>(t.date_time@),
{
    let prefix = "#EXT-X-PROGRAM-DATE-TIME:"@;
    let e = t.spec_encode();
    assert(e.take(prefix.len() as int) =~= prefix);
    assert(e.skip(prefix.len() as int) =~= t.date_time@);
}

/// The names and values that a key tag is written with are distinct and safe.
proof fn lemma_key_words()
    ensures
        safe_key("METHOD"@),
        safe_key("URI"@),
        plain("NONE"@),
        plain("AES-128"@),
        plain("SAMPLE-AES"@),
        "URI"@ != "METHOD"@,
        method_of("NONE"@) == Ok::<Option<EncryptionMethod>, ErrorView>(None),
        method_of("AES-128"@) == Ok::<Option<EncryptionMethod>, ErrorView>(Some(EncryptionMethod::Aes128)),
        method_of("SAMPLE-AES"@) == Ok::<Option<EncryptionMethod>, ErrorView>(Some(EncryptionMethod::SampleAes)),
{
    reveal_strlit("METHOD");
    reveal_strlit("URI");
    reveal_strlit("NONE");
    reveal_strlit("AES-128");
    reveal_strlit("SAMPLE-AES");
    assert("URI"@.len() != "METHOD"@.len());
    assert("AES-128"@.len() != "NONE"@.len());
    assert("SAMPLE-AES"@.len() != "NONE"@.len());
    assert("SAMPLE-AES"@.len() != "AES-128"@.len());
}

/// A key tag reads back from its text as the same key, where its uri can
/// stand between quotes.
pub proof fn lemma_key_round_trip(k: ExtXKey)
    requires
        k@ is Some ==> quotable((k@->0).1),
    ensures
        decode_key(k.spec_encode()) == Ok::<Option<(EncryptionMethod, Seq<char>)>, ErrorView>(k@),
{
    reveal_strlit("#EXT-X-KEY:METHOD=NONE");
    reveal_strlit("#EXT-X-KEY:METHOD=");
    reveal_strlit("#EXT-X-KEY:");
    reveal_strlit("METHOD");
    reveal_strlit("URI");
    reveal_strlit(",URI=");
    reveal_strlit("NONE");
    reveal_strlit("AES-128");
    reveal_strlit("SAMPLE-AES");
    lemma_key_words();
    let prefix = "#EXT-X-KEY:"@;
    let e = k.spec_encode();
    assert(e.take(prefix.len() as int) =~= prefix);
    let body = e.skip(prefix.len() as int);
    let step = |st, p| key_step(st, p);
    let init = (None::<Option<EncryptionMethod>>, None::<Seq<char>>);
    match k@ {
        None => {
            let p1 = ("METHOD"@, "NONE"@);
            let ps = seq![p1];
            assert(body =~= join_pairs(ps));
            lemma_attribute_pairs_round_trip(ps);
            assert(ps.drop_last() =~= Seq::<(Seq<char>, Seq<char>)>::empty());
            assert(ps.last() == p1);
            assert(fold_pairs(ps.drop_last(), init, step) == Ok::<_, ErrorView>(init));
            assert(fold_pairs(ps, init, step) == key_step(init, p1));
        },
        Some((m, u)) => {
            let name = match m {
                EncryptionMethod::Aes128 => "AES-128"@,
                EncryptionMethod::SampleAes => "SAMPLE-AES"@,
            };
            let p1 = ("METHOD"@, name);
            let p2 = ("URI"@, quoted(u));
            lemma_quoted_safe("URI"@, u);
            lemma_unquote_quoted(u);
            let ps = seq![p1, p2];
            assert(ps.drop_last() =~= seq![p1]);
            assert(seq![p1].drop_last() =~= Seq::<(Seq<char>, Seq<char>)>::empty());
            assert(join_pairs(seq![p1]) == field_text(p1));
            assert(body =~= join_pairs(ps));
            assert(safe_pair(p1));
            lemma_attribute_pairs_round_trip(ps);
            assert(seq![p1].last() == p1);
            assert(ps.last() == p2);
            assert(fold_pairs(seq![p1].drop_last(), init, step) == Ok::<_, ErrorView>(init));
            assert(fold_pairs(seq![p1], init, step) == key_step(init, p1));
        },
    }
}

/// A date-range tag reads back from its text as the same id and start date,
/// where both can stand between quotes.
pub proof fn lemma_date_range_round_trip(d: ExtXDateRange)
    requires
        quotable(d.id@),
        quotable(d.start_date@),
    ensures
        decode_date_range(d.spec_encode()) == Ok::<(Seq<char>, Seq<char>), ErrorView>((d.id@, d.start_date@)),
{
    reveal_strlit("#EXT-X-DATERANGE:");
    reveal_strlit("ID=");
    reveal_strlit(",START-DATE=");
    reveal_strlit("ID");
    reveal_strlit("START-DATE");
    let prefix = "#EXT-X-DATERANGE:"@;
    let e = d.spec_encode();
    assert(e.take(prefix.len() as int) =~= prefix);
    let body = e.skip(prefix.len() as int);
    let step = |st, p| date_range_step(st, p);
    let init = (None::<Seq<char>>, None::<Seq<char>>);
    assert(safe_key("ID"@));
    assert(safe_key("START-DATE"@));
    assert("START-DATE"@.len() != "ID"@.len());
    let p1 = ("ID"@, quoted(d.id@));
    let p2 = ("START-DATE"@, quoted(d.start_date@));
    lemma_quoted_safe("ID"@, d.id@);
    lemma_quoted_safe("START-DATE"@, d.start_date@);
    lemma_unquote_quoted(d.id@);
    lemma_unquote_quoted(d.start_date@);
    let ps = seq![p1, p2];
    assert(ps.drop_last() =~= seq![p1]);
    assert(seq![p1].drop_last() =~= Seq::<(Seq<char>, Seq<char>)>::empty());
    assert(join_pairs(seq![p1]) == field_text(p1));
    assert(body =~= join_pairs(ps));
    lemma_attribute_pairs_round_trip(ps);
    assert(seq![p1].last() == p1);
    assert(ps.last() == p2);
    assert(fold_pairs(seq![p1].drop_last(), init, step) == Ok::<_, ErrorView>(init));
    assert(fold_pairs(seq![p1], init, step) == date_range_step(init, p1));
}

} // verus!
