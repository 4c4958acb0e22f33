use vstd::prelude::*;

use crate::attribute::{
    attribute_pairs, fold_pairs, has_prefix, lemma_fold_err, lemma_fold_step, missing,
    pairs_view, parse_attribute_pairs, tag_body,
};
use crate::text::{chars_of, decimal, eq_str, push_all, push_decimal, string_of};
use crate::types::{
    parse_number, quoted, u64_of, unquoted, DecimalResolution, Error, ErrorView, HdcpLevel,
    ProtocolVersion, QuotedString,
};

verus! {

broadcast use vstd::string::group_string_axioms;

/// The content of an i-frame variant tag.
pub struct IFrameStreamInfModel {
    pub uri: Seq<char>,
    pub bandwidth: u64,
    pub average_bandwidth: Option<u64>,
    pub codecs: Option<Seq<char>>,
    pub resolution: Option<DecimalResolution>,
    pub hdcp_level: Option<HdcpLevel>,
    pub video: Option<Seq<char>>,
}

/// The attributes read so far from an i-frame variant tag.
pub struct IFrameStreamInfDraft {
    pub uri: Option<Seq<char>>,
    pub bandwidth: Option<u64>,
    pub average_bandwidth: Option<u64>,
    pub codecs: Option<Seq<char>>,
    pub resolution: Option<DecimalResolution>,
    pub hdcp_level: Option<HdcpLevel>,
    pub video: Option<Seq<char>>,
}

/// The required attributes' text, prefix included.
pub open spec fn head_text(m: IFrameStreamInfModel) -> Seq<char> {
    "#EXT-X-I-FRAME-STREAM-INF:"@ + "URI="@ + quoted(m.uri) + ",BANDWIDTH="@ + decimal(
        m.bandwidth as nat,
    )
}

pub open spec fn average_bandwidth_text(v: Option<u64>) -> Seq<char> {
    match v {
        Some(b) => ",AVERAGE-BANDWIDTH="@ + decimal(b as nat),
        None => Seq::empty(),
    }
}

pub open spec fn codecs_text(v: Option<Seq<char>>) -> Seq<char> {
    match v {
        Some(c) => ",CODECS="@ + quoted(c),
        None => Seq::empty(),
    }
}

pub open spec fn resolution_text(v: Option<DecimalResolution>) -> Seq<char> {
    match v {
        Some(r) => ",RESOLUTION="@ + r.spec_encode(),
        None => Seq::empty(),
    }
}

pub open spec fn hdcp_level_text(v: Option<HdcpLevel>) -> Seq<char> {
    match v {
        Some(h) => ",HDCP-LEVEL="@ + h.spec_encode(),
        None => Seq::empty(),
    }
}

pub open spec fn video_text(v: Option<Seq<char>>) -> Seq<char> {
    match v {
        Some(v) => ",VIDEO="@ + quoted(v),
        None => Seq::empty(),
    }
}

/// The text of an i-frame variant tag: the required attributes, then each
/// optional one that is given, in canonical order.
pub open spec fn encode_i_frame_stream_inf(m: IFrameStreamInfModel) -> Seq<char> {
    head_text(m) + average_bandwidth_text(m.average_bandwidth) + codecs_text(m.codecs) + resolution_text(m.resolution)
        + hdcp_level_text(m.hdcp_level) + video_text(m.video)
}

/// One attribute's effect on the draft while an i-frame variant tag is read.
pub open spec fn i_frame_step(d: IFrameStreamInfDraft, p: (Seq<char>, Seq<char>)) -> Result<
    IFrameStreamInfDraft,
    ErrorView,
> {
    if p.0 == "URI"@ {
        match unquoted(p.1) {
            Some(u) => Ok(IFrameStreamInfDraft { uri: Some(u), ..d }),
            None => Err(ErrorView::InvalidQuotedString),
        }
    } else if p.0 == "BANDWIDTH"@ {
        match u64_of(p.1) {
            Some(b) => Ok(IFrameStreamInfDraft { bandwidth: Some(b), ..d }),
            None => Err(ErrorView::InvalidNumber),
        }
    } else if p.0 == "AVERAGE-BANDWIDTH"@ {
        match u64_of(p.1) {
            Some(b) => Ok(IFrameStreamInfDraft { average_bandwidth: Some(b), ..d }),
            None => Err(ErrorView::InvalidNumber),
        }
    } else if p.0 == "CODECS"@ {
        match unquoted(p.1) {
            Some(c) => Ok(IFrameStreamInfDraft { codecs: Some(c), ..d }),
            None => Err(ErrorView::InvalidQuotedString),
        }
    } else if p.0 == "RESOLUTION"@ {
        match DecimalResolution::spec_parse(p.1) {
            Ok(r) => Ok(IFrameStreamInfDraft { resolution: Some(r), ..d }),
            Err(e) => Err(e@),
        }
    } else if p.0 == "HDCP-LEVEL"@ {
        match HdcpLevel::spec_parse(p.1) {
            Ok(h) => Ok(IFrameStreamInfDraft { hdcp_level: Some(h), ..d }),
            Err(e) => Err(e@),
        }
    } else if p.0 == "VIDEO"@ {
        match unquoted(p.1) {
            Some(v) => Ok(IFrameStreamInfDraft { video: Some(v), ..d }),
            None => Err(ErrorView::InvalidQuotedString),
        }
    } else {
        Ok(d)
    }
}

pub open spec fn empty_draft() -> IFrameStreamInfDraft {
    IFrameStreamInfDraft {
        uri: None,
        bandwidth: None,
        average_bandwidth: None,
        codecs: None,
        resolution: None,
        hdcp_level: None,
        video: None,
    }
}

/// Reads an i-frame variant tag. Attributes of other names are ignored; of one
/// named twice, the last stands. `URI` and `BANDWIDTH` are required.
pub open spec fn decode_i_frame_stream_inf(s: Seq<char>) -> Result<IFrameStreamInfModel, ErrorView> {
    let prefix = "#EXT-X-I-FRAME-STREAM-INF:"@;
    if !has_prefix(s, prefix) {
        Err(ErrorView::InvalidInput)
    } else {
        match attribute_pairs(s.skip(prefix.len() as int)) {
            None => Err(ErrorView::MalformedAttributeList),
            Some(pairs) => match fold_pairs(pairs, empty_draft(), |d, p| i_frame_step(d, p)) {
                Err(e) => Err(e),
                Ok(d) => if d.uri is None {
                    Err(ErrorView::MissingAttribute("URI"@))
                } else if d.bandwidth is None {
                    Err(ErrorView::MissingAttribute("BANDWIDTH"@))
                } else {
                    Ok(
                        IFrameStreamInfModel {
                            uri: d.uri->0,
                            bandwidth: d.bandwidth->0,
                            average_bandwidth: d.average_bandwidth,
                            codecs: d.codecs,
                            resolution: d.resolution,
                            hdcp_level: d.hdcp_level,
                            video: d.video,
                        },
                    )
                },
            },
        }
    }
}

pub open spec fn opt_string_view(s: Option<String>) -> Option<Seq<char>> {
    match s {
        Some(x) => Some(x@),
        None => None,
    }
}

/// A variant stream of i-frames only, described by the playlist at `uri`.
#[derive(Debug, Clone, PartialEq, Eq, Hash)]
pub struct ExtXIFrameStreamInf {
    uri: String,
    bandwidth: u64,
    average_bandwidth: Option<u64>,
    codecs: Option<String>,
    resolution: Option<DecimalResolution>,
    hdcp_level: Option<HdcpLevel>,
    video: Option<String>,
}

impl View for ExtXIFrameStreamInf {
    type V = IFrameStreamInfModel;

    closed spec fn view(&self) -> IFrameStreamInfModel {
        IFrameStreamInfModel {
            uri: self.uri@,
            bandwidth: self.bandwidth,
            average_bandwidth: self.average_bandwidth,
            codecs: opt_string_view(self.codecs),
            resolution: self.resolution,
            hdcp_level: self.hdcp_level,
            video: opt_string_view(self.video),
        }
    }
}

/// Appends `s` within double quotes to `out`.
fn push_quoted(out: &mut Vec<char>, s: &String)
    ensures
        final(out)@ == old(out)@ + quoted(s@),
{
    out.push('"');
    push_all(out, s.as_str());
    out.push('"');
    assert(out@ =~= old(out)@ + quoted(s@));
}

/// Reads a quoted value into a string.
fn parse_quoted(v: &[char]) -> (r: Result<String, Error>)
    ensures
        r is Ok <==> unquoted(v@) is Some,
        r is Ok ==> r->Ok_0@ == unquoted(v@)->0,
        r is Err ==> r->Err_0 == Error::InvalidQuotedString,
{
    let q = QuotedString::parse(v)?;
    Ok(q.value().clone())
}

fn push_average_bandwidth(out: &mut Vec<char>, v: Option<u64>)
    ensures
        final(out)@ == old(out)@ + average_bandwidth_text(v),
{
    if let Some(b) = v {
        push_all(out, ",AVERAGE-BANDWIDTH=");
        push_decimal(out, b);
    }
    assert(out@ =~= old(out)@ + average_bandwidth_text(v));
}

fn push_codecs(out: &mut Vec<char>, v: &Option<String>)
    ensures
        final(out)@ == old(out)@ + codecs_text(opt_string_view(*v)),
{
    if let Some(c) = v {
        push_all(out, ",CODECS=");
        push_quoted(out, c);
    }
    assert(out@ =~= old(out)@ + codecs_text(opt_string_view(*v)));
}

fn push_resolution(out: &mut Vec<char>, v: Option<DecimalResolution>)
    ensures
        final(out)@ == old(out)@ + resolution_text(v),
{
    if let Some(r) = v {
        push_all(out, ",RESOLUTION=");
        r.encode_into(out);
    }
    assert(out@ =~= old(out)@ + resolution_text(v));
}

fn push_hdcp_level(out: &mut Vec<char>, v: Option<HdcpLevel>)
    ensures
        final(out)@ == old(out)@ + hdcp_level_text(v),
{
    if let Some(h) = v {
        push_all(out, ",HDCP-LEVEL=");
        h.encode_into(out);
    }
    assert(out@ =~= old(out)@ + hdcp_level_text(v));
}

fn push_video(out: &mut Vec<char>, v: &Option<String>)
    ensures
        final(out)@ == old(out)@ + video_text(opt_string_view(*v)),
{
    if let Some(c) = v {
        push_all(out, ",VIDEO=");
        push_quoted(out, c);
    }
    assert(out@ =~= old(out)@ + video_text(opt_string_view(*v)));
}

impl ExtXIFrameStreamInf {
    /// Makes a tag with the given playlist and peak bit rate, and no other attribute.
    pub fn new(uri: &str, bandwidth: u64) -> (r: ExtXIFrameStreamInf)
        ensures
            r@ == (IFrameStreamInfModel {
                uri: uri@,
                bandwidth,
                average_bandwidth: None,
                codecs: None,
                resolution: None,
                hdcp_level: None,
                video: None,
            }),
    {
        ExtXIFrameStreamInf {
            uri: uri.to_owned(),
            bandwidth,
            average_bandwidth: None,
            codecs: None,
            resolution: None,
            hdcp_level: None,
            video: None,
        }
    }

    /// The best picture size for the stream, as (width, height).
    pub fn resolution(&self) -> (r: Option<(usize, usize)>)
        ensures
            r == match self@.resolution {
                Some(res) => Some((res.width, res.height)),
                None => None::<(usize, usize)>,
            },
    {
        match &self.resolution {
            Some(res) => Some((res.width, res.height)),
            None => None,
        }
    }

    /// Sets the best picture size for the stream.
    pub fn set_resolution(&mut self, width: usize, height: usize)
        ensures
            final(self)@ == (IFrameStreamInfModel {
                resolution: Some(DecimalResolution { width, height }),
                ..old(self)@
            }),
    {
        self.resolution = Some(DecimalResolution::new(width, height));
    }

    /// The oldest version of the format that has this tag.
    pub fn requires_version(&self) -> (r: ProtocolVersion)
        ensures
            r == ProtocolVersion::V1,
    {
        ProtocolVersion::V1
    }

    /// Appends the tag's text to `out`.
    pub fn encode_into(&self, out: &mut Vec<char>)
        ensures
            final(out)@ == old(out)@ + encode_i_frame_stream_inf(self@),
    {
        let ghost m = self@;
        push_all(out, "#EXT-X-I-FRAME-STREAM-INF:");
        push_all(out, "URI=");
        push_quoted(out, &self.uri);
        push_all(out, ",BANDWIDTH=");
        push_decimal(out, self.bandwidth);
        let ghost t = head_text(m);
        assert(out@ =~= old(out)@ + t);
        push_average_bandwidth(out, self.average_bandwidth);
        let ghost t = t + average_bandwidth_text(m.average_bandwidth);
        assert(out@ =~= old(out)@ + t);
        push_codecs(out, &self.codecs);
        let ghost t = t + codecs_text(m.codecs);
        assert(out@ =~= old(out)@ + t);
        push_resolution(out, self.resolution);
        let ghost t = t + resolution_text(m.resolution);
        assert(out@ =~= old(out)@ + t);
        push_hdcp_level(out, self.hdcp_level);
        let ghost t = t + hdcp_level_text(m.hdcp_level);
        assert(out@ =~= old(out)@ + t);
        push_video(out, &self.video);
        let ghost t = t + video_text(m.video);
        assert(out@ =~= old(out)@ + t);
    }

    /// The tag's text.
    pub fn to_string(&self) -> (r: String)
        ensures
            r@ == encode_i_frame_stream_inf(self@),
    {
        let mut out: Vec<char> = Vec::new();
        self.encode_into(&mut out);
        assert(out@ =~= encode_i_frame_stream_inf(self@));
        string_of(&out)
    }
}

/// The attributes read so far, as values.
struct Draft {
    uri: Option<String>,
    bandwidth: Option<u64>,
    average_bandwidth: Option<u64>,
    codecs: Option<String>,
    resolution: Option<DecimalResolution>,
    hdcp_level: Option<HdcpLevel>,
    video: Option<String>,
}

impl View for Draft {
    type V = IFrameStreamInfDraft;

    closed spec fn view(&self) -> IFrameStreamInfDraft {
        IFrameStreamInfDraft {
            uri: opt_string_view(self.uri),
            bandwidth: self.bandwidth,
            average_bandwidth: self.average_bandwidth,
            codecs: opt_string_view(self.codecs),
            resolution: self.resolution,
            hdcp_level: self.hdcp_level,
            video: opt_string_view(self.video),
        }
    }
}

/// Takes one attribute into the draft.
fn apply_pair(d: &mut Draft, key: &[char], value: &[char]) -> (r: Result<(), Error>)
    ensures
        r is Ok <==> i_frame_step(old(d)@, (key@, value@)) is Ok,
        r is Ok ==> final(d)@ == i_frame_step(old(d)@, (key@, value@))->Ok_0,
        r is Err ==> r->Err_0@ == i_frame_step(old(d)@, (key@, value@))->Err_0,
{
    if eq_str(key, "URI") {
        d.uri = Some(parse_quoted(value)?);
    } else if eq_str(key, "BANDWIDTH") {
        d.bandwidth = Some(parse_number(value)?);
    } else if eq_str(key, "AVERAGE-BANDWIDTH") {
        d.average_bandwidth = Some(parse_number(value)?);
    } else if eq_str(key, "CODECS") {
        d.codecs = Some(parse_quoted(value)?);
    } else if eq_str(key, "RESOLUTION") {
        d.resolution = Some(DecimalResolution::parse(value)?);
    } else if eq_str(key, "HDCP-LEVEL") {
        d.hdcp_level = Some(HdcpLevel::parse(value)?);
    } else if eq_str(key, "VIDEO") {
        d.video = Some(parse_quoted(value)?);
    }
    Ok(())
}

impl ExtXIFrameStreamInf {
    /// Reads the tag from line `s`.
    pub fn parse(s: &str) -> (r: Result<ExtXIFrameStreamInf, Error>)
        ensures
            r is Ok <==> decode_i_frame_stream_inf(s@) is Ok,
            r is Ok ==> r->Ok_0@ == decode_i_frame_stream_inf(s@)->Ok_0,
            r is Err ==> r->Err_0@ == decode_i_frame_stream_inf(s@)->Err_0,
    {
        let line = chars_of(s);
        let body = tag_body(line.as_slice(), "#EXT-X-I-FRAME-STREAM-INF:")?;
        let pairs = parse_attribute_pairs(body.as_slice())?;
        let ghost pv = pairs_view(pairs@);
        let ghost step = |d, p| i_frame_step(d, p);
        let mut d = Draft {
            uri: None,
            bandwidth: None,
            average_bandwidth: None,
            codecs: None,
            resolution: None,
            hdcp_level: None,
            video: None,
        };
        for i in 0..pairs.len()
            invariant
                pv == pairs_view(pairs@),
                has_prefix(s@, "#EXT-X-I-FRAME-STREAM-INF:"@),
                attribute_pairs(s@.skip("#EXT-X-I-FRAME-STREAM-INF:"@.len() as int)) == Some(pv),
                step == (|d, p| i_frame_step(d, p)),
                fold_pairs(pv.take(i as int), empty_draft(), step) == Ok::<_, ErrorView>(d@),
        {
            proof { lemma_fold_step(pv, empty_draft(), step, i as int); }
            let r = apply_pair(&mut d, pairs[i].key.as_slice(), pairs[i].value.as_slice());
            if let Err(e) = r {
                proof { lemma_fold_err(pv, empty_draft(), step, i + 1); }
                return Err(e);
            }
        }
        assert(pv.take(pairs.len() as int) =~= pv);
        let uri = match d.uri {
            Some(u) => u,
            None => return Err(missing("URI")),
        };
        let bandwidth = match d.bandwidth {
            Some(b) => b,
            None => return Err(missing("BANDWIDTH")),
        };
        Ok(ExtXIFrameStreamInf {
            uri,
            bandwidth,
            average_bandwidth: d.average_bandwidth,
            codecs: d.codecs,
            resolution: d.resolution,
            hdcp_level: d.hdcp_level,
            video: d.video,
        })
    }
}

impl ExtXIFrameStreamInf {
    /// The playlist of the variant stream.
    pub fn uri(&self) -> (r: &String)
        ensures
            r@ == self@.uri,
    {
        &self.uri
    }

    /// The peak bit rate of the variant stream.
    pub fn bandwidth(&self) -> (r: &u64)
        ensures
            *r == self@.bandwidth,
    {
        &self.bandwidth
    }

    /// The average bit rate of the variant stream.
    pub fn average_bandwidth(&self) -> (r: &Option<u64>)
        ensures
            *r == self@.average_bandwidth,
    {
        &self.average_bandwidth
    }

    /// The codecs of the variant stream.
    pub fn codecs(&self) -> (r: &Option<String>)
        ensures
            opt_string_view(*r) == self@.codecs,
    {
        &self.codecs
    }

    /// The copy protection the variant stream needs.
    pub fn hdcp_level(&self) -> (r: &Option<HdcpLevel>)
        ensures
            *r == self@.hdcp_level,
    {
        &self.hdcp_level
    }

    /// The video group of the variant stream.
    pub fn video(&self) -> (r: &Option<String>)
        ensures
            opt_string_view(*r) == self@.video,
    {
        &self.video
    }

    pub fn set_uri(&mut self, value: String)
        ensures
            final(self)@ == (IFrameStreamInfModel { uri: value@, ..old(self)@ }),
    {
        self.uri = value;
    }

    pub fn set_bandwidth(&mut self, value: u64)
        ensures
            final(self)@ == (IFrameStreamInfModel { bandwidth: value, ..old(self)@ }),
    {
        self.bandwidth = value;
    }

    pub fn set_average_bandwidth(&mut self, value: Option<u64>)
        ensures
            final(self)@ == (IFrameStreamInfModel { average_bandwidth: value, ..old(self)@ }),
    {
        self.average_bandwidth = value;
    }

    pub fn set_codecs(&mut self, value: Option<String>)
        ensures
            final(self)@ == (IFrameStreamInfModel { codecs: opt_string_view(value), ..old(self)@ }),
    {
        self.codecs = value;
    }

    pub fn set_hdcp_level(&mut self, value: Option<HdcpLevel>)
        ensures
            final(self)@ == (IFrameStreamInfModel { hdcp_level: value, ..old(self)@ }),
    {
        self.hdcp_level = value;
    }

    pub fn set_video(&mut self, value: Option<String>)
        ensures
            final(self)@ == (IFrameStreamInfModel { video: opt_string_view(value), ..old(self)@ }),
    {
        self.video = value;
    }
}

impl std::str::FromStr for ExtXIFrameStreamInf {
    type Err = Error;

    fn from_str(s: &str) -> Result<ExtXIFrameStreamInf, Error> {
        ExtXIFrameStreamInf::parse(s)
    }
}

} // verus!
