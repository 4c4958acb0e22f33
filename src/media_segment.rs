use vstd::prelude::*;

use crate::map::{encode_map, ExtXMap};
use crate::segment_tags::{
    discontinuity_text, ExtInf, ExtXByteRange, ExtXDateRange, ExtXKey, ExtXProgramDateTime,
};
use crate::text::{push_all, string_of};
use crate::types::{Error, ErrorView, ProtocolVersion};

verus! {

broadcast use vstd::string::group_string_axioms;

/// `t` as a line of its own.
pub open spec fn line(t: Seq<char>) -> Seq<char> {
    t.push('\n')
}

/// The later of two versions.
pub open spec fn later(a: ProtocolVersion, b: ProtocolVersion) -> ProtocolVersion {
    if a.number() >= b.number() {
        a
    } else {
        b
    }
}

/// `v` where a feature is used; the first version where it is not.
pub open spec fn version_if(used: bool, v: ProtocolVersion) -> ProtocolVersion {
    if used {
        v
    } else {
        ProtocolVersion::V1
    }
}

/// One downloadable chunk of media, with the tags that apply to it.
#[derive(Debug, Clone, PartialEq, Eq, Hash)]
pub struct MediaSegment {
    /// The segment's number in its playlist.
    pub number: usize,
    /// Whether `number` was pinned by the caller rather than assigned.
    pub explicit_number: bool,
    /// The decryption-key tags declared for the segment, in order.
    pub keys: Vec<ExtXKey>,
    pub map: Option<ExtXMap>,
    pub byte_range: Option<ExtXByteRange>,
    pub date_range: Option<ExtXDateRange>,
    pub has_discontinuity: bool,
    pub program_date_time: Option<ExtXProgramDateTime>,
    pub inf: ExtInf,
    pub uri: String,
}

impl MediaSegment {
    /// A builder with every slot empty.
    pub fn builder() -> (r: MediaSegmentBuilder)
        ensures
            r.number is None,
            !r.explicit_number,
            r.keys@.len() == 0,
            r.map is None,
            r.byte_range is None,
            r.date_range is None,
            !r.has_discontinuity,
            r.program_date_time is None,
            r.inf is None,
            r.uri is None,
    {
        MediaSegmentBuilder {
            number: None,
            explicit_number: false,
            keys: Vec::new(),
            map: None,
            byte_range: None,
            date_range: None,
            has_discontinuity: false,
            program_date_time: None,
            inf: None,
            uri: None,
        }
    }

    /// The segment's text: its optional tags in the order init section, byte
    /// range, date range, discontinuity, program date-time; then its duration
    /// and its uri; one line each, each ended by a line feed. The key tags are
    /// left to the playlist.
    pub open spec fn spec_encode(self) -> Seq<char> {
        (match self.map {
            Some(m) => line(encode_map(m@)),
            None => Seq::empty(),
        }) + (match self.byte_range {
            Some(b) => line(b.spec_encode()),
            None => Seq::empty(),
        }) + (match self.date_range {
            Some(d) => line(d.spec_encode()),
            None => Seq::empty(),
        }) + (if self.has_discontinuity {
            line(discontinuity_text())
        } else {
            Seq::empty()
        }) + (match self.program_date_time {
            Some(p) => line(p.spec_encode()),
            None => Seq::empty(),
        }) + line(self.inf.spec_encode()) + line(self.uri@)
    }

    /// The segment's text.
    pub fn to_string(&self) -> (r: String)
        ensures
            r@ == self.spec_encode(),
    {
        let mut out: Vec<char> = Vec::new();
        if let Some(m) = &self.map {
            m.encode_into(&mut out);
            out.push('\n');
        }
        let ghost t = out@;
        if let Some(b) = &self.byte_range {
            b.encode_into(&mut out);
            out.push('\n');
        }
        assert(out@ =~= t + match self.byte_range {
            Some(b) => line(b.spec_encode()),
            None => Seq::empty(),
        });
        let ghost t = out@;
        if let Some(d) = &self.date_range {
            d.encode_into(&mut out);
            out.push('\n');
        }
        assert(out@ =~= t + match self.date_range {
            Some(d) => line(d.spec_encode()),
            None => Seq::empty(),
        });
        let ghost t = out@;
        if self.has_discontinuity {
            push_all(&mut out, "#EXT-X-DISCONTINUITY");
            out.push('\n');
        }
        assert(out@ =~= t + if self.has_discontinuity {
            line(discontinuity_text())
        } else {
            Seq::empty()
        });
        let ghost t = out@;
        if let Some(p) = &self.program_date_time {
            p.encode_into(&mut out);
            out.push('\n');
        }
        assert(out@ =~= t + match self.program_date_time {
            Some(p) => line(p.spec_encode()),
            None => Seq::empty(),
        });
        let ghost t = out@;
        self.inf.encode_into(&mut out);
        out.push('\n');
        push_all(&mut out, self.uri.as_str());
        out.push('\n');
        assert(out@ =~= t + line(self.inf.spec_encode()) + line(self.uri@));
        assert(out@ =~= self.spec_encode());
        string_of(&out)
    }

    /// The oldest version that has every tag of the segment: the latest of
    /// the versions that its tags require, each absent tag counting as the
    /// first version. Key tags, the date range, the discontinuity marker and
    /// the program date-time all need only the first version, so the
    /// initialization section, the byte range and the duration decide.
    pub open spec fn spec_required_version(self) -> ProtocolVersion {
        later(
            version_if(self.map is Some, ProtocolVersion::V6),
            later(
                version_if(self.byte_range is Some, ProtocolVersion::V4),
                self.inf.spec_required_version(),
            ),
        )
    }

    /// The oldest version of the format that has every tag of the segment.
    pub fn required_version(&self) -> (r: ProtocolVersion)
        ensures
            r == self.spec_required_version(),
    {
        let mut v = ProtocolVersion::V1;
        for i in 0..self.keys.len()
            invariant
                v == ProtocolVersion::V1,
        {
            v = v.max(self.keys[i].required_version());
        }
        if let Some(m) = &self.map {
            v = v.max(m.requires_version());
        }
        if let Some(b) = &self.byte_range {
            v = v.max(b.required_version());
        }
        if let Some(d) = &self.date_range {
            v = v.max(d.required_version());
        }
        if let Some(p) = &self.program_date_time {
            v = v.max(p.required_version());
        }
        v = v.max(self.inf.required_version());
        v
    }

    /// The segment's uri.
    pub fn uri(&self) -> (r: &String)
        ensures
            r == &self.uri,
    {
        &self.uri
    }
}

/// A segment under construction: optional slots, checked when built.
#[derive(Debug, Clone)]
pub struct MediaSegmentBuilder {
    pub number: Option<usize>,
    pub explicit_number: bool,
    pub keys: Vec<ExtXKey>,
    pub map: Option<ExtXMap>,
    pub byte_range: Option<ExtXByteRange>,
    pub date_range: Option<ExtXDateRange>,
    pub has_discontinuity: bool,
    pub program_date_time: Option<ExtXProgramDateTime>,
    pub inf: Option<ExtInf>,
    pub uri: Option<String>,
}

impl MediaSegmentBuilder {
    /// Adds a decryption-key tag after those already given.
    pub fn push_key(self, value: ExtXKey) -> (r: MediaSegmentBuilder)
        ensures
            r.keys@ == self.keys@.push(value),
            r == (MediaSegmentBuilder { keys: r.keys, ..self }),
    {
        let mut b = self;
        b.keys.push(value);
        b
    }

    /// Pins the segment's number, or, with `None`, leaves it to be assigned.
    pub fn number(self, value: Option<usize>) -> (r: MediaSegmentBuilder)
        ensures
            r == (MediaSegmentBuilder { number: value, explicit_number: value is Some, ..self }),
    {
        MediaSegmentBuilder { number: value, explicit_number: value.is_some(), ..self }
    }

    pub fn map(self, value: ExtXMap) -> (r: MediaSegmentBuilder)
        ensures
            r == (MediaSegmentBuilder { map: Some(value), ..self }),
    {
        MediaSegmentBuilder { map: Some(value), ..self }
    }

    pub fn byte_range(self, value: ExtXByteRange) -> (r: MediaSegmentBuilder)
        ensures
            r == (MediaSegmentBuilder { byte_range: Some(value), ..self }),
    {
        MediaSegmentBuilder { byte_range: Some(value), ..self }
    }

    pub fn date_range(self, value: ExtXDateRange) -> (r: MediaSegmentBuilder)
        ensures
            r == (MediaSegmentBuilder { date_range: Some(value), ..self }),
    {
        MediaSegmentBuilder { date_range: Some(value), ..self }
    }

    pub fn has_discontinuity(self, value: bool) -> (r: MediaSegmentBuilder)
        ensures
            r == (MediaSegmentBuilder { has_discontinuity: value, ..self }),
    {
        MediaSegmentBuilder { has_discontinuity: value, ..self }
    }

    pub fn program_date_time(self, value: ExtXProgramDateTime) -> (r: MediaSegmentBuilder)
        ensures
            r == (MediaSegmentBuilder { program_date_time: Some(value), ..self }),
    {
        MediaSegmentBuilder { program_date_time: Some(value), ..self }
    }

    pub fn inf(self, value: ExtInf) -> (r: MediaSegmentBuilder)
        ensures
            r == (MediaSegmentBuilder { inf: Some(value), ..self }),
    {
        MediaSegmentBuilder { inf: Some(value), ..self }
    }

    pub fn uri(self, value: &str) -> (r: MediaSegmentBuilder)
        ensures
            r.uri is Some,
            r.uri->0@ == value@,
            r == (MediaSegmentBuilder { uri: r.uri, ..self }),
    {
        MediaSegmentBuilder { uri: Some(value.to_owned()), ..self }
    }

    /// The segment; fails, naming the slot, where the duration or the uri is missing.
    pub fn build(self) -> (r: Result<MediaSegment, Error>)
        ensures
            self.inf is None ==> r is Err && r->Err_0@ == ErrorView::MissingAttribute("inf"@),
            self.inf is Some && self.uri is None ==> r is Err && r->Err_0@
                == ErrorView::MissingAttribute("uri"@),
            self.inf is Some && self.uri is Some ==> r == Ok::<MediaSegment, Error>(
                MediaSegment {
                    number: match self.number {
                        Some(n) => n,
                        None => 0,
                    },
                    explicit_number: self.explicit_number,
                    keys: self.keys,
                    map: self.map,
                    byte_range: self.byte_range,
                    date_range: self.date_range,
                    has_discontinuity: self.has_discontinuity,
                    program_date_time: self.program_date_time,
                    inf: self.inf->0,
                    uri: self.uri->0,
                },
            ),
    {
        let inf = match self.inf {
            Some(i) => i,
            None => return Err(crate::attribute::missing("inf")),
        };
        let uri = match self.uri {
            Some(u) => u,
            None => return Err(crate::attribute::missing("uri")),
        };
        Ok(MediaSegment {
            number: match self.number {
                Some(n) => n,
                None => 0,
            },
            explicit_number: self.explicit_number,
            keys: self.keys,
            map: self.map,
            byte_range: self.byte_range,
            date_range: self.date_range,
            has_discontinuity: self.has_discontinuity,
            program_date_time: self.program_date_time,
            inf,
            uri,
        })
    }
}

} // verus!
