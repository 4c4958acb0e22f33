use vstd::prelude::*;

use crate::attribute::{has_prefix, tag_body};
use crate::text::{chars_of, decimal, push_all, push_decimal, string_of};
use crate::types::{quoted, ByteRange, Error, ErrorView, ProtocolVersion, QuotedString};

verus! {

broadcast use vstd::string::group_string_axioms;

/// The tag that marks a segment as a sub-range of its resource.
#[derive(Debug, Clone, Copy, PartialEq, Eq, Structural, Hash)]
pub struct ExtXByteRange {
    pub range: ByteRange,
}

impl ExtXByteRange {
    pub fn new(range: ByteRange) -> (r: ExtXByteRange)
        ensures
            r.range == range,
    {
        ExtXByteRange { range }
    }

    /// The range of bytes from `start` up to, not including, `end`.
    pub fn from_range(start: usize, end: usize) -> (r: ExtXByteRange)
        requires
            start <= end,
        ensures
            r.range == (ByteRange { length: (end - start) as usize, start: Some(start) }),
    {
        ExtXByteRange { range: ByteRange { length: end - start, start: Some(start) } }
    }

    pub open spec fn spec_encode(self) -> Seq<char> {
        "#EXT-X-BYTERANGE:"@ + self.range.spec_encode()
    }

    pub fn encode_into(&self, out: &mut Vec<char>)
        ensures
            final(out)@ == old(out)@ + self.spec_encode(),
    {
        push_all(out, "#EXT-X-BYTERANGE:");
        self.range.encode_into(out);
        assert(out@ =~= old(out)@ + self.spec_encode());
    }

    pub fn required_version(&self) -> (r: ProtocolVersion)
        ensures
            r == ProtocolVersion::V4,
    {
        ProtocolVersion::V4
    }

    /// Reads `#EXT-X-BYTERANGE:` and a byte range.
    pub open spec fn spec_parse(s: Seq<char>) -> Result<ExtXByteRange, ErrorView> {
        if !has_prefix(s, "#EXT-X-BYTERANGE:"@) {
            Err(ErrorView::InvalidInput)
        } else {
            match ByteRange::spec_parse(s.skip("#EXT-X-BYTERANGE:"@.len() as int)) {
                Ok(r) => Ok(ExtXByteRange { range: r }),
                Err(e) => Err(e@),
            }
        }
    }

    /// Reads the tag from line `s`.
    pub fn parse(s: &str) -> (r: Result<ExtXByteRange, Error>)
        ensures
            r is Ok <==> ExtXByteRange::spec_parse(s@) is Ok,
            r is Ok ==> r->Ok_0 == ExtXByteRange::spec_parse(s@)->Ok_0,
            r is Err ==> r->Err_0@ == ExtXByteRange::spec_parse(s@)->Err_0,
    {
        let line = chars_of(s);
        let body = tag_body(line.as_slice(), "#EXT-X-BYTERANGE:")?;
        let range = ByteRange::parse(body.as_slice())?;
        Ok(ExtXByteRange { range })
    }
}

/// The line that marks a discontinuity before a segment.
pub open spec fn discontinuity_text() -> Seq<char> {
    "#EXT-X-DISCONTINUITY"@
}

/// The tag that anchors a segment's first sample to a date and time, held as
/// its ISO-8601 text.
#[derive(Debug, Clone, PartialEq, Eq, Hash)]
pub struct ExtXProgramDateTime {
    pub date_time: String,
}

impl ExtXProgramDateTime {
    pub open spec fn spec_encode(self) -> Seq<char> {
        "#EXT-X-PROGRAM-DATE-TIME:"@ + self.date_time@
    }

    pub fn encode_into(&self, out: &mut Vec<char>)
        ensures
            final(out)@ == old(out)@ + self.spec_encode(),
    {
        push_all(out, "#EXT-X-PROGRAM-DATE-TIME:");
        push_all(out, self.date_time.as_str());
        assert(out@ =~= old(out)@ + self.spec_encode());
    }

    pub fn required_version(&self) -> (r: ProtocolVersion)
        ensures
            r == ProtocolVersion::V1,
    {
        ProtocolVersion::V1
    }

    /// Reads `#EXT-X-PROGRAM-DATE-TIME:`; the rest of the line is the date and time.
    pub open spec fn spec_parse(s: Seq<char>) -> Result<Seq<char>, ErrorView> {
        if !has_prefix(s, "#EXT-X-PROGRAM-DATE-TIME:"@) {
            Err(ErrorView::InvalidInput)
        } else {
            Ok(s.skip("#EXT-X-PROGRAM-DATE-TIME:"@.len() as int))
        }
    }

    /// Reads the tag from line `s`.
    pub fn parse(s: &str) -> (r: Result<ExtXProgramDateTime, Error>)
        ensures
            r is Ok <==> ExtXProgramDateTime::spec_parse(s@) is Ok,
            r is Ok ==> r->Ok_0.date_time@ == ExtXProgramDateTime::spec_parse(s@)->Ok_0,
            r is Err ==> r->Err_0@ == ExtXProgramDateTime::spec_parse(s@)->Err_0,
    {
        let line = chars_of(s);
        let body = tag_body(line.as_slice(), "#EXT-X-PROGRAM-DATE-TIME:")?;
        Ok(ExtXProgramDateTime { date_time: string_of(&body) })
    }
}

/// The tag that ties an interval of wall-clock time, named `id` and starting
/// at `start_date`, to a segment.
#[derive(Debug, Clone, PartialEq, Eq, Hash)]
pub struct ExtXDateRange {
    pub id: QuotedString,
    pub start_date: QuotedString,
}

impl ExtXDateRange {
    pub open spec fn spec_encode(self) -> Seq<char> {
        "#EXT-X-DATERANGE:"@ + "ID="@ + quoted(self.id@) + ",START-DATE="@ + quoted(self.start_date@)
    }

    pub fn encode_into(&self, out: &mut Vec<char>)
        ensures
            final(out)@ == old(out)@ + self.spec_encode(),
    {
        push_all(out, "#EXT-X-DATERANGE:");
        push_all(out, "ID=");
        self.id.encode_into(out);
        push_all(out, ",START-DATE=");
        self.start_date.encode_into(out);
        assert(out@ =~= old(out)@ + self.spec_encode());
    }

    pub fn required_version(&self) -> (r: ProtocolVersion)
        ensures
            r == ProtocolVersion::V1,
    {
        ProtocolVersion::V1
    }
}

/// The fraction of a second in `ms` milliseconds (`ms < 1000`), without
/// trailing zeros, after a point; nothing for a whole second.
pub open spec fn fraction_text(ms: nat) -> Seq<char> {
    if ms == 0 {
        Seq::empty()
    } else if ms % 100 == 0 {
        seq!['.'] + decimal(ms / 100)
    } else if ms % 10 == 0 {
        seq!['.'] + decimal(ms / 100) + decimal((ms / 10) % 10)
    } else {
        seq!['.'] + decimal(ms / 100) + decimal((ms / 10) % 10) + decimal(ms % 10)
    }
}

/// The tag that gives a segment's duration, in milliseconds, and an optional title.
#[derive(Debug, Clone, PartialEq, Eq, Hash)]
pub struct ExtInf {
    pub millis: u64,
    pub title: Option<String>,
}

impl ExtInf {
    /// A duration of `secs` whole seconds, without title.
    pub fn from_secs(secs: u32) -> (r: ExtInf)
        ensures
            r.millis == secs as u64 * 1000,
            r.title is None,
    {
        ExtInf { millis: secs as u64 * 1000, title: None }
    }

    /// A duration of `millis` milliseconds, without title.
    pub fn from_millis(millis: u64) -> (r: ExtInf)
        ensures
            r.millis == millis,
            r.title is None,
    {
        ExtInf { millis, title: None }
    }

    /// The text: seconds with the fraction as needed, a comma, and the title.
    pub open spec fn spec_encode(self) -> Seq<char> {
        "#EXTINF:"@ + decimal(self.millis as nat / 1000) + fraction_text(self.millis as nat % 1000)
            + seq![','] + match self.title {
            Some(t) => t@,
            None => Seq::empty(),
        }
    }

    pub fn encode_into(&self, out: &mut Vec<char>)
        ensures
            final(out)@ == old(out)@ + self.spec_encode(),
    {
        push_all(out, "#EXTINF:");
        push_decimal(out, self.millis / 1000);
        let ms = self.millis % 1000;
        if ms != 0 {
            out.push('.');
            push_decimal(out, ms / 100);
            if ms % 100 != 0 {
                push_decimal(out, (ms / 10) % 10);
                if ms % 10 != 0 {
                    push_decimal(out, ms % 10);
                }
            }
        }
        out.push(',');
        if let Some(t) = &self.title {
            push_all(out, t.as_str());
        }
        assert(out@ =~= old(out)@ + self.spec_encode());
    }

    pub open spec fn spec_required_version(self) -> ProtocolVersion {
        if self.millis % 1000 == 0 {
            ProtocolVersion::V1
        } else {
            ProtocolVersion::V3
        }
    }

    /// Whole seconds need no more than the first version; a fraction needs the third.
    pub fn required_version(&self) -> (r: ProtocolVersion)
        ensures
            r == self.spec_required_version(),
    {
        if self.millis % 1000 == 0 {
            ProtocolVersion::V1
        } else {
            ProtocolVersion::V3
        }
    }
}

/// How a segment is encrypted.
#[derive(Debug, Clone, Copy, PartialEq, Eq, Structural, Hash)]
pub enum EncryptionMethod {
    /// Written `AES-128`.
    Aes128,
    /// Written `SAMPLE-AES`.
    SampleAes,
}

/// Where and how to get the key that decrypts a segment.
#[derive(Debug, PartialEq, Eq, Hash)]
pub struct DecryptionKey {
    pub method: EncryptionMethod,
    pub uri: QuotedString,
}

/// A decryption-key tag; one without key marks the following segments as
/// unencrypted.
#[derive(Debug, PartialEq, Eq, Hash)]
pub struct ExtXKey {
    pub key: Option<DecryptionKey>,
}

impl View for ExtXKey {
    type V = Option<(EncryptionMethod, Seq<char>)>;

    open spec fn view(&self) -> Option<(EncryptionMethod, Seq<char>)> {
        match self.key {
            Some(k) => Some((k.method, k.uri@)),
            None => None,
        }
    }
}

impl Clone for ExtXKey {
    fn clone(&self) -> (r: ExtXKey)
        ensures
            r@ == self@,
    {
        match &self.key {
            Some(k) => ExtXKey { key: Some(DecryptionKey { method: k.method, uri: k.uri.clone() }) },
            None => ExtXKey { key: None },
        }
    }
}

impl ExtXKey {
    /// A key of `method` found at `uri`.
    pub fn new(method: EncryptionMethod, uri: QuotedString) -> (r: ExtXKey)
        ensures
            r@ == Some((method, uri@)),
    {
        ExtXKey { key: Some(DecryptionKey { method, uri }) }
    }

    /// The marker that the following segments are unencrypted.
    pub fn empty() -> (r: ExtXKey)
        ensures
            r@ is None,
    {
        ExtXKey { key: None }
    }

    pub open spec fn spec_encode(self) -> Seq<char> {
        match self@ {
            None => "#EXT-X-KEY:METHOD=NONE"@,
            Some((m, u)) => "#EXT-X-KEY:METHOD="@ + match m {
                EncryptionMethod::Aes128 => "AES-128"@,
                EncryptionMethod::SampleAes => "SAMPLE-AES"@,
            } + ",URI="@ + quoted(u),
        }
    }

    pub fn encode_into(&self, out: &mut Vec<char>)
        ensures
            final(out)@ == old(out)@ + self.spec_encode(),
    {
        match &self.key {
            None => push_all(out, "#EXT-X-KEY:METHOD=NONE"),
            Some(k) => {
                push_all(out, "#EXT-X-KEY:METHOD=");
                match k.method {
                    EncryptionMethod::Aes128 => push_all(out, "AES-128"),
                    EncryptionMethod::SampleAes => push_all(out, "SAMPLE-AES"),
                }
                push_all(out, ",URI=");
                k.uri.encode_into(out);
            },
        }
        assert(out@ =~= old(out)@ + self.spec_encode());
    }

    pub fn required_version(&self) -> (r: ProtocolVersion)
        ensures
            r == ProtocolVersion::V1,
    {
        ProtocolVersion::V1
    }
}

} // verus!
