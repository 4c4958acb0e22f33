use vstd::prelude::*;

use crate::attribute::{
    attribute_pairs, fold_pairs, has_prefix, lemma_fold_err, lemma_fold_step, missing,
    pairs_view, parse_attribute_pairs, tag_body,
};
use crate::text::{chars_of, eq_str, push_all, string_of};
use crate::types::{quoted, unquoted, ByteRange, Error, ErrorView, ProtocolVersion, QuotedString};

verus! {

broadcast use vstd::string::group_string_axioms;

/// The content of an initialization-section tag.
pub struct MapModel {
    pub uri: Seq<char>,
    pub range: Option<ByteRange>,
}

/// The text of an initialization-section tag.
pub open spec fn encode_map(m: MapModel) -> Seq<char> {
    "#EXT-X-MAP:"@ + "URI="@ + quoted(m.uri) + match m.range {
        Some(r) => ",BYTERANGE="@ + quoted(r.spec_encode()),
        None => Seq::empty(),
    }
}

/// One attribute's effect on (uri, range) while an initialization-section tag is read.
pub open spec fn map_step(
    st: (Option<Seq<char>>, Option<ByteRange>),
    p: (Seq<char>, Seq<char>),
) -> Result<(Option<Seq<char>>, Option<ByteRange>), ErrorView> {
    if p.0 == "URI"@ {
        match unquoted(p.1) {
            Some(u) => Ok((Some(u), st.1)),
            None => Err(ErrorView::InvalidQuotedString),
        }
    } else if p.0 == "BYTERANGE"@ {
        match unquoted(p.1) {
            Some(q) => match ByteRange::spec_parse(q) {
                Ok(b) => Ok((st.0, Some(b))),
                Err(e) => Err(e@),
            },
            None => Err(ErrorView::InvalidQuotedString),
        }
    } else {
        Ok(st)
    }
}

/// Reads an initialization-section tag. Attributes of other names are ignored;
/// of one named twice, the last stands.
pub open spec fn decode_map(s: Seq<char>) -> Result<MapModel, ErrorView> {
    if !has_prefix(s, "#EXT-X-MAP:"@) {
        Err(ErrorView::InvalidInput)
    } else {
        match attribute_pairs(s.skip("#EXT-X-MAP:"@.len() as int)) {
            None => Err(ErrorView::MalformedAttributeList),
            Some(pairs) => match fold_pairs(pairs, (None, None), |st, p| map_step(st, p)) {
                Err(e) => Err(e),
                Ok((Some(u), r)) => Ok(MapModel { uri: u, range: r }),
                Ok((None, _)) => Err(ErrorView::MissingAttribute("URI"@)),
            },
        }
    }
}

/// Where the media initialization section of the following segments is found.
#[derive(Debug, Clone, PartialEq, Eq, Hash)]
pub struct ExtXMap {
    uri: QuotedString,
    range: Option<ByteRange>,
}

impl View for ExtXMap {
    type V = MapModel;

    closed spec fn view(&self) -> MapModel {
        MapModel { uri: self.uri@, range: self.range }
    }
}


impl ExtXMap {
    /// Makes a tag for the whole resource at `uri`.
    pub fn new(uri: QuotedString) -> (r: ExtXMap)
        ensures
            r@ == (MapModel { uri: uri@, range: None }),
    {
        ExtXMap { uri, range: None }
    }

    /// Makes a tag for the part `range` of the resource at `uri`.
    pub fn with_range(uri: QuotedString, range: ByteRange) -> (r: ExtXMap)
        ensures
            r@ == (MapModel { uri: uri@, range: Some(range) }),
    {
        ExtXMap { uri, range: Some(range) }
    }

    /// The resource that holds the initialization section.
    pub fn uri(&self) -> (r: &QuotedString)
        ensures
            r@ == self@.uri,
    {
        &self.uri
    }

    /// The part of the resource that holds the initialization section.
    pub fn range(&self) -> (r: Option<ByteRange>)
        ensures
            r == self@.range,
    {
        self.range
    }

    /// The oldest version of the format that has this tag.
    pub fn requires_version(&self) -> (r: ProtocolVersion)
        ensures
            r == ProtocolVersion::V6,
    {
        ProtocolVersion::V6
    }

    /// Appends the tag's text to `out`.
    pub fn encode_into(&self, out: &mut Vec<char>)
        ensures
            final(out)@ == old(out)@ + encode_map(self@),
    {
        push_all(out, "#EXT-X-MAP:");
        push_all(out, "URI=");
        self.uri.encode_into(out);
        if let Some(r) = &self.range {
            push_all(out, ",BYTERANGE=");
            out.push('"');
            r.encode_into(out);
            out.push('"');
        }
        assert(out@ =~= old(out)@ + encode_map(self@));
    }

    /// The tag's text.
    pub fn to_string(&self) -> (r: String)
        ensures
            r@ == encode_map(self@),
    {
        let mut out: Vec<char> = Vec::new();
        self.encode_into(&mut out);
        assert(out@ =~= encode_map(self@));
        string_of(&out)
    }

    /// Reads the tag from line `s`.
    pub fn parse(s: &str) -> (r: Result<ExtXMap, Error>)
        ensures
            r is Ok <==> decode_map(s@) is Ok,
            r is Ok ==> r->Ok_0@ == decode_map(s@)->Ok_0,
            r is Err ==> r->Err_0@ == decode_map(s@)->Err_0,
    {
        let line = chars_of(s);
        let body = tag_body(line.as_slice(), "#EXT-X-MAP:")?;
        let pairs = parse_attribute_pairs(body.as_slice())?;
        let ghost pv = pairs_view(pairs@);
        let ghost step = |st, p| map_step(st, p);
        let mut uri: Option<QuotedString> = None;
        let mut range: Option<ByteRange> = None;
        for i in 0..pairs.len()
            invariant
                pv == pairs_view(pairs@),
                has_prefix(s@, "#EXT-X-MAP:"@),
                attribute_pairs(s@.skip("#EXT-X-MAP:"@.len() as int)) == Some(pv),
                step == (|st, p| map_step(st, p)),
                fold_pairs(pv.take(i as int), (None, None), step) == Ok::<_, ErrorView>(
                    (match uri { Some(q) => Some(q@), None => None }, range),
                ),
        {
            proof { lemma_fold_step(pv, (None, None), step, i as int); }
            let key = pairs[i].key.as_slice();
            let value = pairs[i].value.as_slice();
            if eq_str(key, "URI") {
                match QuotedString::parse(value) {
                    Ok(q) => uri = Some(q),
                    Err(e) => {
                        proof { lemma_fold_err(pv, (None, None), step, i + 1); }
                        return Err(e);
                    },
                }
            } else if eq_str(key, "BYTERANGE") {
                let q = match QuotedString::parse(value) {
                    Ok(q) => q,
                    Err(e) => {
                        proof { lemma_fold_err(pv, (None, None), step, i + 1); }
                        return Err(e);
                    },
                };
                let inner = chars_of(q.value().as_str());
                match ByteRange::parse(inner.as_slice()) {
                    Ok(b) => range = Some(b),
                    Err(e) => {
                        proof { lemma_fold_err(pv, (None, None), step, i + 1); }
                        return Err(e);
                    },
                }
            }
        }
        assert(pv.take(pairs.len() as int) =~= pv);
        match uri {
            Some(u) => Ok(ExtXMap { uri: u, range }),
            None => Err(missing("URI")),
        }
    }
}

impl std::str::FromStr for ExtXMap {
    type Err = Error;

    fn from_str(s: &str) -> Result<ExtXMap, Error> {
        ExtXMap::parse(s)
    }
}

} // verus!
