use vstd::prelude::*;

use crate::attribute::{
    attribute_pairs, fold_pairs, has_prefix, lemma_fold_err, lemma_fold_step, missing,
    pairs_view, parse_attribute_pairs, tag_body,
};
use crate::segment_tags::{DecryptionKey, EncryptionMethod, ExtXDateRange, ExtXKey};
use crate::text::{chars_of, eq_str};
use crate::types::{unquoted, Error, ErrorView, QuotedString};

verus! {

broadcast use vstd::string::group_string_axioms;

/// An encryption method by its name; `NONE` reads as no method.
pub open spec fn method_of(v: Seq<char>) -> Result<Option<EncryptionMethod>, ErrorView> {
    if v == "NONE"@ {
        Ok(None)
    } else if v == "AES-128"@ {
        Ok(Some(EncryptionMethod::Aes128))
    } else if v == "SAMPLE-AES"@ {
        Ok(Some(EncryptionMethod::SampleAes))
    } else {
        Err(ErrorView::InvalidEnumValue)
    }
}

/// One attribute's effect on (method, uri) while a key tag is read.
pub open spec fn key_step(
    st: (Option<Option<EncryptionMethod>>, Option<Seq<char>>),
    p: (Seq<char>, Seq<char>),
) -> Result<(Option<Option<EncryptionMethod>>, Option<Seq<char>>), ErrorView> {
    if p.0 == "METHOD"@ {
        match method_of(p.1) {
            Ok(m) => Ok((Some(m), st.1)),
            Err(e) => Err(e),
        }
    } else if p.0 == "URI"@ {
        match unquoted(p.1) {
            Some(u) => Ok((st.0, Some(u))),
            None => Err(ErrorView::InvalidQuotedString),
        }
    } else {
        Ok(st)
    }
}

/// Reads a key tag. `METHOD` is required, and `URI` unless the method is `NONE`.
pub open spec fn decode_key(s: Seq<char>) -> Result<Option<(EncryptionMethod, Seq<char>)>, ErrorView> {
    if !has_prefix(s, "#EXT-X-KEY:"@) {
        Err(ErrorView::InvalidInput)
    } else {
        match attribute_pairs(s.skip("#EXT-X-KEY:"@.len() as int)) {
            None => Err(ErrorView::MalformedAttributeList),
            Some(pairs) => match fold_pairs(pairs, (None, None), |st, p| key_step(st, p)) {
                Err(e) => Err(e),
                Ok((None, _)) => Err(ErrorView::MissingAttribute("METHOD"@)),
                Ok((Some(None), _)) => Ok(None),
                Ok((Some(Some(_)), None)) => Err(ErrorView::MissingAttribute("URI"@)),
                Ok((Some(Some(m)), Some(u))) => Ok(Some((m, u))),
            },
        }
    }
}

fn parse_method(v: &[char]) -> (r: Result<Option<EncryptionMethod>, Error>)
    ensures
        r is Ok <==> method_of(v@) is Ok,
        r is Ok ==> r->Ok_0 == method_of(v@)->Ok_0,
        r is Err ==> r->Err_0@ == method_of(v@)->Err_0,
{
    if eq_str(v, "NONE") {
        Ok(None)
    } else if eq_str(v, "AES-128") {
        Ok(Some(EncryptionMethod::Aes128))
    } else if eq_str(v, "SAMPLE-AES") {
        Ok(Some(EncryptionMethod::SampleAes))
    } else {
        Err(Error::InvalidEnumValue)
    }
}

impl ExtXKey {
    /// Reads the tag from line `s`.
    pub fn parse(s: &str) -> (r: Result<ExtXKey, Error>)
        ensures
            r is Ok <==> decode_key(s@) is Ok,
            r is Ok ==> r->Ok_0@ == decode_key(s@)->Ok_0,
            r is Err ==> r->Err_0@ == decode_key(s@)->Err_0,
    {
        let line = chars_of(s);
        let body = tag_body(line.as_slice(), "#EXT-X-KEY:")?;
        let pairs = parse_attribute_pairs(body.as_slice())?;
        let ghost pv = pairs_view(pairs@);
        let ghost step = |st, p| key_step(st, p);
        let mut method: Option<Option<EncryptionMethod>> = None;
        let mut uri: Option<QuotedString> = None;
        for i in 0..pairs.len()
            invariant
                pv == pairs_view(pairs@),
                has_prefix(s@, "#EXT-X-KEY:"@),
                attribute_pairs(s@.skip("#EXT-X-KEY:"@.len() as int)) == Some(pv),
                step == (|st, p| key_step(st, p)),
                fold_pairs(pv.take(i as int), (None, None), step) == Ok::<_, ErrorView>(
                    (method, match uri { Some(q) => Some(q@), None => None }),
                ),
        {
            proof { lemma_fold_step(pv, (None, None), step, i as int); }
            let key = pairs[i].key.as_slice();
            let value = pairs[i].value.as_slice();
            if eq_str(key, "METHOD") {
                match parse_method(value) {
                    Ok(m) => method = Some(m),
                    Err(e) => {
                        proof { lemma_fold_err(pv, (None, None), step, i + 1); }
                        return Err(e);
                    },
                }
            } else if eq_str(key, "URI") {
                match QuotedString::parse(value) {
                    Ok(q) => uri = Some(q),
                    Err(e) => {
                        proof { lemma_fold_err(pv, (None, None), step, i + 1); }
                        return Err(e);
                    },
                }
            }
        }
        assert(pv.take(pairs.len() as int) =~= pv);
        match method {
            None => Err(missing("METHOD")),
            Some(None) => Ok(ExtXKey::empty()),
            Some(Some(m)) => match uri {
                None => Err(missing("URI")),
                Some(u) => Ok(ExtXKey { key: Some(DecryptionKey { method: m, uri: u }) }),
            },
        }
    }
}

/// One attribute's effect on (id, start date) while a date-range tag is read.
pub open spec fn date_range_step(
    st: (Option<Seq<char>>, Option<Seq<char>>),
    p: (Seq<char>, Seq<char>),
) -> Result<(Option<Seq<char>>, Option<Seq<char>>), ErrorView> {
    if p.0 == "ID"@ {
        match unquoted(p.1) {
            Some(u) => Ok((Some(u), st.1)),
            None => Err(ErrorView::InvalidQuotedString),
        }
    } else if p.0 == "START-DATE"@ {
        match unquoted(p.1) {
            Some(u) => Ok((st.0, Some(u))),
            None => Err(ErrorView::InvalidQuotedString),
        }
    } else {
        Ok(st)
    }
}

/// Reads a date-range tag into (id, start date); both are required.
pub open spec fn decode_date_range(s: Seq<char>) -> Result<(Seq<char>, Seq<char>), ErrorView> {
    if !has_prefix(s, "#EXT-X-DATERANGE:"@) {
        Err(ErrorView::InvalidInput)
    } else {
        match attribute_pairs(s.skip("#EXT-X-DATERANGE:"@.len() as int)) {
            None => Err(ErrorView::MalformedAttributeList),
            Some(pairs) => match fold_pairs(pairs, (None, None), |st, p| date_range_step(st, p)) {
                Err(e) => Err(e),
                Ok((None, _)) => Err(ErrorView::MissingAttribute("ID"@)),
                Ok((Some(_), None)) => Err(ErrorView::MissingAttribute("START-DATE"@)),
                Ok((Some(i), Some(d))) => Ok((i, d)),
            },
        }
    }
}

impl ExtXDateRange {
    /// Reads the tag from line `s`.
    pub fn parse(s: &str) -> (r: Result<ExtXDateRange, Error>)
        ensures
            r is Ok <==> decode_date_range(s@) is Ok,
            r is Ok ==> (r->Ok_0.id@, r->Ok_0.start_date@) == decode_date_range(s@)->Ok_0,
            r is Err ==> r->Err_0@ == decode_date_range(s@)->Err_0,
    {
        let line = chars_of(s);
        let body = tag_body(line.as_slice(), "#EXT-X-DATERANGE:")?;
        let pairs = parse_attribute_pairs(body.as_slice())?;
        let ghost pv = pairs_view(pairs@);
        let ghost step = |st, p| date_range_step(st, p);
        let mut id: Option<QuotedString> = None;
        let mut start_date: Option<QuotedString> = None;
        for i in 0..pairs.len()
            invariant
                pv == pairs_view(pairs@),
                has_prefix(s@, "#EXT-X-DATERANGE:"@),
                attribute_pairs(s@.skip("#EXT-X-DATERANGE:"@.len() as int)) == Some(pv),
                step == (|st, p| date_range_step(st, p)),
                fold_pairs(pv.take(i as int), (None, None), step) == Ok::<_, ErrorView>(
                    (
                        match id { Some(q) => Some(q@), None => None },
                        match start_date { Some(q) => Some(q@), None => None },
                    ),
                ),
        {
            proof { lemma_fold_step(pv, (None, None), step, i as int); }
            let key = pairs[i].key.as_slice();
            let value = pairs[i].value.as_slice();
            if eq_str(key, "ID") {
                match QuotedString::parse(value) {
                    Ok(q) => id = Some(q),
                    Err(e) => {
                        proof { lemma_fold_err(pv, (None, None), step, i + 1); }
                        return Err(e);
                    },
                }
            } else if eq_str(key, "START-DATE") {
                match QuotedString::parse(value) {
                    Ok(q) => start_date = Some(q),
                    Err(e) => {
                        proof { lemma_fold_err(pv, (None, None), step, i + 1); }
                        return Err(e);
                    },
                }
            }
        }
        assert(pv.take(pairs.len() as int) =~= pv);
        match id {
            None => Err(missing("ID")),
            Some(i) => match start_date {
                None => Err(missing("START-DATE")),
                Some(d) => Ok(ExtXDateRange { id: i, start_date: d }),
            },
        }
    }
}

} // verus!
