use vstd::prelude::*;

use crate::text::{
    all_digits, chars_of, decimal, decimal_value, find_char, find_from, lemma_decimal_round_trip,
    lemma_find_from, parse_u64, push_all, push_decimal, slice_of, string_of,
};

verus! {

broadcast use vstd::string::group_string_axioms;

/// What can go wrong while decoding a playlist.
#[derive(Debug, Clone, PartialEq, Eq)]
pub enum Error {
    /// A line does not begin with the tag it is decoded as.
    InvalidInput,
    /// An attribute list has an unterminated quote or a pair without `=`.
    MalformedAttributeList,
    /// A value is not a run of decimal digits that fits its type.
    InvalidNumber,
    /// A value is not one pair of double quotes around legal characters.
    InvalidQuotedString,
    /// A value is not one of the names of a closed set.
    InvalidEnumValue,
    /// A value is not of the shape `WIDTHxHEIGHT`.
    InvalidResolution,
    /// A required attribute is absent; the attribute's name.
    MissingAttribute(String),
    /// A byte range without an offset follows no byte range it could continue.
    MissingByteRangeOffset,
    /// A segment's number would pass the largest `usize`.
    InconsistentSegmentNumbering,
}

/// An error as a mathematical value: the name of a missing attribute is a
/// sequence of characters.
pub enum ErrorView {
    InvalidInput,
    MalformedAttributeList,
    InvalidNumber,
    InvalidQuotedString,
    InvalidEnumValue,
    InvalidResolution,
    MissingAttribute(Seq<char>),
    MissingByteRangeOffset,
    InconsistentSegmentNumbering,
}

impl View for Error {
    type V = ErrorView;

    open spec fn view(&self) -> ErrorView {
        match self {
            Error::InvalidInput => ErrorView::InvalidInput,
            Error::MalformedAttributeList => ErrorView::MalformedAttributeList,
            Error::InvalidNumber => ErrorView::InvalidNumber,
            Error::InvalidQuotedString => ErrorView::InvalidQuotedString,
            Error::InvalidEnumValue => ErrorView::InvalidEnumValue,
            Error::InvalidResolution => ErrorView::InvalidResolution,
            Error::MissingAttribute(name) => ErrorView::MissingAttribute(name@),
            Error::MissingByteRangeOffset => ErrorView::MissingByteRangeOffset,
            Error::InconsistentSegmentNumbering => ErrorView::InconsistentSegmentNumbering,
        }
    }
}

/// The version of the playlist format; the versions are totally ordered.
#[derive(Debug, Clone, Copy, PartialEq, Eq, Structural, PartialOrd, Ord, Hash)]
pub enum ProtocolVersion {
    V1,
    V2,
    V3,
    V4,
    V5,
    V6,
    V7,
}

impl ProtocolVersion {
    /// The version's number.
    pub open spec fn number(self) -> nat {
        match self {
            ProtocolVersion::V1 => 1,
            ProtocolVersion::V2 => 2,
            ProtocolVersion::V3 => 3,
            ProtocolVersion::V4 => 4,
            ProtocolVersion::V5 => 5,
            ProtocolVersion::V6 => 6,
            ProtocolVersion::V7 => 7,
        }
    }

    /// The version's number.
    pub fn as_u8(self) -> (r: u8)
        ensures
            r as nat == self.number(),
    {
        match self {
            ProtocolVersion::V1 => 1,
            ProtocolVersion::V2 => 2,
            ProtocolVersion::V3 => 3,
            ProtocolVersion::V4 => 4,
            ProtocolVersion::V5 => 5,
            ProtocolVersion::V6 => 6,
            ProtocolVersion::V7 => 7,
        }
    }

    /// The later of two versions.
    pub fn max(self, other: ProtocolVersion) -> (r: ProtocolVersion)
        ensures
            r == (if self.number() >= other.number() { self } else { other }),
    {
        if self.as_u8() >= other.as_u8() {
            self
        } else {
            other
        }
    }
}

/// Characters that a quoted string may hold: no quote and no line break.
pub open spec fn quotable(s: Seq<char>) -> bool {
    forall|i: int| 0 <= i < s.len() ==> #[trigger] s[i] != '"' && s[i] != '\r' && s[i] != '\n'
}

/// `s` within double quotes.
pub open spec fn quoted(s: Seq<char>) -> Seq<char> {
    seq!['"'] + s + seq!['"']
}

/// The text within the quotes of a quoted value, or `None` where `v` is not one.
pub open spec fn unquoted(v: Seq<char>) -> Option<Seq<char>> {
    if v.len() >= 2 && v[0] == '"' && v.last() == '"' && quotable(v.subrange(1, v.len() - 1)) {
        Some(v.subrange(1, v.len() - 1))
    } else {
        None
    }
}

/// Stripping the quotes off a quoted string gives the string back.
pub proof fn lemma_unquote_quoted(s: Seq<char>)
    requires
        quotable(s),
    ensures
        unquoted(quoted(s)) == Some(s),
{
    let q = quoted(s);
    assert(q.subrange(1, q.len() - 1) =~= s);
}

/// A string that can stand between double quotes.
#[derive(Debug, PartialEq, Eq, Hash)]
pub struct QuotedString {
    value: String,
}

impl View for QuotedString {
    type V = Seq<char>;

    closed spec fn view(&self) -> Seq<char> {
        self.value@
    }
}

impl Clone for QuotedString {
    fn clone(&self) -> (r: QuotedString)
        ensures
            r@ == self@,
    {
        proof { use_type_invariant(self); }
        QuotedString { value: self.value.clone() }
    }
}

impl QuotedString {
    #[verifier::type_invariant]
    spec fn inv(self) -> bool {
        quotable(self.value@)
    }

    /// Makes a quoted string of `s`; fails where `s` holds a quote or a line break.
    pub fn new(s: &str) -> (r: Result<QuotedString, Error>)
        ensures
            r is Ok <==> quotable(s@),
            r is Ok ==> r->Ok_0@ == s@,
            r is Err ==> r->Err_0 == Error::InvalidQuotedString,
    {
        let v = chars_of(s);
        Self::from_chars(&v)
    }

    /// Makes a quoted string of `s`; fails where `s` holds a quote or a line break.
    pub fn from_chars(s: &[char]) -> (r: Result<QuotedString, Error>)
        ensures
            r is Ok <==> quotable(s@),
            r is Ok ==> r->Ok_0@ == s@,
            r is Err ==> r->Err_0 == Error::InvalidQuotedString,
    {
        for i in 0..s.len()
            invariant
                forall|j: int| 0 <= j < i ==> #[trigger] s@[j] != '"' && s@[j] != '\r' && s@[j] != '\n',
        {
            if s[i] == '"' || s[i] == '\r' || s[i] == '\n' {
                return Err(Error::InvalidQuotedString);
            }
        }
        let v = slice_of(s, 0, s.len());
        assert(v@ =~= s@);
        Ok(QuotedString { value: string_of(&v) })
    }

    /// The text between the quotes.
    pub fn value(&self) -> (r: &String)
        ensures
            r@ == self@,
            quotable(self@),
    {
        proof { use_type_invariant(self); }
        &self.value
    }

    /// Appends the quoted form to `out`.
    pub fn encode_into(&self, out: &mut Vec<char>)
        ensures
            final(out)@ == old(out)@ + quoted(self@),
    {
        out.push('"');
        push_all(out, self.value.as_str());
        out.push('"');
        assert(out@ =~= old(out)@ + quoted(self@));
    }

    /// Reads a quoted value, quotes included.
    pub fn parse(v: &[char]) -> (r: Result<QuotedString, Error>)
        ensures
            r is Ok <==> unquoted(v@) is Some,
            r is Ok ==> r->Ok_0@ == unquoted(v@)->0,
            r is Err ==> r->Err_0 == Error::InvalidQuotedString,
    {
        if v.len() < 2 || v[0] != '"' || v[v.len() - 1] != '"' {
            return Err(Error::InvalidQuotedString);
        }
        let inner = slice_of(v, 1, v.len() - 1);
        Self::from_chars(inner.as_slice())
    }
}

} // verus!

verus! {

/// The number that `v` writes in decimal, where it is one that fits a `usize`.
pub open spec fn usize_of(v: Seq<char>) -> Option<usize> {
    if v.len() > 0 && all_digits(v) && decimal_value(v) <= usize::MAX {
        Some(decimal_value(v) as usize)
    } else {
        None
    }
}

/// The number that `v` writes in decimal, where it is one that fits a `u64`.
pub open spec fn u64_of(v: Seq<char>) -> Option<u64> {
    if v.len() > 0 && all_digits(v) && decimal_value(v) <= u64::MAX {
        Some(decimal_value(v) as u64)
    } else {
        None
    }
}

/// Reading back the decimal form of a `usize` gives the number.
pub proof fn lemma_usize_round_trip(n: usize)
    ensures
        usize_of(decimal(n as nat)) == Some(n),
{
    lemma_decimal_round_trip(n as nat);
}

/// Reading back the decimal form of a `u64` gives the number.
pub proof fn lemma_u64_round_trip(n: u64)
    ensures
        u64_of(decimal(n as nat)) == Some(n),
{
    lemma_decimal_round_trip(n as nat);
}

/// Reads a decimal `usize`.
pub fn parse_usize(v: &[char]) -> (r: Result<usize, Error>)
    ensures
        r is Ok <==> usize_of(v@) is Some,
        r is Ok ==> r->Ok_0 == usize_of(v@)->0,
        r is Err ==> r->Err_0 == Error::InvalidNumber,
{
    match parse_u64(v) {
        Some(n) => {
            if n <= usize::MAX as u64 {
                Ok(n as usize)
            } else {
                Err(Error::InvalidNumber)
            }
        },
        None => Err(Error::InvalidNumber),
    }
}

/// Reads a decimal `u64`.
pub fn parse_number(v: &[char]) -> (r: Result<u64, Error>)
    ensures
        r is Ok <==> u64_of(v@) is Some,
        r is Ok ==> r->Ok_0 == u64_of(v@)->0,
        r is Err ==> r->Err_0 == Error::InvalidNumber,
{
    match parse_u64(v) {
        Some(n) => Ok(n),
        None => Err(Error::InvalidNumber),
    }
}

/// A decimal form holds no character but digits, so none of `c` where `c` is no digit.
proof fn lemma_decimal_lacks(n: nat, c: char)
    requires
        !('0' <= c && c <= '9'),
    ensures
        forall|i: int| 0 <= i < decimal(n).len() ==> decimal(n)[i] != c,
{
    lemma_decimal_round_trip(n);
}

/// In `a + [c] + b`, where `a` lacks `c`, the first `c` stands at `a.len()`.
pub proof fn lemma_find_after(a: Seq<char>, c: char, b: Seq<char>)
    requires
        forall|i: int| 0 <= i < a.len() ==> a[i] != c,
    ensures
        find_from(a + seq![c] + b, c, 0) == Some(a.len() as int),
{
    let s = a + seq![c] + b;
    lemma_find_from(s, c, 0);
    assert(s[a.len() as int] == c);
    let k = find_from(s, c, 0)->0;
    if k < a.len() {
        assert(s[k] == a[k]);
    }
}

/// A string that lacks `c` has no first `c`.
pub proof fn lemma_find_none(a: Seq<char>, c: char)
    requires
        forall|i: int| 0 <= i < a.len() ==> a[i] != c,
    ensures
        find_from(a, c, 0) is None,
{
    lemma_find_from(a, c, 0);
}

/// A run of `length` bytes, from `start` where it is given.
#[derive(Debug, Clone, Copy, PartialEq, Eq, Structural, Hash)]
pub struct ByteRange {
    pub length: usize,
    pub start: Option<usize>,
}

impl ByteRange {
    /// The text form: `LENGTH@START`, or `LENGTH` alone.
    pub open spec fn spec_encode(self) -> Seq<char> {
        match self.start {
            Some(s) => decimal(self.length as nat) + seq!['@'] + decimal(s as nat),
            None => decimal(self.length as nat),
        }
    }

    /// Appends the text form to `out`.
    pub fn encode_into(&self, out: &mut Vec<char>)
        ensures
            final(out)@ == old(out)@ + self.spec_encode(),
    {
        push_decimal(out, self.length as u64);
        if let Some(s) = self.start {
            out.push('@');
            push_decimal(out, s as u64);
        }
        assert(out@ =~= old(out)@ + self.spec_encode());
    }

    /// The text form.
    pub fn to_string(&self) -> (r: String)
        ensures
            r@ == self.spec_encode(),
    {
        let mut out: Vec<char> = Vec::new();
        self.encode_into(&mut out);
        assert(out@ =~= self.spec_encode());
        string_of(&out)
    }

    /// Reads `LENGTH@START` or `LENGTH`.
    pub open spec fn spec_parse(v: Seq<char>) -> Result<ByteRange, Error> {
        match find_from(v, '@', 0) {
            Some(k) => match (usize_of(v.take(k)), usize_of(v.skip(k + 1))) {
                (Some(l), Some(s)) => Ok(ByteRange { length: l, start: Some(s) }),
                _ => Err(Error::InvalidNumber),
            },
            None => match usize_of(v) {
                Some(l) => Ok(ByteRange { length: l, start: None }),
                None => Err(Error::InvalidNumber),
            },
        }
    }

    /// Reads `LENGTH@START` or `LENGTH`.
    pub fn parse(v: &[char]) -> (r: Result<ByteRange, Error>)
        ensures
            r == ByteRange::spec_parse(v@),
    {
        match find_char(v, '@') {
            Some(k) => {
                proof { lemma_find_from(v@, '@', 0); }
                let n: usize = v.len();
                assert(k < n);
                let a = slice_of(v, 0, k);
                let b = slice_of(v, k + 1, n);
                assert(a@ =~= v@.take(k as int));
                assert(b@ =~= v@.skip(k + 1));
                let l = parse_usize(a.as_slice());
                let s = parse_usize(b.as_slice());
                match (l, s) {
                    (Ok(l), Ok(s)) => Ok(ByteRange { length: l, start: Some(s) }),
                    _ => Err(Error::InvalidNumber),
                }
            },
            None => match parse_usize(v) {
                Ok(l) => Ok(ByteRange { length: l, start: None }),
                Err(e) => Err(e),
            },
        }
    }

    /// Reading the text form back gives the same byte range.
    pub proof fn lemma_round_trip(self)
        ensures
            ByteRange::spec_parse(self.spec_encode()) == Ok::<ByteRange, Error>(self),
    {
        let d = decimal(self.length as nat);
        lemma_decimal_lacks(self.length as nat, '@');
        lemma_usize_round_trip(self.length);
        match self.start {
            Some(s) => {
                lemma_usize_round_trip(s);
                let e = self.spec_encode();
                lemma_find_after(d, '@', decimal(s as nat));
                assert(e.take(d.len() as int) =~= d);
                assert(e.skip(d.len() as int + 1) =~= decimal(s as nat));
            },
            None => {
                lemma_find_none(d, '@');
            },
        }
    }
}

/// A picture size in pixels, written `WIDTHxHEIGHT`.
#[derive(Debug, Clone, Copy, PartialEq, Eq, Structural, Hash)]
pub struct DecimalResolution {
    pub width: usize,
    pub height: usize,
}

impl DecimalResolution {
    pub fn new(width: usize, height: usize) -> (r: DecimalResolution)
        ensures
            r.width == width,
            r.height == height,
    {
        DecimalResolution { width, height }
    }

    /// The text form `WIDTHxHEIGHT`.
    pub open spec fn spec_encode(self) -> Seq<char> {
        decimal(self.width as nat) + seq!['x'] + decimal(self.height as nat)
    }

    /// Appends the text form to `out`.
    pub fn encode_into(&self, out: &mut Vec<char>)
        ensures
            final(out)@ == old(out)@ + self.spec_encode(),
    {
        push_decimal(out, self.width as u64);
        out.push('x');
        push_decimal(out, self.height as u64);
        assert(out@ =~= old(out)@ + self.spec_encode());
    }

    /// Reads `WIDTHxHEIGHT`.
    pub open spec fn spec_parse(v: Seq<char>) -> Result<DecimalResolution, Error> {
        match find_from(v, 'x', 0) {
            Some(k) => match (usize_of(v.take(k)), usize_of(v.skip(k + 1))) {
                (Some(w), Some(h)) => Ok(DecimalResolution { width: w, height: h }),
                _ => Err(Error::InvalidResolution),
            },
            None => Err(Error::InvalidResolution),
        }
    }

    /// Reads `WIDTHxHEIGHT`.
    pub fn parse(v: &[char]) -> (r: Result<DecimalResolution, Error>)
        ensures
            r == DecimalResolution::spec_parse(v@),
    {
        match find_char(v, 'x') {
            Some(k) => {
                proof { lemma_find_from(v@, 'x', 0); }
                let n: usize = v.len();
                assert(k < n);
                let a = slice_of(v, 0, k);
                let b = slice_of(v, k + 1, n);
                assert(a@ =~= v@.take(k as int));
                assert(b@ =~= v@.skip(k + 1));
                match (parse_usize(a.as_slice()), parse_usize(b.as_slice())) {
                    (Ok(w), Ok(h)) => Ok(DecimalResolution { width: w, height: h }),
                    _ => Err(Error::InvalidResolution),
                }
            },
            None => Err(Error::InvalidResolution),
        }
    }

    /// Reading the text form back gives the same resolution.
    pub proof fn lemma_round_trip(self)
        ensures
            DecimalResolution::spec_parse(self.spec_encode()) == Ok::<DecimalResolution, Error>(self),
    {
        let d = decimal(self.width as nat);
        let e = self.spec_encode();
        lemma_decimal_lacks(self.width as nat, 'x');
        lemma_usize_round_trip(self.width);
        lemma_usize_round_trip(self.height);
        lemma_find_after(d, 'x', decimal(self.height as nat));
        assert(e.take(d.len() as int) =~= d);
        assert(e.skip(d.len() as int + 1) =~= decimal(self.height as nat));
    }
}

/// The level of copy protection that a stream needs.
#[derive(Debug, Clone, Copy, PartialEq, Eq, Structural, Hash)]
pub enum HdcpLevel {
    /// Written `TYPE-0`.
    Type0,
    /// Written `NONE`.
    Unprotected,
}

impl HdcpLevel {
    pub open spec fn spec_encode(self) -> Seq<char> {
        match self {
            HdcpLevel::Type0 => "TYPE-0"@,
            HdcpLevel::Unprotected => "NONE"@,
        }
    }

    /// Appends the name to `out`.
    pub fn encode_into(&self, out: &mut Vec<char>)
        ensures
            final(out)@ == old(out)@ + self.spec_encode(),
    {
        match self {
            HdcpLevel::Type0 => push_all(out, "TYPE-0"),
            HdcpLevel::Unprotected => push_all(out, "NONE"),
        }
    }

    pub open spec fn spec_parse(v: Seq<char>) -> Result<HdcpLevel, Error> {
        if v == "TYPE-0"@ {
            Ok(HdcpLevel::Type0)
        } else if v == "NONE"@ {
            Ok(HdcpLevel::Unprotected)
        } else {
            Err(Error::InvalidEnumValue)
        }
    }

    /// Reads a level by its exact name.
    pub fn parse(v: &[char]) -> (r: Result<HdcpLevel, Error>)
        ensures
            r == HdcpLevel::spec_parse(v@),
    {
        if crate::text::eq_str(v, "TYPE-0") {
            Ok(HdcpLevel::Type0)
        } else if crate::text::eq_str(v, "NONE") {
            Ok(HdcpLevel::Unprotected)
        } else {
            Err(Error::InvalidEnumValue)
        }
    }

    /// Reading the name back gives the same level.
    pub proof fn lemma_round_trip(self)
        ensures
            HdcpLevel::spec_parse(self.spec_encode()) == Ok::<HdcpLevel, Error>(self),
    {
        reveal_strlit("TYPE-0");
        reveal_strlit("NONE");
        assert("TYPE-0"@ != "NONE"@ ) by {
            assert("TYPE-0"@.len() != "NONE"@.len());
        }
    }
}

} // verus!
