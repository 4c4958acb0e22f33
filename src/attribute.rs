use vstd::prelude::*;

use crate::text::{find_char, find_from, lemma_find_from, slice_of};
use crate::types::{quotable, Error, ErrorView};

verus! {

/// The fields of `s` from index `i` on, split at commas outside quotes.
/// `start` is where the current field began, `inq` whether a quote is open,
/// and `acc` the fields already closed.
pub open spec fn fields_from(
    s: Seq<char>,
    i: int,
    start: int,
    inq: bool,
    acc: Seq<Seq<char>>,
) -> Option<Seq<Seq<char>>>
    decreases s.len() - i,
{
    if i < 0 || i >= s.len() {
        if inq {
            None
        } else {
            Some(acc.push(s.subrange(start, s.len() as int)))
        }
    } else if s[i] == '"' {
        fields_from(s, i + 1, start, !inq, acc)
    } else if s[i] == ',' && !inq {
        fields_from(s, i + 1, i + 1, false, acc.push(s.subrange(start, i)))
    } else {
        fields_from(s, i + 1, start, inq, acc)
    }
}

/// The fields of an attribute list; `None` where a quote is left open.
pub open spec fn fields(s: Seq<char>) -> Option<Seq<Seq<char>>> {
    if s.len() == 0 {
        Some(Seq::empty())
    } else {
        fields_from(s, 0, 0, false, Seq::empty())
    }
}

/// A field split at its first `=`; `None` where it has none.
pub open spec fn pair_of(f: Seq<char>) -> Option<(Seq<char>, Seq<char>)> {
    match find_from(f, '=', 0) {
        Some(k) => Some((f.take(k), f.skip(k + 1))),
        None => None,
    }
}

/// Each field split into name and raw value; `None` where one has no `=`.
pub open spec fn pairs_of(fs: Seq<Seq<char>>) -> Option<Seq<(Seq<char>, Seq<char>)>>
    decreases fs.len(),
{
    if fs.len() == 0 {
        Some(Seq::empty())
    } else {
        match (pairs_of(fs.drop_last()), pair_of(fs.last())) {
            (Some(p), Some(q)) => Some(p.push(q)),
            _ => None,
        }
    }
}

/// The (name, raw value) pairs of an attribute list, in order; `None` where
/// it is malformed.
pub open spec fn attribute_pairs(s: Seq<char>) -> Option<Seq<(Seq<char>, Seq<char>)>> {
    match fields(s) {
        Some(fs) => pairs_of(fs),
        None => None,
    }
}

/// One attribute: its name and its value as written.
#[derive(Debug, Clone, PartialEq, Eq)]
pub struct AttributePair {
    pub key: Vec<char>,
    pub value: Vec<char>,
}

impl View for AttributePair {
    type V = (Seq<char>, Seq<char>);

    open spec fn view(&self) -> (Seq<char>, Seq<char>) {
        (self.key@, self.value@)
    }
}

/// The views of a sequence of pairs.
pub open spec fn pairs_view(v: Seq<AttributePair>) -> Seq<(Seq<char>, Seq<char>)> {
    v.map_values(|p: AttributePair| p@)
}

/// Splits an attribute list at its commas outside quotes.
fn split_fields(s: &[char]) -> (r: Option<Vec<Vec<char>>>)
    ensures
        r is Some <==> fields(s@) is Some,
        r is Some ==> r->0@.map_values(|f: Vec<char>| f@) == fields(s@)->0,
{
    let mut acc: Vec<Vec<char>> = Vec::new();
    if s.len() == 0 {
        assert(acc@.map_values(|f: Vec<char>| f@) =~= Seq::<Seq<char>>::empty());
        return Some(acc);
    }
    let mut start: usize = 0;
    let mut inq = false;
    assert(acc@.map_values(|f: Vec<char>| f@) =~= Seq::<Seq<char>>::empty());
    for i in 0..s.len()
        invariant
            s@.len() > 0,
            start <= i,
            fields(s@) == fields_from(s@, i as int, start as int, inq, acc@.map_values(|f: Vec<char>| f@)),
    {
        if s[i] == '"' {
            inq = !inq;
        } else if s[i] == ',' && !inq {
            let f = slice_of(s, start, i);
            let ghost old_acc = acc@.map_values(|f: Vec<char>| f@);
            acc.push(f);
            assert(acc@.map_values(|f: Vec<char>| f@) =~= old_acc.push(s@.subrange(start as int, i as int)));
            start = i + 1;
        }
    }
    if inq {
        return None;
    }
    let n = s.len();
    let f = slice_of(s, start, n);
    let ghost old_acc = acc@.map_values(|f: Vec<char>| f@);
    acc.push(f);
    assert(acc@.map_values(|f: Vec<char>| f@) =~= old_acc.push(s@.subrange(start as int, n as int)));
    Some(acc)
}

/// Splits a field at its first `=`.
fn split_pair(f: &[char]) -> (r: Option<AttributePair>)
    ensures
        r is Some <==> pair_of(f@) is Some,
        r is Some ==> r->0@ == pair_of(f@)->0,
{
    match find_char(f, '=') {
        Some(k) => {
            proof { lemma_find_from(f@, '=', 0); }
            let n: usize = f.len();
            assert(k < n);
            let key = slice_of(f, 0, k);
            let value = slice_of(f, k + 1, n);
            assert(key@ =~= f@.take(k as int));
            assert(value@ =~= f@.skip(k + 1));
            Some(AttributePair { key, value })
        },
        None => None,
    }
}

/// Tokenizes an attribute list `KEY=VALUE,KEY=VALUE,...` into its pairs, in
/// order. Commas inside double quotes do not split; each pair splits at its
/// first `=`. Fails where a quote is left open or a pair has no `=`.
pub fn parse_attribute_pairs(s: &[char]) -> (r: Result<Vec<AttributePair>, Error>)
    ensures
        r is Ok <==> attribute_pairs(s@) is Some,
        r is Ok ==> pairs_view(r->Ok_0@) == attribute_pairs(s@)->0,
        r is Err ==> r->Err_0 == Error::MalformedAttributeList,
{
    let fs = match split_fields(s) {
        Some(fs) => fs,
        None => return Err(Error::MalformedAttributeList),
    };
    let ghost fv = fs@.map_values(|f: Vec<char>| f@);
    let mut out: Vec<AttributePair> = Vec::new();
    for i in 0..fs.len()
        invariant
            fv == fs@.map_values(|f: Vec<char>| f@),
            fields(s@) == Some(fv),
            pairs_of(fv.take(i as int)) == Some(pairs_view(out@)),
    {
        assert(fv.take(i + 1).drop_last() =~= fv.take(i as int));
        match split_pair(fs[i].as_slice()) {
            Some(p) => {
                let ghost before = pairs_view(out@);
                out.push(p);
                assert(pairs_view(out@) =~= before.push(p@));
            },
            None => {
                proof { lemma_pairs_fail(fv, (i + 1) as int); }
                return Err(Error::MalformedAttributeList);
            },
        }
    }
    assert(fv.take(fs.len() as int) =~= fv);
    Ok(out)
}

/// Once a prefix of the fields fails to split, the whole list fails.
proof fn lemma_pairs_fail(fs: Seq<Seq<char>>, k: int)
    requires
        0 <= k <= fs.len(),
        pairs_of(fs.take(k)) is None,
    ensures
        pairs_of(fs) is None,
    decreases fs.len() - k,
{
    if k < fs.len() {
        assert(fs.take(k + 1).drop_last() =~= fs.take(k));
        lemma_pairs_fail(fs, k + 1);
    } else {
        assert(fs.take(k) =~= fs);
    }
}

} // verus!

verus! {

/// Runs `step` over the pairs from the left, starting from `init`; the first
/// error ends the walk.
pub open spec fn fold_pairs<S>(
    pairs: Seq<(Seq<char>, Seq<char>)>,
    init: S,
    step: spec_fn(S, (Seq<char>, Seq<char>)) -> Result<S, ErrorView>,
) -> Result<S, ErrorView>
    decreases pairs.len(),
{
    if pairs.len() == 0 {
        Ok(init)
    } else {
        match fold_pairs(pairs.drop_last(), init, step) {
            Ok(st) => step(st, pairs.last()),
            Err(e) => Err(e),
        }
    }
}

/// One more step of a walk over the pairs.
pub proof fn lemma_fold_step<S>(
    pairs: Seq<(Seq<char>, Seq<char>)>,
    init: S,
    step: spec_fn(S, (Seq<char>, Seq<char>)) -> Result<S, ErrorView>,
    k: int,
)
    requires
        0 <= k < pairs.len(),
    ensures
        fold_pairs(pairs.take(k + 1), init, step) == match fold_pairs(pairs.take(k), init, step) {
            Ok(st) => step(st, pairs[k]),
            Err(e) => Err(e),
        },
{
    assert(pairs.take(k + 1).drop_last() =~= pairs.take(k));
}

/// An error on a prefix of the pairs is the error of the whole walk.
pub proof fn lemma_fold_err<S>(
    pairs: Seq<(Seq<char>, Seq<char>)>,
    init: S,
    step: spec_fn(S, (Seq<char>, Seq<char>)) -> Result<S, ErrorView>,
    k: int,
)
    requires
        0 <= k <= pairs.len(),
        fold_pairs(pairs.take(k), init, step) is Err,
    ensures
        fold_pairs(pairs, init, step) == fold_pairs(pairs.take(k), init, step),
    decreases pairs.len() - k,
{
    if k < pairs.len() {
        lemma_fold_step(pairs, init, step, k);
        lemma_fold_err(pairs, init, step, k + 1);
    } else {
        assert(pairs.take(k) =~= pairs);
    }
}

} // verus!

verus! {

/// Whether line `s` begins with `prefix`.
pub open spec fn has_prefix(s: Seq<char>, prefix: Seq<char>) -> bool {
    s.len() >= prefix.len() && s.take(prefix.len() as int) == prefix
}

/// What follows `prefix` in line `s`; fails where `s` does not begin with it.
pub fn tag_body(s: &[char], prefix: &str) -> (r: Result<Vec<char>, Error>)
    ensures
        r is Ok <==> has_prefix(s@, prefix@),
        r is Ok ==> r->Ok_0@ == s@.skip(prefix@.len() as int),
        r is Err ==> r->Err_0 == Error::InvalidInput,
{
    if crate::text::starts_with(s, prefix) {
        let p = crate::text::chars_of(prefix);
        let n: usize = s.len();
        let r = slice_of(s, p.len(), n);
        assert(r@ =~= s@.skip(prefix@.len() as int));
        Ok(r)
    } else {
        Err(Error::InvalidInput)
    }
}

/// The error for a required attribute that is absent.
pub fn missing(name: &str) -> (e: Error)
    ensures
        e@ == ErrorView::MissingAttribute(name@),
{
    Error::MissingAttribute(name.to_owned())
}

} // verus!

verus! {

/// Text with no quote and no comma.
pub open spec fn plain(t: Seq<char>) -> bool {
    forall|k: int| 0 <= k < t.len() ==> #[trigger] t[k] != '"' && t[k] != ','
}

/// A name that can stand before `=`: plain, and without `=`.
pub open spec fn safe_key(k: Seq<char>) -> bool {
    plain(k) && forall|j: int| 0 <= j < k.len() ==> #[trigger] k[j] != '='
}

/// A value that reads back as written: plain, or a quoted string.
pub open spec fn safe_value(v: Seq<char>) -> bool {
    plain(v) || (v.len() >= 2 && v[0] == '"' && v.last() == '"' && quotable(
        v.subrange(1, v.len() - 1),
    ))
}

pub open spec fn safe_pair(p: (Seq<char>, Seq<char>)) -> bool {
    safe_key(p.0) && safe_value(p.1)
}

/// `KEY=VALUE`.
pub open spec fn field_text(p: (Seq<char>, Seq<char>)) -> Seq<char> {
    p.0 + seq!['='] + p.1
}

/// The pairs written as an attribute list, joined by commas.
pub open spec fn join_pairs(ps: Seq<(Seq<char>, Seq<char>)>) -> Seq<char>
    decreases ps.len(),
{
    if ps.len() <= 1 {
        if ps.len() == 0 {
            Seq::empty()
        } else {
            field_text(ps[0])
        }
    } else {
        join_pairs(ps.drop_last()) + seq![','] + field_text(ps.last())
    }
}

/// Reading from `|p| + i` in `p + s` is reading from `i` in `s`.
proof fn lemma_fields_shift(
    p: Seq<char>,
    s: Seq<char>,
    i: int,
    start: int,
    inq: bool,
    acc: Seq<Seq<char>>,
)
    requires
        0 <= start <= i <= s.len(),
    ensures
        fields_from(p + s, p.len() + i, p.len() + start, inq, acc) == fields_from(s, i, start, inq, acc),
    decreases s.len() - i,
{
    let w = p + s;
    if i < s.len() {
        assert(w[p.len() + i] == s[i]);
        if s[i] == ',' && !inq {
            assert(w.subrange(p.len() + start, p.len() + i) =~= s.subrange(start, i));
            lemma_fields_shift(p, s, i + 1, i + 1, false, acc.push(s.subrange(start, i)));
        } else if s[i] == '"' {
            lemma_fields_shift(p, s, i + 1, start, !inq, acc);
        } else {
            lemma_fields_shift(p, s, i + 1, start, inq, acc);
        }
    } else {
        assert(w.subrange(p.len() + start, w.len() as int) =~= s.subrange(start, s.len() as int));
    }
}

/// Characters that neither open a quote nor split a field leave the walk as it is.
proof fn lemma_fields_skip(
    s: Seq<char>,
    i: int,
    j: int,
    start: int,
    inq: bool,
    acc: Seq<Seq<char>>,
)
    requires
        0 <= i <= j <= s.len(),
        forall|k: int| i <= k < j ==> #[trigger] s[k] != '"' && (inq || s[k] != ','),
    ensures
        fields_from(s, i, start, inq, acc) == fields_from(s, j, start, inq, acc),
    decreases j - i,
{
    if i < j {
        lemma_fields_skip(s, i + 1, j, start, inq, acc);
    }
}

/// A safe field leaves the walk outside quotes, with no field closed.
proof fn lemma_fields_field(
    s: Seq<char>,
    i: int,
    f: (Seq<char>, Seq<char>),
    start: int,
    acc: Seq<Seq<char>>,
)
    requires
        0 <= i,
        i + field_text(f).len() <= s.len(),
        s.subrange(i, i + field_text(f).len()) == field_text(f),
        safe_pair(f),
    ensures
        fields_from(s, i, start, false, acc) == fields_from(s, i + field_text(f).len(), start, false, acc),
{
    let t = field_text(f);
    let kl: int = f.0.len() as int + 1;
    assert forall|k: int| i <= k < i + kl implies #[trigger] s[k] != '"' && (false || s[k] != ',') by {
        assert(s[k] == t[k - i]);
        if k - i < f.0.len() {
            assert(t[k - i] == f.0[k - i]);
        }
    }
    lemma_fields_skip(s, i, i + kl, start, false, acc);
    let v = f.1;
    let e = i + t.len();
    if plain(v) {
        assert forall|k: int| i + kl <= k < e implies #[trigger] s[k] != '"' && (false || s[k] != ',') by {
            assert(s[k] == t[k - i]);
            assert(t[k - i] == v[k - i - kl]);
        }
        lemma_fields_skip(s, i + kl, e, start, false, acc);
    } else {
        assert(s[i + kl] == t[kl]);
        assert(t[kl] == v[0]);
        assert(s[e - 1] == t[t.len() - 1]);
        assert forall|k: int| i + kl + 1 <= k < e - 1 implies #[trigger] s[k] != '"' && (true || s[k] != ',') by {
            assert(s[k] == t[k - i]);
            assert(t[k - i] == v[k - i - kl]);
            assert(v[k - i - kl] == v.subrange(1, v.len() - 1)[k - i - kl - 1]);
        }
        lemma_fields_skip(s, i + kl + 1, e - 1, start, true, acc);
    }
}

/// The front of a joined list: its first field, then the rest.
proof fn lemma_join_front(ps: Seq<(Seq<char>, Seq<char>)>)
    requires
        ps.len() >= 2,
    ensures
        join_pairs(ps) == field_text(ps[0]) + seq![','] + join_pairs(ps.skip(1)),
    decreases ps.len(),
{
    if ps.len() > 2 {
        lemma_join_front(ps.drop_last());
        assert(ps.drop_last().skip(1) =~= ps.skip(1).drop_last());
        assert(ps.skip(1).last() == ps.last());
        assert(join_pairs(ps.skip(1)) == join_pairs(ps.skip(1).drop_last()) + seq![','] + field_text(ps.skip(1).last()));
        assert(ps.drop_last()[0] == ps[0]);
        assert(join_pairs(ps) =~= field_text(ps[0]) + seq![','] + join_pairs(ps.skip(1)));
    } else {
        assert(ps.skip(1).len() == 1);
        assert(ps.drop_last().len() == 1);
        assert(ps.drop_last()[0] == ps[0]);
        assert(ps.skip(1)[0] == ps.last());
        assert(join_pairs(ps.drop_last()) == field_text(ps[0]));
        assert(join_pairs(ps.skip(1)) == field_text(ps.last()));
    }
}

/// The fields of a joined list of safe pairs are the pairs' texts.
proof fn lemma_fields_join(ps: Seq<(Seq<char>, Seq<char>)>, acc: Seq<Seq<char>>)
    requires
        ps.len() >= 1,
        forall|k: int| 0 <= k < ps.len() ==> safe_pair(#[trigger] ps[k]),
    ensures
        fields_from(join_pairs(ps), 0, 0, false, acc) == Some(acc + ps.map_values(|p| field_text(p))),
    decreases ps.len(),
{
    let s = join_pairs(ps);
    let f0 = field_text(ps[0]);
    assert(safe_pair(ps[0]));
    if ps.len() == 1 {
        assert(s == f0);
        assert(s.subrange(0, f0.len() as int) =~= f0);
        lemma_fields_field(s, 0, ps[0], 0, acc);
        assert(s.subrange(0, s.len() as int) =~= f0);
        assert(acc.push(f0) =~= acc + ps.map_values(|p| field_text(p)));
    } else {
        lemma_join_front(ps);
        let rest = ps.skip(1);
        let p = f0 + seq![','];
        assert(s =~= p + join_pairs(rest));
        assert(s.subrange(0, f0.len() as int) =~= f0);
        lemma_fields_field(s, 0, ps[0], 0, acc);
        assert(s[f0.len() as int] == ',');
        assert(s.subrange(0, f0.len() as int) =~= f0);
        lemma_fields_shift(p, join_pairs(rest), 0, 0, false, acc.push(f0));
        assert forall|k: int| 0 <= k < rest.len() implies safe_pair(#[trigger] rest[k]) by {
            assert(rest[k] == ps[k + 1]);
        }
        lemma_fields_join(rest, acc.push(f0));
        assert(acc.push(f0) + rest.map_values(|p| field_text(p)) =~= acc + ps.map_values(|p| field_text(p)));
    }
}

/// A safe field splits back into its name and value.
proof fn lemma_pair_of_field(p: (Seq<char>, Seq<char>))
    requires
        safe_key(p.0),
    ensures
        pair_of(field_text(p)) == Some(p),
{
    let t = field_text(p);
    crate::types::lemma_find_after(p.0, '=', p.1);
    assert(t.take(p.0.len() as int) =~= p.0);
    assert(t.skip(p.0.len() as int + 1) =~= p.1);
}

/// The pairs of the fields of safe pairs are the pairs.
proof fn lemma_pairs_of_fields(ps: Seq<(Seq<char>, Seq<char>)>)
    requires
        forall|k: int| 0 <= k < ps.len() ==> safe_pair(#[trigger] ps[k]),
    ensures
        pairs_of(ps.map_values(|p| field_text(p))) == Some(ps),
    decreases ps.len(),
{
    if ps.len() > 0 {
        let fs = ps.map_values(|p| field_text(p));
        assert(fs.drop_last() =~= ps.drop_last().map_values(|p| field_text(p)));
        assert forall|k: int| 0 <= k < ps.drop_last().len() implies safe_pair(#[trigger] ps.drop_last()[k]) by {
            assert(ps.drop_last()[k] == ps[k]);
        }
        lemma_pairs_of_fields(ps.drop_last());
        assert(safe_pair(ps[ps.len() - 1]));
        lemma_pair_of_field(ps.last());
        assert(ps.drop_last().push(ps.last()) =~= ps);
    }
}

/// A non-empty list of safe pairs, written as an attribute list, reads back
/// as the same pairs.
pub proof fn lemma_attribute_pairs_round_trip(ps: Seq<(Seq<char>, Seq<char>)>)
    requires
        ps.len() >= 1,
        forall|k: int| 0 <= k < ps.len() ==> safe_pair(#[trigger] ps[k]),
    ensures
        attribute_pairs(join_pairs(ps)) == Some(ps),
{
    lemma_fields_join(ps, Seq::empty());
    assert(Seq::<Seq<char>>::empty() + ps.map_values(|p| field_text(p)) =~= ps.map_values(|p| field_text(p)));
    lemma_pairs_of_fields(ps);
    let s = join_pairs(ps);
    assert(safe_pair(ps[0]));
    if ps.len() == 1 {
        assert(s.len() >= 1);
    } else {
        lemma_join_front(ps);
        assert(s.len() >= 1);
    }
}

} // verus!

verus! {

/// Walking a list that gains `,` and a safe field after `body`: where the walk
/// over `body` succeeds, it gains that field.
proof fn lemma_fields_append(
    body: Seq<char>,
    f: (Seq<char>, Seq<char>),
    i: int,
    start: int,
    inq: bool,
    acc: Seq<Seq<char>>,
)
    requires
        0 <= start <= i <= body.len(),
        safe_pair(f),
        fields_from(body, i, start, inq, acc) is Some,
    ensures
        fields_from(body + seq![','] + field_text(f), i, start, inq, acc) == Some(
            fields_from(body, i, start, inq, acc)->0.push(field_text(f)),
        ),
    decreases body.len() - i,
{
    let t = field_text(f);
    let ext = body + seq![','] + t;
    if i < body.len() {
        assert(ext[i] == body[i]);
        if body[i] == '"' {
            lemma_fields_append(body, f, i + 1, start, !inq, acc);
        } else if body[i] == ',' && !inq {
            assert(ext.subrange(start, i) =~= body.subrange(start, i));
            lemma_fields_append(body, f, i + 1, i + 1, false, acc.push(body.subrange(start, i)));
        } else {
            lemma_fields_append(body, f, i + 1, start, inq, acc);
        }
    } else {
        let n = body.len() as int;
        assert(!inq);
        assert(ext[n] == ',');
        assert(ext.subrange(start, n) =~= body.subrange(start, n));
        let acc2 = acc.push(body.subrange(start, n));
        assert(ext.subrange(n + 1, n + 1 + t.len()) =~= t);
        lemma_fields_field(ext, n + 1, f, n + 1, acc2);
        assert(ext.subrange(n + 1, ext.len() as int) =~= t);
    }
}

/// Appending `,KEY=VALUE` of a safe pair to a well-formed, non-empty attribute
/// list appends the pair to what it reads as.
pub proof fn lemma_attribute_pairs_append(body: Seq<char>, f: (Seq<char>, Seq<char>))
    requires
        body.len() > 0,
        safe_pair(f),
        attribute_pairs(body) is Some,
    ensures
        attribute_pairs(body + seq![','] + field_text(f)) == Some(attribute_pairs(body)->0.push(f)),
{
    let fs = fields(body)->0;
    lemma_fields_append(body, f, 0, 0, false, Seq::empty());
    let fs2 = fs.push(field_text(f));
    assert(fs2.drop_last() =~= fs);
    assert(fs2.last() == field_text(f));
    lemma_pair_of_field(f);
}

} // verus!
