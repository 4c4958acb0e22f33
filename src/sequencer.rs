use vstd::prelude::*;

use crate::media_segment::MediaSegment;
use crate::segment_tags::{ExtXByteRange, ExtXKey};
use crate::types::{ByteRange, Error, ErrorView};

verus! {

/// What the sequencer reads of a segment.
pub struct SegmentShape {
    /// The number the caller pinned, if any.
    pub pinned: Option<usize>,
    /// Whether the segment declares key tags of its own.
    pub declares_keys: bool,
    /// The segment's byte range as given.
    pub range: Option<ByteRange>,
    pub discontinuity: bool,
}

pub open spec fn shape_of(s: MediaSegment) -> SegmentShape {
    SegmentShape {
        pinned: if s.explicit_number {
            Some(s.number)
        } else {
            None
        },
        declares_keys: s.keys@.len() > 0,
        range: match s.byte_range {
            Some(b) => Some(b.range),
            None => None,
        },
        discontinuity: s.has_discontinuity,
    }
}

pub open spec fn shapes_of(segs: Seq<MediaSegment>) -> Seq<SegmentShape> {
    segs.map_values(|s: MediaSegment| shape_of(s))
}

/// The state carried from one segment to the next.
pub struct SequenceState {
    /// The number the next segment gets unless it pins its own.
    pub next: nat,
    /// The index of the last segment that declared keys, if any.
    pub key_source: Option<nat>,
    /// The offset just after the previous segment's byte range, where it may
    /// be continued.
    pub end: Option<nat>,
}

/// What the sequencer decides for one segment.
pub struct Resolved {
    pub number: usize,
    /// The segment whose keys apply: this one, the last before it that
    /// declared keys, or none.
    pub key_source: Option<nat>,
    /// The byte range with its offset filled in.
    pub range: Option<ByteRange>,
}

/// The byte range of a segment with its offset filled in from `end`.
pub open spec fn resolve_range(range: Option<ByteRange>, end: Option<nat>) -> Result<
    Option<ByteRange>,
    ErrorView,
> {
    match range {
        None => Ok(None),
        Some(b) => match b.start {
            Some(_) => Ok(Some(b)),
            None => match end {
                None => Err(ErrorView::MissingByteRangeOffset),
                Some(e) => if e > usize::MAX {
                    Err(ErrorView::InvalidNumber)
                } else {
                    Ok(Some(ByteRange { length: b.length, start: Some(e as usize) }))
                },
            },
        },
    }
}

/// The decision for segment `i` of shape `s`, and the state after it.
pub open spec fn resolve_step(st: SequenceState, i: nat, s: SegmentShape) -> Result<
    (Resolved, SequenceState),
    ErrorView,
> {
    let number: nat = match s.pinned {
        Some(p) => p as nat,
        None => st.next,
    };
    let keys = if s.declares_keys {
        Some(i)
    } else {
        st.key_source
    };
    if number > usize::MAX {
        Err(ErrorView::InconsistentSegmentNumbering)
    } else {
        match resolve_range(s.range, st.end) {
            Err(e) => Err(e),
            Ok(r) => {
                let end = if s.discontinuity {
                    None
                } else {
                    match r {
                        Some(b) => Some((b.start->0 + b.length) as nat),
                        None => None,
                    }
                };
                Ok(
                    (
                        Resolved { number: number as usize, key_source: keys, range: r },
                        SequenceState { next: number + 1, key_source: keys, end },
                    ),
                )
            },
        }
    }
}

/// The decisions for all segments, left to right, starting with number
/// `start`, no keys and no byte range to continue; the first error ends it.
pub open spec fn resolve_shapes(shapes: Seq<SegmentShape>, start: nat) -> Result<
    (Seq<Resolved>, SequenceState),
    ErrorView,
>
    decreases shapes.len(),
{
    if shapes.len() == 0 {
        Ok((Seq::empty(), SequenceState { next: start, key_source: None, end: None }))
    } else {
        match resolve_shapes(shapes.drop_last(), start) {
            Err(e) => Err(e),
            Ok((rs, st)) => match resolve_step(st, (shapes.len() - 1) as nat, shapes.last()) {
                Err(e) => Err(e),
                Ok((r, st2)) => Ok((rs.push(r), st2)),
            },
        }
    }
}

pub open spec fn keys_view(v: Seq<ExtXKey>) -> Seq<Option<(crate::segment_tags::EncryptionMethod, Seq<char>)>> {
    v.map_values(|k: ExtXKey| k@)
}

/// `out` is segment `i` of `input` as decision `r` resolves it.
pub open spec fn resolved_as(input: Seq<MediaSegment>, i: int, out: MediaSegment, r: Resolved) -> bool {
    let s = input[i];
    &&& out.number == r.number
    &&& out.explicit_number == s.explicit_number
    &&& match r.key_source {
        Some(j) => keys_view(out.keys@) == keys_view(input[j as int].keys@),
        None => out.keys@.len() == 0,
    }
    &&& out.byte_range == match r.range {
        Some(b) => Some(ExtXByteRange { range: b }),
        None => None,
    }
    &&& out.map == s.map
    &&& out.date_range == s.date_range
    &&& out.has_discontinuity == s.has_discontinuity
    &&& out.program_date_time == s.program_date_time
    &&& out.inf == s.inf
    &&& out.uri == s.uri
}

fn clone_keys(v: &Vec<ExtXKey>) -> (r: Vec<ExtXKey>)
    ensures
        keys_view(r@) == keys_view(v@),
{
    let mut r: Vec<ExtXKey> = Vec::new();
    for i in 0..v.len()
        invariant
            r@.len() == i,
            forall|j: int| 0 <= j < i ==> (#[trigger] r@[j])@ == v@[j]@,
    {
        let k = v[i].clone();
        r.push(k);
    }
    assert(keys_view(r@) =~= keys_view(v@));
    r
}

/// Numbers the segments from `start_sequence`, lets each segment without key
/// tags inherit the keys last declared, and fills in each byte range without
/// offset from the end of the previous segment's range. Fails where a range
/// without offset has no range to continue (none before it, or a
/// discontinuity between), and where a number would pass the largest `usize`.
#[verifier::loop_isolation(false)]
pub fn resolve_segments(segments: Vec<MediaSegment>, start_sequence: usize) -> (r: Result<
    Vec<MediaSegment>,
    Error,
>)
    ensures
        r is Ok <==> resolve_shapes(shapes_of(segments@), start_sequence as nat) is Ok,
        r is Err ==> r->Err_0@ == resolve_shapes(shapes_of(segments@), start_sequence as nat)->Err_0,
        r is Ok ==> {
            let res = resolve_shapes(shapes_of(segments@), start_sequence as nat)->Ok_0.0;
            &&& r->Ok_0@.len() == segments@.len()
            &&& res.len() == segments@.len()
            &&& forall|i: int|
                0 <= i < segments@.len() ==> resolved_as(segments@, i, #[trigger] r->Ok_0@[i], res[i])
        },
{
    let ghost input = segments@;
    let ghost shapes = shapes_of(input);
    let n = segments.len();
    let mut rest = segments;
    let mut out: Vec<MediaSegment> = Vec::new();
    let mut next: usize = start_sequence;
    let mut next_overflow = false;
    let mut pending: Vec<ExtXKey> = Vec::new();
    let mut end: Option<u128> = None;
    let ghost mut key_source: Option<nat> = None;
    for i in 0..n
        invariant
            n == input.len(),
            shapes == shapes_of(input),
            rest@ == input.skip(i as int),
            out@.len() == i,
            resolve_shapes(shapes.take(i as int), start_sequence as nat) is Ok,
            ({
                let (rs, st) = resolve_shapes(shapes.take(i as int), start_sequence as nat)->Ok_0;
                &&& rs.len() == i
                &&& forall|k: int| 0 <= k < i ==> resolved_as(input, k, #[trigger] out@[k], rs[k])
                &&& st.next == if next_overflow { (usize::MAX + 1) as nat } else { next as nat }
                &&& st.key_source == key_source
                &&& st.end == match end { Some(e) => Some(e as nat), None => None::<nat> }
            }),
            end is Some ==> end->0 <= 2 * (usize::MAX as u128),
            match key_source {
                Some(j) => j < i && keys_view(pending@) == keys_view(input[j as int].keys@),
                None => pending@.len() == 0,
            },
    {
        assert(shapes.take(i + 1).drop_last() =~= shapes.take(i as int));
        assert(rest@[0] == input[i as int]);
        let ghost prev = resolve_shapes(shapes.take(i as int), start_sequence as nat)->Ok_0;
        let ghost step = resolve_step(prev.1, i as nat, shapes[i as int]);
        let mut seg = rest.remove(0);
        assert(rest@ =~= input.skip(i + 1));
        assert(seg == input[i as int]);
        assert(shapes[i as int] == shape_of(input[i as int]));
        assert(shapes.take(i + 1).last() == shapes[i as int]);
        assert(resolve_shapes(shapes.take(i + 1), start_sequence as nat) == match step {
            Err(e) => Err(e),
            Ok((r, st2)) => Ok((prev.0.push(r), st2)),
        });
        let number: usize = if seg.explicit_number {
            seg.number
        } else if next_overflow {
            proof { lemma_err_extends(shapes, start_sequence as nat, i + 1); }
            return Err(Error::InconsistentSegmentNumbering);
        } else {
            next
        };
        let resolved_range: Option<ExtXByteRange> = match seg.byte_range {
            None => None,
            Some(b) => match b.range.start {
                Some(_) => Some(b),
                None => match end {
                    None => {
                        proof { lemma_err_extends(shapes, start_sequence as nat, i + 1); }
                        return Err(Error::MissingByteRangeOffset);
                    },
                    Some(e) => if e > usize::MAX as u128 {
                        proof { lemma_err_extends(shapes, start_sequence as nat, i + 1); }
                        return Err(Error::InvalidNumber);
                    } else {
                        Some(ExtXByteRange { range: ByteRange { length: b.range.length, start: Some(e as usize) } })
                    },
                },
            },
        };
        let declares = seg.keys.len() > 0;
        if declares {
            pending = clone_keys(&seg.keys);
            proof { key_source = Some(i as nat); }
        } else {
            seg.keys = clone_keys(&pending);
        }
        end = if seg.has_discontinuity {
            None
        } else {
            match &resolved_range {
                Some(b) => Some(b.range.start.unwrap() as u128 + b.range.length as u128),
                None => None,
            }
        };
        if number == usize::MAX {
            next_overflow = true;
        } else {
            next = number + 1;
            next_overflow = false;
        }
        seg.number = number;
        seg.byte_range = resolved_range;
        out.push(seg);
        assert(step is Ok);
        let ghost rr = step->Ok_0.0;
        let ghost o = out@[i as int];
        if declares {
            assert(keys_view(o.keys@) == keys_view(input[i as int].keys@));
        } else {
            assert(keys_view(o.keys@) == keys_view(pending@));
            assert(rr.key_source == key_source);
            assert(keys_view(o.keys@).len() == o.keys@.len());
            assert(keys_view(pending@).len() == pending@.len());
        }
        assert(match rr.key_source {
            Some(j) => keys_view(o.keys@) == keys_view(input[j as int].keys@),
            None => o.keys@.len() == 0,
        });
        assert(resolved_as(input, i as int, out@[i as int], step->Ok_0.0));
    }
    assert(shapes.take(n as int) =~= shapes);
    Ok(out)
}

/// An error on a prefix of the segments is the error of all of them.
proof fn lemma_err_extends(shapes: Seq<SegmentShape>, start: nat, k: int)
    requires
        0 <= k <= shapes.len(),
        resolve_shapes(shapes.take(k), start) is Err,
    ensures
        resolve_shapes(shapes, start) == resolve_shapes(shapes.take(k), start),
    decreases shapes.len() - k,
{
    if k < shapes.len() {
        assert(shapes.take(k + 1).drop_last() =~= shapes.take(k));
        lemma_err_extends(shapes, start, k + 1);
    } else {
        assert(shapes.take(k) =~= shapes);
    }
}

} // verus!
