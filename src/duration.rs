use vstd::prelude::*;

use crate::attribute::{has_prefix, tag_body};
use crate::segment_tags::ExtInf;
use crate::text::{
    all_digits, chars_of, decimal, decimal_value, find_char, find_from, lemma_find_from, parse_u64,
    slice_of, string_of,
};
use crate::types::{u64_of, Error, ErrorView};

verus! {

broadcast use vstd::string::group_string_axioms;

/// The milliseconds that one to three digits after a decimal point denote.
pub open spec fn fraction_millis(f: Seq<char>) -> Option<nat> {
    if 1 <= f.len() <= 3 && all_digits(f) {
        Some(
            decimal_value(f) * if f.len() == 1 {
                100nat
            } else if f.len() == 2 {
                10nat
            } else {
                1nat
            },
        )
    } else {
        None
    }
}

/// The milliseconds that `SECONDS` or `SECONDS.FRACTION` denotes, where they fit a `u64`.
pub open spec fn duration_millis(v: Seq<char>) -> Option<u64> {
    match find_from(v, '.', 0) {
        None => match u64_of(v) {
            Some(s) => if s * 1000 <= u64::MAX {
                Some((s * 1000) as u64)
            } else {
                None
            },
            None => None,
        },
        Some(k) => match (u64_of(v.take(k)), fraction_millis(v.skip(k + 1))) {
            (Some(s), Some(f)) => if s * 1000 + f <= u64::MAX {
                Some((s * 1000 + f) as u64)
            } else {
                None
            },
            _ => None,
        },
    }
}

/// Reads `#EXTINF:DURATION,TITLE`; an empty title reads as none.
pub open spec fn decode_inf(s: Seq<char>) -> Result<(u64, Option<Seq<char>>), ErrorView> {
    if !has_prefix(s, "#EXTINF:"@) {
        Err(ErrorView::InvalidInput)
    } else {
        let b = s.skip("#EXTINF:"@.len() as int);
        match find_from(b, ',', 0) {
            None => Err(ErrorView::InvalidInput),
            Some(k) => match duration_millis(b.take(k)) {
                None => Err(ErrorView::InvalidNumber),
                Some(ms) => Ok(
                    (
                        ms,
                        if k + 1 == b.len() {
                            None
                        } else {
                            Some(b.skip(k + 1))
                        },
                    ),
                ),
            },
        }
    }
}

fn parse_fraction(f: &[char]) -> (r: Option<u64>)
    ensures
        r is Some <==> fraction_millis(f@) is Some,
        r is Some ==> r->0 == fraction_millis(f@)->0,
{
    if f.len() < 1 || f.len() > 3 {
        return None;
    }
    match parse_u64(f) {
        Some(v) => {
            assert(v < 1000) by {
                lemma_small_value(f@);
            }
            if f.len() == 1 {
                Some(v * 100)
            } else if f.len() == 2 {
                Some(v * 10)
            } else {
                Some(v)
            }
        },
        None => {
            proof {
                if all_digits(f@) {
                    lemma_small_value(f@);
                }
            }
            None
        },
    }
}

/// Three digits or fewer denote less than a thousand.
proof fn lemma_small_value(f: Seq<char>)
    requires
        f.len() <= 3,
        all_digits(f),
    ensures
        decimal_value(f) < 1000,
        f.len() <= 2 ==> decimal_value(f) < 100,
        f.len() <= 1 ==> decimal_value(f) < 10,
    decreases f.len(),
{
    if f.len() > 0 {
        let g = f.drop_last();
        assert forall|i: int| 0 <= i < g.len() implies crate::text::is_digit(#[trigger] g[i]) by {
            assert(g[i] == f[i]);
        }
        lemma_small_value(g);
        assert(crate::text::is_digit(f.last()));
    }
}

fn parse_duration(v: &[char]) -> (r: Option<u64>)
    ensures
        r == duration_millis(v@),
{
    match find_char(v, '.') {
        None => match parse_u64(v) {
            Some(s) => if s <= u64::MAX / 1000 {
                Some(s * 1000)
            } else {
                None
            },
            None => None,
        },
        Some(k) => {
            proof { lemma_find_from(v@, '.', 0); }
            let n: usize = v.len();
            assert(k < n);
            let a = slice_of(v, 0, k);
            let b = slice_of(v, k + 1, n);
            assert(a@ =~= v@.take(k as int));
            assert(b@ =~= v@.skip(k + 1));
            match (parse_u64(a.as_slice()), parse_fraction(b.as_slice())) {
                (Some(s), Some(f)) => if s <= (u64::MAX - f) / 1000 {
                    Some(s * 1000 + f)
                } else {
                    None
                },
                _ => None,
            }
        },
    }
}

impl ExtInf {
    /// Reads the tag from line `s`.
    pub fn parse(s: &str) -> (r: Result<ExtInf, Error>)
        ensures
            r is Ok <==> decode_inf(s@) is Ok,
            r is Ok ==> r->Ok_0.millis == decode_inf(s@)->Ok_0.0,
            r is Ok ==> match r->Ok_0.title {
                Some(t) => decode_inf(s@)->Ok_0.1 == Some(t@),
                None => decode_inf(s@)->Ok_0.1 is None,
            },
            r is Err ==> r->Err_0@ == decode_inf(s@)->Err_0,
    {
        let line = chars_of(s);
        let body = tag_body(line.as_slice(), "#EXTINF:")?;
        let k = match find_char(body.as_slice(), ',') {
            Some(k) => k,
            None => return Err(Error::InvalidInput),
        };
        proof { lemma_find_from(body@, ',', 0); }
        let n: usize = body.len();
        assert(k < n);
        let d = slice_of(body.as_slice(), 0, k);
        assert(d@ =~= body@.take(k as int));
        let millis = match parse_duration(d.as_slice()) {
            Some(ms) => ms,
            None => return Err(Error::InvalidNumber),
        };
        let title = if k + 1 == n {
            None
        } else {
            let t = slice_of(body.as_slice(), k + 1, n);
            assert(t@ =~= body@.skip(k + 1));
            Some(string_of(&t))
        };
        Ok(ExtInf { millis, title })
    }
}

/// A digit below ten is written as one character.
proof fn lemma_one_digit(d: nat)
    requires
        d < 10,
    ensures
        decimal(d).len() == 1,
        all_digits(decimal(d)),
        decimal_value(decimal(d)) == d,
{
    crate::text::lemma_decimal_round_trip(d);
}

/// The digits of a fraction of a second read back as its milliseconds.
proof fn lemma_fraction_round_trip(r: nat)
    requires
        0 < r < 1000,
    ensures
        crate::segment_tags::fraction_text(r).len() >= 1,
        crate::segment_tags::fraction_text(r)[0] == '.',
        forall|i: int| 0 <= i < crate::segment_tags::fraction_text(r).len() ==> #[trigger] crate::segment_tags::fraction_text(r)[i] != ',',
        forall|i: int| 1 <= i < crate::segment_tags::fraction_text(r).len() ==> #[trigger] crate::segment_tags::fraction_text(r)[i] != '.',
        fraction_millis(crate::segment_tags::fraction_text(r).skip(1)) == Some(r),
{
    let a = r / 100;
    let b = (r / 10) % 10;
    let c = r % 10;
    assert(r == a * 100 + b * 10 + c) by (nonlinear_arith)
        requires a == r / 100, b == (r / 10) % 10, c == r % 10, 0 < r < 1000;
    assert(a < 10);
    lemma_one_digit(a);
    lemma_one_digit(b);
    lemma_one_digit(c);
    let f = crate::segment_tags::fraction_text(r);
    let da = decimal(a);
    let db = decimal(b);
    let dc = decimal(c);
    if r % 100 == 0 {
        assert(b == 0 && c == 0) by (nonlinear_arith)
            requires a == r / 100, b == (r / 10) % 10, c == r % 10, r % 100 == 0, 0 < r < 1000;
        assert(f.skip(1) =~= da);
        assert(fraction_millis(da) == Some(a * 100));
    } else if r % 10 == 0 {
        assert(c == 0);
        let t = da + db;
        assert(f.skip(1) =~= t);
        assert(t.drop_last() =~= da);
        assert(t.last() == db[0]);
        assert(decimal_value(db) == decimal_value(db.drop_last()) * 10 + crate::text::digit_value(db.last()));
        assert(db.drop_last() =~= Seq::<char>::empty());
        assert(all_digits(t)) by {
            assert forall|i: int| 0 <= i < t.len() implies crate::text::is_digit(#[trigger] t[i]) by {
                if i == 0 { assert(t[i] == da[0]); } else { assert(t[i] == db[0]); }
            }
        }
        assert(decimal_value(t) == decimal_value(da) * 10 + crate::text::digit_value(db[0]));
        assert(decimal_value(t) == a * 10 + b);
        assert(fraction_millis(t) == Some((a * 10 + b) * 10));
    } else {
        let t = da + db + dc;
        assert(f.skip(1) =~= t);
        assert(t.drop_last() =~= da + db);
        assert((da + db).drop_last() =~= da);
        assert(t.last() == dc[0]);
        assert((da + db).last() == db[0]);
        assert(db.drop_last() =~= Seq::<char>::empty());
        assert(dc.drop_last() =~= Seq::<char>::empty());
        assert(decimal_value(db) == crate::text::digit_value(db.last()));
        assert(decimal_value(dc) == crate::text::digit_value(dc.last()));
        assert(all_digits(t)) by {
            assert forall|i: int| 0 <= i < t.len() implies crate::text::is_digit(#[trigger] t[i]) by {
                if i == 0 { assert(t[i] == da[0]); } else if i == 1 { assert(t[i] == db[0]); } else { assert(t[i] == dc[0]); }
            }
        }
        assert(decimal_value(da + db) == decimal_value(da) * 10 + crate::text::digit_value(db[0]));
        assert(decimal_value(t) == decimal_value(da + db) * 10 + crate::text::digit_value(dc[0]));
        assert(decimal_value(t) == (a * 10 + b) * 10 + c);
        assert(fraction_millis(t) == Some((a * 10 + b) * 10 + c));
    }
}

/// A duration tag reads back from its text as the same duration and title,
/// where the title, if any, is not empty.
pub proof fn lemma_inf_round_trip(inf: ExtInf)
    requires
        inf.title is Some ==> inf.title->0@.len() > 0,
    ensures
        decode_inf(inf.spec_encode()) == Ok::<(u64, Option<Seq<char>>), ErrorView>(
            (
                inf.millis,
                match inf.title {
                    Some(t) => Some(t@),
                    None => None,
                },
            ),
        ),
{
    reveal_strlit("#EXTINF:");
    let prefix = "#EXTINF:"@;
    let e = inf.spec_encode();
    let ms = inf.millis as nat;
    let q = ms / 1000;
    let r = ms % 1000;
    let dq = decimal(q);
    let ft = crate::segment_tags::fraction_text(r);
    let title = match inf.title {
        Some(t) => t@,
        None => Seq::<char>::empty(),
    };
    crate::text::lemma_decimal_round_trip(q);
    assert(e.take(prefix.len() as int) =~= prefix);
    let b = e.skip(prefix.len() as int);
    let a = dq + ft;
    assert(b =~= a + seq![','] + title);
    if r != 0 {
        lemma_fraction_round_trip(r);
    }
    assert forall|i: int| 0 <= i < a.len() implies a[i] != ',' by {
        if i < dq.len() {
            assert(a[i] == dq[i]);
        } else {
            assert(a[i] == ft[i - dq.len()]);
        }
    }
    crate::types::lemma_find_after(a, ',', title);
    assert(b.take(a.len() as int) =~= a);
    assert(b.skip(a.len() as int + 1) =~= title);
    assert(ms == q * 1000 + r);
    if r == 0 {
        assert(a =~= dq);
        assert forall|i: int| 0 <= i < dq.len() implies dq[i] != '.' by {}
        crate::types::lemma_find_none(dq, '.');
        crate::types::lemma_u64_round_trip(q as u64);
    } else {
        assert forall|i: int| 0 <= i < dq.len() implies dq[i] != '.' by {}
        let rest = ft.skip(1);
        assert(a =~= dq + seq!['.'] + rest);
        crate::types::lemma_find_after(dq, '.', rest);
        assert(a.take(dq.len() as int) =~= dq);
        assert(a.skip(dq.len() as int + 1) =~= rest);
        crate::types::lemma_u64_round_trip(q as u64);
    }
}

} // verus!
