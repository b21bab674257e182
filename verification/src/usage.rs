//! The month that a sub2api usage report is summed over, and which of its
//! daily rows fall in that month.
use vstd::prelude::*;
use vstd::utf8::{encode_utf8, is_char_boundary};
use vstd::string::StringSliceAdditionalSpecFns;
use crate::calendar::{
    utc_month, utc_month_label, year_month_of_day, day_of_secs, lemma_utc_month_label_monotone,
    lemma_month_label_utf8,
};
use crate::text::bytes_le;

verus! {

/// The greatest of the dates in the byte order of strings; of equal ones the
/// last (`Iterator::max` over `&str`).
pub open spec fn latest_date(dates: Seq<Seq<char>>) -> Option<Seq<char>>
    decreases dates.len(),
{
    if dates.len() == 0 {
        None
    } else {
        match latest_date(dates.drop_last()) {
            None => Some(dates.last()),
            Some(best) => if bytes_le(encode_utf8(best), encode_utf8(dates.last())) {
                Some(dates.last())
            } else {
                Some(best)
            },
        }
    }
}

/// The first seven bytes of a date, where they end on a character boundary
/// (`str::get(..7)`), else nothing.
pub open spec fn month_prefix(date: Seq<u8>) -> Option<Seq<u8>> {
    if date.len() >= 7 && is_char_boundary(date, 7) {
        Some(date.subrange(0, 7))
    } else {
        None
    }
}

/// The month of the latest date, or the empty string when there is none.
pub open spec fn latest_month(dates: Seq<Seq<char>>) -> Seq<u8> {
    match latest_date(dates) {
        Some(d) => match month_prefix(encode_utf8(d)) {
            Some(p) => p,
            None => seq![],
        },
        None => seq![],
    }
}

/// The month a usage report is summed over: the later, as a string, of the UTC
/// month of `now` and the month of the latest reported date (`std::cmp::max`,
/// which keeps the second of two equal values).
pub open spec fn report_month(dates: Seq<Seq<char>>, now: int) -> Seq<u8> {
    let utc = encode_utf8(utc_month_label(now));
    let latest = latest_month(dates);
    if bytes_le(utc, latest) { latest } else { utc }
}

/// `prefix` begins `s`, byte for byte (`str::starts_with`).
pub open spec fn starts_with_bytes(s: Seq<u8>, prefix: Seq<u8>) -> bool {
    prefix.len() <= s.len() && s.subrange(0, prefix.len() as int) == prefix
}

/// The views of a list of strings.
pub open spec fn string_views(v: Seq<String>) -> Seq<Seq<char>> {
    v.map_values(|s: String| s@)
}

/// Byte order is total.
pub proof fn lemma_bytes_le_total(a: Seq<u8>, b: Seq<u8>)
    ensures
        bytes_le(a, b) || bytes_le(b, a),
    decreases a.len(),
{
    if a.len() > 0 && b.len() > 0 && a[0] == b[0] {
        lemma_bytes_le_total(a.drop_first(), b.drop_first());
    }
}

/// The report month is never earlier than the UTC month of `now`, nor than the
/// month of the latest reported day, and it is one of the two.
pub proof fn lemma_report_month_bounds(dates: Seq<Seq<char>>, now: int)
    ensures
        bytes_le(encode_utf8(utc_month_label(now)), report_month(dates, now)),
        bytes_le(latest_month(dates), report_month(dates, now)),
        report_month(dates, now) == encode_utf8(utc_month_label(now))
            || report_month(dates, now) == latest_month(dates),
{
    let utc = encode_utf8(utc_month_label(now));
    let latest = latest_month(dates);
    lemma_bytes_le_total(utc, latest);
    lemma_bytes_le_refl(utc);
    lemma_bytes_le_refl(latest);
}

/// Byte order is transitive.
pub proof fn lemma_bytes_le_trans(a: Seq<u8>, b: Seq<u8>, c: Seq<u8>)
    requires
        bytes_le(a, b),
        bytes_le(b, c),
    ensures
        bytes_le(a, c),
    decreases a.len(),
{
    if a.len() > 0 && b.len() > 0 && c.len() > 0 && a[0] == b[0] && b[0] == c[0] {
        lemma_bytes_le_trans(a.drop_first(), b.drop_first(), c.drop_first());
    }
}

/// As time goes on, with the same reported days, the report month never goes
/// back (for the years 0 to 9999, where labels order as time does).
pub proof fn lemma_report_month_monotone(dates: Seq<Seq<char>>, now1: int, now2: int)
    requires
        now1 <= now2,
        0 <= year_month_of_day(day_of_secs(now1)).0 <= 9999,
        0 <= year_month_of_day(day_of_secs(now2)).0 <= 9999,
    ensures
        bytes_le(report_month(dates, now1), report_month(dates, now2)),
{
    let u1 = encode_utf8(utc_month_label(now1));
    let u2 = encode_utf8(utc_month_label(now2));
    let latest = latest_month(dates);
    lemma_utc_month_label_monotone(now1, now2);
    lemma_report_month_bounds(dates, now1);
    lemma_report_month_bounds(dates, now2);
    if report_month(dates, now1) == u1 {
        lemma_bytes_le_trans(u1, u2, report_month(dates, now2));
    }
}

/// Byte order is antisymmetric.
pub proof fn lemma_bytes_le_antisym(a: Seq<u8>, b: Seq<u8>)
    requires
        bytes_le(a, b),
        bytes_le(b, a),
    ensures
        a == b,
    decreases a.len(),
{
    if a.len() > 0 && b.len() > 0 {
        lemma_bytes_le_antisym(a.drop_first(), b.drop_first());
        assert(a =~= seq![a[0]] + a.drop_first());
        assert(b =~= seq![b[0]] + b.drop_first());
    }
}

/// The latest date is one of the dates, and no date is greater in byte order,
/// whatever the order of the rows; there is one exactly when there are dates.
pub proof fn lemma_latest_date_is_greatest(dates: Seq<Seq<char>>)
    ensures
        latest_date(dates) is None <==> dates.len() == 0,
        latest_date(dates) matches Some(d) ==> {
            &&& exists|j: int| 0 <= j < dates.len() && dates[j] == d
            &&& forall|i: int| 0 <= i < dates.len()
                ==> #[trigger] bytes_le(encode_utf8(dates[i]), encode_utf8(d))
        },
    decreases dates.len(),
{
    if dates.len() > 0 {
        let front = dates.drop_last();
        lemma_latest_date_is_greatest(front);
        let last = dates.last();
        lemma_bytes_le_refl(encode_utf8(last));
        match latest_date(front) {
            None => {
                assert(dates[dates.len() - 1] == last);
                assert forall|i: int| 0 <= i < dates.len()
                    implies #[trigger] bytes_le(encode_utf8(dates[i]), encode_utf8(last)) by {
                    assert(i == dates.len() - 1);
                }
            },
            Some(best) => {
                let j0 = choose|j: int| 0 <= j < front.len() && front[j] == best;
                if bytes_le(encode_utf8(best), encode_utf8(last)) {
                    assert(dates[dates.len() - 1] == last);
                    assert forall|i: int| 0 <= i < dates.len()
                        implies #[trigger] bytes_le(encode_utf8(dates[i]), encode_utf8(last)) by {
                        if i < dates.len() - 1 {
                            assert(dates[i] == front[i]);
                            assert(bytes_le(encode_utf8(front[i]), encode_utf8(best)));
                            lemma_bytes_le_trans(encode_utf8(dates[i]), encode_utf8(best), encode_utf8(last));
                        }
                    }
                } else {
                    lemma_bytes_le_total(encode_utf8(best), encode_utf8(last));
                    assert(dates[j0] == best);
                    assert forall|i: int| 0 <= i < dates.len()
                        implies #[trigger] bytes_le(encode_utf8(dates[i]), encode_utf8(best)) by {
                        if i < dates.len() - 1 {
                            assert(dates[i] == front[i]);
                            assert(bytes_le(encode_utf8(front[i]), encode_utf8(best)));
                        }
                    }
                }
            },
        }
    }
}

/// The report month is never earlier than the month of a greatest date
/// (one no other date exceeds in byte order), where that date has a month.
pub proof fn lemma_report_month_covers_greatest(dates: Seq<Seq<char>>, now: int, k: int)
    requires
        0 <= k < dates.len(),
        forall|i: int| 0 <= i < dates.len()
            ==> #[trigger] bytes_le(encode_utf8(dates[i]), encode_utf8(dates[k])),
        month_prefix(encode_utf8(dates[k])) is Some,
    ensures
        bytes_le(month_prefix(encode_utf8(dates[k]))->0, report_month(dates, now)),
{
    lemma_latest_date_is_greatest(dates);
    let d = latest_date(dates)->0;
    let j = choose|j: int| 0 <= j < dates.len() && dates[j] == d;
    assert(bytes_le(encode_utf8(dates[k]), encode_utf8(d)));
    assert(bytes_le(encode_utf8(dates[j]), encode_utf8(dates[k])));
    lemma_bytes_le_antisym(encode_utf8(dates[k]), encode_utf8(d));
    lemma_report_month_bounds(dates, now);
}

/// A row falls in a month exactly when the month's bytes begin the date's,
/// every one of them.
pub proof fn lemma_starts_with_bytes(s: Seq<u8>, prefix: Seq<u8>)
    ensures
        starts_with_bytes(s, prefix) <==> (prefix.len() <= s.len()
            && forall|k: int| 0 <= k < prefix.len() ==> s[k] == #[trigger] prefix[k]),
{
    if prefix.len() <= s.len() && forall|k: int| 0 <= k < prefix.len() ==> s[k] == #[trigger] prefix[k] {
        assert(s.subrange(0, prefix.len() as int) =~= prefix);
    }
    if starts_with_bytes(s, prefix) {
        assert forall|k: int| 0 <= k < prefix.len() implies s[k] == #[trigger] prefix[k] by {
            assert(s.subrange(0, prefix.len() as int)[k] == s[k]);
        }
    }
}

/// Byte order is reflexive.
pub proof fn lemma_bytes_le_refl(a: Seq<u8>)
    ensures
        bytes_le(a, a),
    decreases a.len(),
{
    if a.len() > 0 {
        lemma_bytes_le_refl(a.drop_first());
    }
}

/// Byte order of two byte strings.
fn bytes_le_exec(a: &[u8], b: &[u8]) -> (le: bool)
    ensures
        le == bytes_le(a@, b@),
{
    let mut i: usize = 0;
    proof {
        assert(a@.skip(0) =~= a@);
        assert(b@.skip(0) =~= b@);
    }
    while i < a.len() && i < b.len() && a[i] == b[i]
        invariant
            i <= a@.len(),
            i <= b@.len(),
            bytes_le(a@, b@) == bytes_le(a@.skip(i as int), b@.skip(i as int)),
        decreases a@.len() - i,
    {
        proof {
            assert(a@.skip(i as int).drop_first() =~= a@.skip(i + 1));
            assert(b@.skip(i as int).drop_first() =~= b@.skip(i + 1));
        }
        i = i + 1;
    }
    if i == a.len() {
        true
    } else if i == b.len() {
        false
    } else {
        a[i] < b[i]
    }
}

/// The month that a usage report is summed over, from the dates of its daily
/// rows and the time `now_secs`.
pub fn report_month_of(dates: &Vec<String>, now_secs: i64) -> (month: String)
    ensures
        encode_utf8(month@) == report_month(string_views(dates@), now_secs as int),
        bytes_le(encode_utf8(utc_month_label(now_secs as int)), encode_utf8(month@)),
        encode_utf8(month@) == encode_utf8(utc_month_label(now_secs as int))
            || exists|k: int| 0 <= k < dates@.len()
                && month_prefix(encode_utf8((#[trigger] dates@[k])@)) == Some(encode_utf8(month@)),
        forall|k: int| 0 <= k < dates@.len()
            && (forall|i: int| 0 <= i < dates@.len()
                ==> #[trigger] bytes_le(encode_utf8(dates@[i]@), encode_utf8(dates@[k]@)))
            && month_prefix(encode_utf8(dates@[k]@)) is Some
            ==> bytes_le(month_prefix(encode_utf8(dates@[k]@))->0, encode_utf8(month@)),
{
    let ghost views = string_views(dates@);
    let mut best: Option<usize> = None;
    let mut i: usize = 0;
    while i < dates.len()
        invariant
            i <= dates@.len(),
            views == string_views(dates@),
            match best {
                None => latest_date(views.take(i as int)) == None::<Seq<char>> && i == 0,
                Some(k) => k < i && latest_date(views.take(i as int)) == Some(views[k as int]),
            },
        decreases dates@.len() - i,
    {
        proof {
            assert(views.take(i + 1).drop_last() =~= views.take(i as int));
        }
        match best {
            None => {
                best = Some(i);
            },
            Some(k) => {
                if bytes_le_exec(dates[k].as_str().as_bytes(), dates[i].as_str().as_bytes()) {
                    best = Some(i);
                }
            },
        }
        i = i + 1;
    }
    proof {
        assert(views.take(dates@.len() as int) =~= views);
    }
    proof {
        assert(encode_utf8(Seq::<char>::empty()) =~= Seq::<u8>::empty());
    }
    let latest: String = match best {
        None => String::new(),
        Some(k) => {
            let d: &str = dates[k].as_str();
            proof {
                assert(d@ == views[k as int]);
                assert(latest_date(views) == Some(d@));
            }
            proof {
                vstd::utf8::encode_utf8_valid_utf8(d@);
            }
            if d.is_char_boundary(7) {
                let (head, _tail) = d.split_at(7);
                let p = head.to_owned();
                proof {
                    assert(month_prefix(encode_utf8(d@)) == Some(head.spec_bytes()));
                    assert(encode_utf8(p@) == head.spec_bytes());
                }
                p
            } else {
                proof {
                    assert(month_prefix(encode_utf8(d@)) == None::<Seq<u8>>);
                }
                String::new()
            }
        },
    };
    assert(encode_utf8(latest@) == latest_month(views));
    proof {
        lemma_report_month_bounds(views, now_secs as int);
        lemma_latest_date_is_greatest(views);
        let utc_b = encode_utf8(utc_month_label(now_secs as int));
        let ym = year_month_of_day(day_of_secs(now_secs as int));
        lemma_month_label_utf8(ym.0, ym.1);
        assert(utc_b.len() > 0);
        if report_month(views, now_secs as int) != utc_b {
            assert(report_month(views, now_secs as int) == latest_month(views));
            assert(latest_month(views).len() > 0);
            let d = latest_date(views)->0;
            let j = choose|j: int| 0 <= j < views.len() && views[j] == d;
            assert(views[j] == dates@[j]@);
            assert(month_prefix(encode_utf8(dates@[j]@)) == Some(latest_month(views)));
        }
        assert forall|k: int| 0 <= k < dates@.len()
            && (forall|i: int| 0 <= i < dates@.len()
                ==> #[trigger] bytes_le(encode_utf8(dates@[i]@), encode_utf8(dates@[k]@)))
            && month_prefix(encode_utf8(dates@[k]@)) is Some
            implies bytes_le(month_prefix(encode_utf8(dates@[k]@))->0,
                report_month(views, now_secs as int)) by {
            assert forall|i: int| 0 <= i < views.len()
                implies #[trigger] bytes_le(encode_utf8(views[i]), encode_utf8(views[k])) by {
                assert(views[i] == dates@[i]@);
                assert(bytes_le(encode_utf8(dates@[i]@), encode_utf8(dates@[k]@)));
            }
            lemma_report_month_covers_greatest(views, now_secs as int, k);
        }
    }
    let utc = utc_month(now_secs);
    if bytes_le_exec(utc.as_str().as_bytes(), latest.as_str().as_bytes()) {
        latest
    } else {
        utc
    }
}

/// `str::starts_with` on byte strings.
fn starts_with_exec(s: &[u8], prefix: &[u8]) -> (b: bool)
    ensures
        b == starts_with_bytes(s@, prefix@),
{
    if prefix.len() > s.len() {
        return false;
    }
    let mut i: usize = 0;
    while i < prefix.len()
        invariant
            prefix@.len() <= s@.len(),
            i <= prefix@.len(),
            forall|k: int| 0 <= k < i ==> s@[k] == prefix@[k],
        decreases prefix@.len() - i,
    {
        if s[i] != prefix[i] {
            return false;
        }
        i = i + 1;
    }
    assert(s@.subrange(0, prefix@.len() as int) =~= prefix@);
    true
}

/// Which daily rows fall in `month`: those whose date begins with it.
pub fn rows_in_month(dates: &Vec<String>, month: &str) -> (included: Vec<bool>)
    ensures
        included@.len() == dates@.len(),
        forall|i: int| 0 <= i < dates@.len() ==> #[trigger] included@[i]
            == starts_with_bytes(encode_utf8(dates@[i]@), encode_utf8(month@)),
        forall|i: int| 0 <= i < dates@.len() ==> (#[trigger] included@[i] <==> {
            let d = encode_utf8(dates@[i]@);
            let m = encode_utf8(month@);
            m.len() <= d.len() && forall|k: int| 0 <= k < m.len() ==> d[k] == #[trigger] m[k]
        }),
{
    let mut included: Vec<bool> = Vec::new();
    let mut i: usize = 0;
    while i < dates.len()
        invariant
            i <= dates@.len(),
            included@.len() == i,
            forall|k: int| 0 <= k < i ==> #[trigger] included@[k]
                == starts_with_bytes(encode_utf8(dates@[k]@), encode_utf8(month@)),
        decreases dates@.len() - i,
    {
        let b = starts_with_exec(dates[i].as_str().as_bytes(), month.as_bytes());

        included.push(b);
        i = i + 1;
    }
    proof {
        assert forall|i: int| 0 <= i < dates@.len() implies (#[trigger] included@[i] <==> {
            let d = encode_utf8(dates@[i]@);
            let m = encode_utf8(month@);
            m.len() <= d.len() && forall|k: int| 0 <= k < m.len() ==> d[k] == #[trigger] m[k]
        }) by {
            lemma_starts_with_bytes(encode_utf8(dates@[i]@), encode_utf8(month@));
        }
    }
    included
}

} // verus!
