//! Aggregation over the history: totals for a time window, and the
//! per-tag per-day rollup behind the chart view.
//!
//! The rollup groups records by tag and by local calendar day, sums
//! durations per cell, and back-fills every day between the earliest
//! record and today with zero, so that every tag's series runs over
//! one contiguous day axis, most recent day first. Tags come out in
//! ascending name order.

use crate::clock::{local_day_number, today_day_number, DAY_NUMBER_BOUND};
use crate::history::{is_record_listing, History, RecordV};
use vstd::prelude::*;

verus! {

/// A record reduced to what the rollup needs: its local calendar day
/// (days from the common era), duration, and tag.
pub struct DayRecord {
    pub day: i32,
    pub duration: u64,
    pub tag: String,
}

/// The mathematical shape of a dated record.
pub struct DayRecordV {
    pub day: i32,
    pub duration: u64,
    pub tag: Seq<char>,
}

impl View for DayRecord {
    type V = DayRecordV;

    open spec fn view(&self) -> DayRecordV {
        DayRecordV { day: self.day, duration: self.duration, tag: self.tag@ }
    }
}

impl DeepView for DayRecord {
    type V = DayRecordV;

    open spec fn deep_view(&self) -> DayRecordV {
        self.view()
    }
}

/// A nonnegative total clamped into `u64`, the way saturating
/// accumulation leaves it.
pub open spec fn sat64(n: int) -> u64 {
    if n > u64::MAX {
        u64::MAX
    } else if n < 0 {
        0
    } else {
        n as u64
    }
}

/// The sum of the durations of a record listing.
pub open spec fn sum_durations(rs: Seq<RecordV>) -> int
    decreases rs.len(),
{
    if rs.len() == 0 {
        0
    } else {
        sum_durations(rs.drop_last()) + rs.last().duration
    }
}

/// The total duration of the records with this tag on this day.
pub open spec fn cell_total(rs: Seq<DayRecordV>, tag: Seq<char>, day: int) -> int
    decreases rs.len(),
{
    if rs.len() == 0 {
        0
    } else {
        cell_total(rs.drop_last(), tag, day) + (if rs.last().tag == tag && rs.last().day == day {
            rs.last().duration as int
        } else {
            0
        })
    }
}

/// The earliest day among the records; meaningful when there are any.
pub open spec fn min_day(rs: Seq<DayRecordV>) -> int
    decreases rs.len(),
{
    if rs.len() == 0 {
        0
    } else if rs.len() == 1 {
        rs[0].day as int
    } else {
        let m = min_day(rs.drop_last());
        if rs.last().day <= m {
            rs.last().day as int
        } else {
            m
        }
    }
}

/// Strict lexicographic order on tag names, by code point: a proper
/// prefix comes first, otherwise the first differing character
/// decides.
pub open spec fn str_lt(a: Seq<char>, b: Seq<char>) -> bool
    decreases a.len(),
{
    if b.len() == 0 {
        false
    } else if a.len() == 0 {
        true
    } else if (a[0] as u32) < (b[0] as u32) {
        true
    } else if (a[0] as u32) > (b[0] as u32) {
        false
    } else {
        str_lt(a.skip(1), b.skip(1))
    }
}

/// Some record carries this tag.
pub open spec fn has_tag(rs: Seq<DayRecordV>, tag: Seq<char>) -> bool {
    exists|i: int| 0 <= i < rs.len() && (#[trigger] rs[i]).tag == tag
}

/// Some entry of the tag list is this name.
pub open spec fn seq_has(ts: Seq<Seq<char>>, x: Seq<char>) -> bool {
    exists|a: int| 0 <= a < ts.len() && ts[a] == x
}

/// The tag list ascends strictly: sorted, no name twice.
pub open spec fn sorted_distinct(ts: Seq<Seq<char>>) -> bool {
    forall|a: int, b: int| #![trigger ts[a], ts[b]] 0 <= a < b < ts.len() ==> str_lt(ts[a], ts[b])
}

/// `out` is the per-tag per-day rollup of `rs` as of `today`: one
/// entry per tag of `rs`, tags strictly ascending; each entry's series
/// runs day by day from `today` back to the earliest record's day,
/// each cell the (saturated) total for that tag on that day — zero
/// where the tag has no records.
pub open spec fn is_rollup(
    rs: Seq<DayRecordV>,
    today: int,
    out: Seq<(Seq<char>, Seq<(i32, u64)>)>,
) -> bool {
    &&& forall|i: int, j: int|
        #![trigger out[i], out[j]]
        0 <= i < j < out.len() ==> str_lt(out[i].0, out[j].0)
    &&& forall|i: int| 0 <= i < out.len() ==> has_tag(rs, (#[trigger] out[i]).0)
    &&& forall|k: int|
        0 <= k < rs.len() ==> exists|i: int|
            0 <= i < out.len() && (#[trigger] out[i]).0 == (#[trigger] rs[k]).tag
    &&& forall|i: int|
        0 <= i < out.len() ==> {
            let series = (#[trigger] out[i]).1;
            &&& series.len() == today - min_day(rs) + 1
            &&& forall|j: int|
                0 <= j < series.len() ==> (#[trigger] series[j]).0 == today - j && series[j].1
                    == sat64(cell_total(rs, out[i].0, today - j))
        }
}

/// Tag order carries over: what comes before one name comes before
/// everything after it.
pub proof fn lemma_str_lt_trans(a: Seq<char>, b: Seq<char>, c: Seq<char>)
    requires
        str_lt(a, b),
        str_lt(b, c),
    ensures
        str_lt(a, c),
    decreases a.len(),
{
    if a.len() != 0 && b.len() != 0 && c.len() != 0 {
        if (a[0] as u32) == (b[0] as u32) && (b[0] as u32) == (c[0] as u32) {
            lemma_str_lt_trans(a.skip(1), b.skip(1), c.skip(1));
        }
    }
}

/// Two names neither of which comes before the other are one name.
pub proof fn lemma_str_lt_connected(a: Seq<char>, b: Seq<char>)
    requires
        !str_lt(a, b),
        !str_lt(b, a),
    ensures
        a =~= b,
    decreases a.len(),
{
    if a.len() != 0 && b.len() != 0 {
        lemma_str_lt_connected(a.skip(1), b.skip(1));
        vstd::utf8::char_u32_cast(a[0], a[0] as u32);
        vstd::utf8::char_u32_cast(b[0], b[0] as u32);
        assert(a[0] == b[0]);
        assert forall|i: int| 0 <= i < a.len() implies a[i] == b[i] by {
            if i > 0 {
                assert(a[i] == a.skip(1)[i - 1]);
                assert(b[i] == b.skip(1)[i - 1]);
            }
        }
    }
}

fn str_lt_exec(a: &str, b: &str) -> (r: bool)
    ensures
        r == str_lt(a@, b@),
{
    let alen = a.unicode_len();
    let blen = b.unicode_len();
    let mut i: usize = 0;
    proof {
        assert(a@.skip(0) =~= a@);
        assert(b@.skip(0) =~= b@);
    }
    while i < blen
        invariant
            i <= alen,
            i <= blen,
            alen == a@.len(),
            blen == b@.len(),
            str_lt(a@, b@) == str_lt(a@.skip(i as int), b@.skip(i as int)),
        decreases blen - i,
    {
        if i >= alen {
            return true;
        }
        let ca = a.get_char(i);
        let cb = b.get_char(i);
        if (ca as u32) < (cb as u32) {
            return true;
        }
        if (ca as u32) > (cb as u32) {
            return false;
        }
        proof {
            assert(a@.skip(i as int).skip(1) =~= a@.skip(i as int + 1));
            assert(b@.skip(i as int).skip(1) =~= b@.skip(i as int + 1));
        }
        i = i + 1;
    }
    proof {
        assert(!str_lt(a@.skip(i as int), b@.skip(i as int)));
    }
    false
}

/// A cell total is never negative.
pub proof fn lemma_cell_total_nonneg(rs: Seq<DayRecordV>, tag: Seq<char>, day: int)
    ensures
        cell_total(rs, tag, day) >= 0,
    decreases rs.len(),
{
    if rs.len() != 0 {
        lemma_cell_total_nonneg(rs.drop_last(), tag, day);
    }
}

/// A duration sum is never negative.
pub proof fn lemma_sum_durations_nonneg(rs: Seq<RecordV>)
    ensures
        sum_durations(rs) >= 0,
    decreases rs.len(),
{
    if rs.len() != 0 {
        lemma_sum_durations_nonneg(rs.drop_last());
    }
}

/// The earliest day is one of the records' days and no later than any
/// of them.
pub proof fn lemma_min_day_props(rs: Seq<DayRecordV>)
    requires
        rs.len() > 0,
    ensures
        forall|i: int| 0 <= i < rs.len() ==> min_day(rs) <= (#[trigger] rs[i]).day,
        exists|i: int| 0 <= i < rs.len() && (#[trigger] rs[i]).day == min_day(rs),
    decreases rs.len(),
{
    if rs.len() == 1 {
        assert(rs[0].day == min_day(rs));
    } else {
        lemma_min_day_props(rs.drop_last());
        assert forall|i: int| 0 <= i < rs.len() implies min_day(rs) <= (#[trigger] rs[i]).day by {
            if i < rs.len() - 1 {
                assert(rs.drop_last()[i] == rs[i]);
            }
        }
        if rs.last().day <= min_day(rs.drop_last()) {
            assert(rs[rs.len() - 1].day == min_day(rs));
        } else {
            let w = choose|i: int|
                0 <= i < rs.drop_last().len() && (#[trigger] rs.drop_last()[i]).day == min_day(
                    rs.drop_last(),
                );
            assert(rs.drop_last()[w] == rs[w]);
            assert(rs[w].day == min_day(rs));
        }
    }
}

fn lower_bound(tags: &Vec<String>, t: &str) -> (pos: usize)
    ensures
        pos <= tags@.len(),
        forall|a: int| 0 <= a < pos ==> str_lt(#[trigger] tags.deep_view()[a], t@),
        pos < tags@.len() ==> !str_lt(tags.deep_view()[pos as int], t@),
{
    let n = tags.len();
    let mut pos: usize = 0;
    while pos < n
        invariant
            pos <= n,
            n == tags@.len(),
            forall|a: int| 0 <= a < pos ==> str_lt(#[trigger] tags.deep_view()[a], t@),
        decreases n - pos,
    {
        if !str_lt_exec(tags[pos].as_str(), t) {
            return pos;
        }
        pos = pos + 1;
    }
    pos
}

/// Puts the name into the sorted tag list unless it is already there:
/// afterwards the list is still strictly ascending and holds exactly
/// the old names plus this one.
fn insert_tag(tags: &mut Vec<String>, t: &String)
    requires
        sorted_distinct(old(tags).deep_view()),
    ensures
        sorted_distinct(final(tags).deep_view()),
        forall|x: Seq<char>|
            #[trigger] seq_has(final(tags).deep_view(), x) <==> (seq_has(
                old(tags).deep_view(),
                x,
            ) || x == t@),
{
    let ghost olddv = tags.deep_view();
    let pos = lower_bound(tags, t.as_str());
    if pos < tags.len() {
        if tags[pos] == *t {
            proof {
                assert(tags.deep_view()[pos as int] == t@);
                assert(seq_has(tags.deep_view(), t@));
            }
            return;
        }
    }
    tags.insert(pos, t.clone());
    proof {
        let newdv = tags.deep_view();
        assert(newdv.len() == olddv.len() + 1);
        assert forall|i: int| 0 <= i < newdv.len() implies newdv[i] == (if i < pos {
            olddv[i]
        } else if i == pos {
            t@
        } else {
            olddv[i - 1]
        }) by {
            assert(newdv[i] == tags@[i]@);
        }
        // where the new name stands relative to what was already there
        assert forall|i: int| 0 <= i < olddv.len() && i >= pos implies str_lt(t@, olddv[i]) by {
            assert(!str_lt(olddv[pos as int], t@));
            if olddv[pos as int] =~= t@ {
                assert(false);
            }
            if str_lt(t@, olddv[pos as int]) {
            } else {
                lemma_str_lt_connected(olddv[pos as int], t@);
                assert(false);
            }
            if i > pos {
                lemma_str_lt_trans(t@, olddv[pos as int], olddv[i]);
            }
        }
        assert forall|a: int, b: int| 0 <= a < b < newdv.len() implies str_lt(
            #[trigger] newdv[a],
            #[trigger] newdv[b],
        ) by {
            if a < pos && b == pos {
            } else if a == pos && b > pos {
            } else if a < pos && b > pos {
                assert(str_lt(olddv[a], olddv[b - 1]));
            } else if a > pos {
                assert(str_lt(olddv[a - 1], olddv[b - 1]));
            }
        }
        // exactly the old names plus this one
        assert forall|x: Seq<char>|
            #[trigger] seq_has(newdv, x) <==> (seq_has(olddv, x) || x == t@) by {
            if seq_has(newdv, x) {
                let a = choose|a: int| 0 <= a < newdv.len() && newdv[a] == x;
                if a == pos {
                } else if a < pos {
                    assert(olddv[a] == x);
                } else {
                    assert(olddv[a - 1] == x);
                }
            }
            if seq_has(olddv, x) {
                let a = choose|a: int| 0 <= a < olddv.len() && olddv[a] == x;
                if a < pos {
                    assert(newdv[a] == x);
                } else {
                    assert(newdv[a + 1] == x);
                }
            }
            if x == t@ {
                assert(newdv[pos as int] == x);
            }
        }
    }
}

/// The per-tag per-day rollup of the given dated records, as of
/// `today`: exactly [`is_rollup`]. Every record must lie on or before
/// `today`, and no record may lie more days back than an in-memory
/// series can be long.
#[verifier::loop_isolation(false)]
pub fn aggregate_by_day(records: &Vec<DayRecord>, today: i32) -> (out: Vec<
    (String, Vec<(i32, u64)>),
>)
    requires
        forall|i: int| 0 <= i < records@.len() ==> (#[trigger] records@[i]).day <= today,
        forall|i: int|
            0 <= i < records@.len() ==> today - (#[trigger] records@[i]).day < usize::MAX,
    ensures
        is_rollup(records.deep_view(), today as int, out.deep_view()),
{
    let ghost rsdv = records.deep_view();
    let n = records.len();
    proof {
        assert(forall|i: int|
            0 <= i < rsdv.len() ==> (#[trigger] rsdv[i]) == records@[i]@);
    }
    // Pass one: the tags that occur, in ascending order, each once.
    let mut tags: Vec<String> = Vec::new();
    let mut k: usize = 0;
    while k < n
        invariant
            k <= n,
            sorted_distinct(tags.deep_view()),
            forall|a: int|
                0 <= a < tags.deep_view().len() ==> has_tag(
                    rsdv,
                    #[trigger] tags.deep_view()[a],
                ),
            forall|r: int| 0 <= r < k ==> seq_has(tags.deep_view(), (#[trigger] rsdv[r]).tag),
        decreases n - k,
    {
        let ghost oldtags = tags.deep_view();
        insert_tag(&mut tags, &records[k].tag);
        proof {
            let newtags = tags.deep_view();
            assert(rsdv[k as int].tag == records@[k as int].tag@);
            assert(seq_has(newtags, rsdv[k as int].tag));
            assert forall|a: int| 0 <= a < newtags.len() implies has_tag(
                rsdv,
                #[trigger] newtags[a],
            ) by {
                let x = newtags[a];
                assert(seq_has(newtags, x));
                if x == rsdv[k as int].tag {
                    assert(0 <= k < rsdv.len() && rsdv[k as int].tag == x);
                } else {
                    assert(seq_has(oldtags, x));
                    let b = choose|b: int| 0 <= b < oldtags.len() && oldtags[b] == x;
                    assert(has_tag(rsdv, oldtags[b]));
                }
            }
            assert forall|r: int| 0 <= r < k + 1 implies seq_has(
                newtags,
                (#[trigger] rsdv[r]).tag,
            ) by {
                if r < k {
                    assert(seq_has(oldtags, rsdv[r].tag));
                }
            }
        }
        k = k + 1;
    }
    // Pass two: the earliest day on record.
    let mut mind: i32 = today;
    if n > 0 {
        mind = records[0].day;
        proof {
            assert(rsdv.subrange(0, 1) =~= seq![rsdv[0]]);
            assert(rsdv.subrange(0, 1)[0] == rsdv[0]);
        }
        let mut k2: usize = 1;
        while k2 < n
            invariant
                1 <= k2 <= n,
                n > 0,
                mind as int == min_day(rsdv.subrange(0, k2 as int)),
            decreases n - k2,
        {
            proof {
                assert(rsdv.subrange(0, k2 as int + 1).drop_last() =~= rsdv.subrange(
                    0,
                    k2 as int,
                ));
                assert(rsdv.subrange(0, k2 as int + 1).last() == rsdv[k2 as int]);
            }
            let d = records[k2].day;
            if d < mind {
                mind = d;
            }
            k2 = k2 + 1;
        }
        proof {
            assert(rsdv.subrange(0, n as int) =~= rsdv);
        }
    }
    assert(n > 0 ==> mind as int == min_day(rsdv));
    // Pass three: one series per tag, every day from today back to the
    // earliest, each cell the saturated total for that tag and day.
    let mut out: Vec<(String, Vec<(i32, u64)>)> = Vec::new();
    let tcount = tags.len();
    let mut ti: usize = 0;
    while ti < tcount
        invariant
            ti <= tcount,
            tcount == tags.deep_view().len(),
            out.deep_view().len() == ti,
            forall|i: int|
                0 <= i < ti ==> (#[trigger] out.deep_view()[i]).0 == tags.deep_view()[i],
            forall|i: int|
                0 <= i < ti ==> {
                    let series = (#[trigger] out.deep_view()[i]).1;
                    &&& series.len() == today - min_day(rsdv) + 1
                    &&& forall|j: int|
                        0 <= j < series.len() ==> (#[trigger] series[j]).0 == today - j
                            && series[j].1 == sat64(
                            cell_total(rsdv, out.deep_view()[i].0, today - j),
                        )
                },
        decreases tcount - ti,
    {
        let tag = &tags[ti];
        proof {
            assert(has_tag(rsdv, tags.deep_view()[ti as int]));
            assert(n > 0);
            lemma_min_day_props(rsdv);
            let w = choose|i: int| 0 <= i < rsdv.len() && (#[trigger] rsdv[i]).day == min_day(rsdv);
            assert(today - records@[w].day < usize::MAX);
        }
        let diff: i64 = today as i64 - mind as i64;
        let span: usize = (diff + 1) as usize;
        let mut series: Vec<(i32, u64)> = Vec::new();
        let mut j: usize = 0;
        while j < span
            invariant
                j <= span,
                n > 0,
                span == today - min_day(rsdv) + 1,
                series.deep_view().len() == j,
                forall|jj: int|
                    0 <= jj < j ==> (#[trigger] series.deep_view()[jj]).0 == today - jj
                        && series.deep_view()[jj].1 == sat64(cell_total(rsdv, tag@, today - jj)),
            decreases span - j,
        {
            let day_j: i32 = (today as i64 - j as i64) as i32;
            let mut acc: u64 = 0;
            let mut k3: usize = 0;
            proof {
                assert(rsdv.subrange(0, 0) =~= Seq::<DayRecordV>::empty());
            }
            while k3 < n
                invariant
                    k3 <= n,
                    acc == sat64(cell_total(rsdv.subrange(0, k3 as int), tag@, day_j as int)),
                decreases n - k3,
            {
                proof {
                    assert(rsdv.subrange(0, k3 as int + 1).drop_last() =~= rsdv.subrange(
                        0,
                        k3 as int,
                    ));
                    assert(rsdv.subrange(0, k3 as int + 1).last() == rsdv[k3 as int]);
                    lemma_cell_total_nonneg(rsdv.subrange(0, k3 as int), tag@, day_j as int);
                }
                let hit = records[k3].day == day_j && records[k3].tag == *tag;
                if hit {
                    acc = acc.saturating_add(records[k3].duration);
                }
                k3 = k3 + 1;
            }
            proof {
                assert(rsdv.subrange(0, n as int) =~= rsdv);
            }
            let ghost prev_series = series.deep_view();
            series.push((day_j, acc));
            proof {
                assert(series.deep_view() =~= prev_series.push((day_j, acc)));
                assert(day_j as int == today - j);
            }
            j = j + 1;
        }
        let ghost prev_out = out.deep_view();
        out.push((tag.clone(), series));
        proof {
            assert(out.deep_view() =~= prev_out.push((tag@, series.deep_view())));
        }
        ti = ti + 1;
    }
    proof {
        let outdv = out.deep_view();
        assert forall|k2: int| 0 <= k2 < rsdv.len() implies exists|i: int|
            0 <= i < outdv.len() && (#[trigger] outdv[i]).0 == (#[trigger] rsdv[k2]).tag by {
            assert(seq_has(tags.deep_view(), rsdv[k2].tag));
            let a = choose|a: int|
                0 <= a < tags.deep_view().len() && tags.deep_view()[a] == rsdv[k2].tag;
            assert(outdv[a].0 == rsdv[k2].tag);
        }
        assert(is_rollup(rsdv, today as int, outdv));
    }
    out
}

impl History {
    /// The time worked in `[start, end)`: the durations of the
    /// window's records summed, saturating at `u64::MAX`; 0 when the
    /// scan fails and reports no records.
    #[verifier::loop_isolation(false)]
    pub fn total_duration(&self, start: u64, end: u64) -> (r: u64)
        ensures
            exists|rs: Seq<RecordV>|
                {
                    &&& is_record_listing(self.raw(), start, end, rs) || rs.len() == 0
                    &&& r == sat64(sum_durations(rs))
                },
    {
        let records = self.get_records(start, end, false);
        let ghost rs = records.deep_view();
        let n = records.len();
        let mut total: u64 = 0;
        let mut k: usize = 0;
        proof {
            assert(rs.subrange(0, 0) =~= Seq::<RecordV>::empty());
        }
        while k < n
            invariant
                k <= n,
                total == sat64(sum_durations(rs.subrange(0, k as int))),
            decreases n - k,
        {
            proof {
                assert(rs.subrange(0, k as int + 1).drop_last() =~= rs.subrange(0, k as int));
                assert(rs.subrange(0, k as int + 1).last() == rs[k as int]);
                lemma_sum_durations_nonneg(rs.subrange(0, k as int));
            }
            total = total.saturating_add(records[k].duration);
            k = k + 1;
        }
        proof {
            assert(rs.subrange(0, n as int) =~= rs);
            assert({
                &&& is_record_listing(self.raw(), start, end, rs) || rs.len() == 0
                &&& total == sat64(sum_durations(rs))
            });
        }
        total
    }

    /// The window's records rolled up by tag and local calendar day,
    /// as of today. Which day a record falls on — and what counts as
    /// today — is the time zone's affair, so the contract fixes
    /// everything but that assignment: for some dating of the listed
    /// records, each day lying on or before the chosen today, the
    /// result is exactly that dating's rollup, zero-filled day axis
    /// and all.
    #[verifier::loop_isolation(false)]
    pub fn per_tag_per_day(&self, start: u64, end: u64) -> (out: Vec<(String, Vec<(i32, u64)>)>)
        ensures
            exists|rs: Seq<RecordV>, ds: Seq<DayRecordV>, today: int|
                {
                    &&& is_record_listing(self.raw(), start, end, rs) || rs.len() == 0
                    &&& ds.len() == rs.len()
                    &&& forall|i: int|
                        0 <= i < ds.len() ==> (#[trigger] ds[i]).duration == rs[i].duration
                            && ds[i].tag == rs[i].tag
                    &&& is_rollup(ds, today, out.deep_view())
                },
    {
        let records = self.get_records(start, end, false);
        let ghost rs = records.deep_view();
        let n = records.len();
        let mut today = today_day_number();
        let mut dated: Vec<DayRecord> = Vec::new();
        let mut k: usize = 0;
        while k < n
            invariant
                k <= n,
                dated.deep_view().len() == k,
                -DAY_NUMBER_BOUND < today < DAY_NUMBER_BOUND,
                forall|i: int|
                    0 <= i < k ==> {
                        let d = #[trigger] dated.deep_view()[i];
                        &&& d.duration == rs[i].duration
                        &&& d.tag == rs[i].tag
                        &&& d.day <= today
                        &&& -DAY_NUMBER_BOUND < d.day < DAY_NUMBER_BOUND
                    },
            decreases n - k,
        {
            let t = records[k].start_time;
            let ts: i64 = if t > i64::MAX as u64 {
                i64::MAX
            } else {
                t as i64
            };
            let day = local_day_number(ts);
            if day > today {
                today = day;
            }
            let ghost prev = dated.deep_view();
            let rec = DayRecord {
                day,
                duration: records[k].duration,
                tag: records[k].tag.clone(),
            };
            dated.push(rec);
            proof {
                assert(dated.deep_view() =~= prev.push(rec@));
            }
            k = k + 1;
        }
        proof {
            assert forall|i: int| 0 <= i < dated@.len() implies (#[trigger] dated@[i]).day <= today
                && today - dated@[i].day < usize::MAX by {
                assert(dated.deep_view()[i] == dated@[i]@);
            }
        }
        let rolled = aggregate_by_day(&dated, today);
        proof {
            let ds = dated.deep_view();
            assert({
                &&& is_record_listing(self.raw(), start, end, rs) || rs.len() == 0
                &&& ds.len() == rs.len()
                &&& forall|i: int|
                    0 <= i < ds.len() ==> (#[trigger] ds[i]).duration == rs[i].duration
                        && ds[i].tag == rs[i].tag
                &&& is_rollup(ds, today as int, rolled.deep_view())
            });
        }
        rolled
    }
}

} // verus!
