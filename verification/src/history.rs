//! The append-only history of checks, grouped into hourly and daily
//! buckets.

use crate::models::Timestamp;
use crate::summary::{
    ascending, build_hourly_summary, chronological, has_day, has_site, lemma_day_records,
    lemma_days_ascending, lemma_slot_on_iff_observed, observed_on, row_on_day, site_days, slot,
    slot_on, slots_on, summary_of, utc_day, utc_hour, DayChecksView, HourlyRow, HourlySummary,
    HOURS_PER_DAY, SECS_PER_DAY, SECS_PER_HOUR,
};
use crate::text::str_equal;
use vstd::prelude::*;
use vstd::string::*;

verus! {

/// What the history holds of one check, as far as the summaries read it.
pub struct HistoryRow {
    pub project_id: String,
    pub site_key: String,
    pub checked_at: Timestamp,
    pub is_up: bool,
}

/// A bucket: a site and the number of a window of time, counted in windows
/// of one width from the Unix epoch.
pub type BucketKey = (Seq<char>, Seq<char>, int);

impl HistoryRow {
    /// The bucket the check falls into when time is cut into windows of
    /// `width` seconds.
    pub open spec fn bucket(self, width: int) -> BucketKey {
        (self.project_id@, self.site_key@, self.checked_at.secs as int / width)
    }
}

/// The number of checks of `history` in the bucket `k`; with `only_up`,
/// the number of those that were up.
pub open spec fn count_checks(history: Seq<HistoryRow>, width: int, k: BucketKey, only_up: bool)
    -> nat
    decreases history.len(),
{
    if history.len() == 0 {
        0
    } else {
        let row = history.last();
        let one: nat = if row.bucket(width) == k && (only_up ==> row.is_up) {
            1
        } else {
            0
        };
        count_checks(history.drop_last(), width, k, only_up) + one
    }
}

/// Whether `history` holds a check in the bucket `k`.
pub open spec fn seen(history: Seq<HistoryRow>, width: int, k: BucketKey) -> bool {
    exists|i: int| 0 <= i < history.len() && (#[trigger] history[i]).bucket(width) == k
}

/// Whether `history` holds a check in the bucket `first` that comes before
/// every check in the bucket `second`.
pub open spec fn starts_before(
    history: Seq<HistoryRow>,
    width: int,
    first: BucketKey,
    second: BucketKey,
) -> bool {
    exists|i: int|
        0 <= i < history.len() && (#[trigger] history[i]).bucket(width) == first && forall|j: int|
            0 <= j < history.len() && (#[trigger] history[j]).bucket(width) == second ==> i < j
}

/// The checks of one bucket, counted.
pub struct Tally {
    pub project_id: String,
    pub site_key: String,
    pub bucket: i64,
    pub total_checks: u64,
    pub up_checks: u64,
}

impl Tally {
    /// The bucket that was counted.
    pub open spec fn key(self) -> BucketKey {
        (self.project_id@, self.site_key@, self.bucket as int)
    }
}

/// Whether `tallies` count the checks of `history` by bucket: one tally for
/// each bucket with a check and none else, each with the number of checks of
/// its bucket and the number of those that were up, and the tallies in the
/// order in which their buckets first occur in the history.
pub open spec fn tallies_of(tallies: Seq<Tally>, history: Seq<HistoryRow>, width: int) -> bool {
    &&& forall|a: int, b: int|
        0 <= a < b < tallies.len() ==> (#[trigger] tallies[a]).key() != (#[trigger] tallies[b]).key()
    &&& forall|a: int|
        0 <= a < tallies.len() ==> {
            &&& seen(history, width, (#[trigger] tallies[a]).key())
            &&& tallies[a].total_checks == count_checks(history, width, tallies[a].key(), false)
            &&& tallies[a].up_checks == count_checks(history, width, tallies[a].key(), true)
        }
    &&& forall|k: BucketKey|
        seen(history, width, k) ==> exists|a: int|
            0 <= a < tallies.len() && (#[trigger] tallies[a]).key() == k
    &&& forall|a: int, b: int|
        0 <= a < b < tallies.len() ==> starts_before(
            history,
            width,
            (#[trigger] tallies[a]).key(),
            (#[trigger] tallies[b]).key(),
        )
}

/// One check more adds one to the count of its bucket, and to the count of
/// its up checks if it was up; the other counts stay.
pub proof fn lemma_count_step(
    history: Seq<HistoryRow>,
    n: int,
    width: int,
    k: BucketKey,
    only_up: bool,
)
    requires
        0 <= n < history.len(),
    ensures
        count_checks(history.take(n + 1), width, k, only_up) == count_checks(
            history.take(n),
            width,
            k,
            only_up,
        ) + if history[n].bucket(width) == k && (only_up ==> history[n].is_up) {
            1nat
        } else {
            0nat
        },
{
    assert(history.take(n + 1).drop_last() =~= history.take(n));
    assert(history.take(n + 1).last() == history[n]);
}

/// There are no more checks in a bucket than in the history, no more up
/// checks than checks, and a check in a bucket that is seen.
pub proof fn lemma_count_bounds(history: Seq<HistoryRow>, width: int, k: BucketKey)
    ensures
        count_checks(history, width, k, true) <= count_checks(history, width, k, false)
            <= history.len(),
        seen(history, width, k) <==> count_checks(history, width, k, false) > 0,
    decreases history.len(),
{
    if history.len() > 0 {
        let head = history.drop_last();
        let n = history.len() - 1;
        lemma_count_bounds(head, width, k);
        if seen(history, width, k) {
            let i = choose|i: int|
                0 <= i < history.len() && (#[trigger] history[i]).bucket(width) == k;
            if i < n {
                assert(head[i] == history[i]);
            }
        }
        if seen(head, width, k) {
            let i = choose|i: int| 0 <= i < head.len() && (#[trigger] head[i]).bucket(width) == k;
            assert(history[i] == head[i]);
        }
        if history.last().bucket(width) == k {
            assert(history[n].bucket(width) == k);
        }
    }
}

/// The number of the window of `width` seconds that holds the instant
/// `secs`.
pub fn window_of(secs: i64, width: i64) -> (w: i64)
    requires
        width > 0,
    ensures
        w == secs as int / width as int,
{
    proof {
        assert(i64::MIN <= secs as int / width as int <= i64::MAX) by (nonlinear_arith)
            requires
                width > 0,
                i64::MIN <= secs <= i64::MAX,
        ;
    }
    match secs.checked_div_euclid(width) {
        Some(w) => w,
        None => unreached(),
    }
}

/// Where the tally of the bucket `(project, site, bucket)` stands, if there
/// is one. The search starts at the end, where the bucket of a history in
/// time order is found at once.
fn find_tally(tallies: &Vec<Tally>, project: &str, site: &str, bucket: i64) -> (at: Option<usize>)
    ensures
        match at {
            Some(a) => a < tallies@.len() && tallies@[a as int].key() == (
                project@,
                site@,
                bucket as int,
            ),
            None => forall|a: int|
                0 <= a < tallies@.len() ==> (#[trigger] tallies@[a]).key() != (
                    project@,
                    site@,
                    bucket as int,
                ),
        },
{
    let mut a: usize = tallies.len();
    while a > 0
        invariant
            a <= tallies@.len(),
            forall|b: int|
                a <= b < tallies@.len() ==> (#[trigger] tallies@[b]).key() != (
                    project@,
                    site@,
                    bucket as int,
                ),
        decreases a,
    {
        a -= 1;
        let t = &tallies[a];
        if t.bucket == bucket && str_equal(t.site_key.as_str(), site) && str_equal(
            t.project_id.as_str(),
            project,
        ) {
            return Some(a);
        }
    }
    None
}

/// A bucket is seen once the history holds one check more exactly if it was
/// seen before or the new check falls into it.
pub proof fn lemma_seen_step(history: Seq<HistoryRow>, n: int, width: int, k: BucketKey)
    requires
        0 <= n < history.len(),
    ensures
        seen(history.take(n + 1), width, k) == (seen(history.take(n), width, k)
            || history[n].bucket(width) == k),
{
    let longer = history.take(n + 1);
    let shorter = history.take(n);
    if seen(longer, width, k) {
        let i = choose|i: int| 0 <= i < longer.len() && (#[trigger] longer[i]).bucket(width) == k;
        if i < n {
            assert(shorter[i] == longer[i]);
        }
    }
    if seen(shorter, width, k) {
        let i = choose|i: int| 0 <= i < shorter.len() && (#[trigger] shorter[i]).bucket(width) == k;
        assert(longer[i] == shorter[i]);
    }
    if history[n].bucket(width) == k {
        assert(longer[n] == history[n]);
    }
}

/// A bucket that starts before another still does so when the history holds
/// one check more; and a bucket that was seen starts before one that the
/// new check is the first to fall into.
pub proof fn lemma_starts_before_step(
    history: Seq<HistoryRow>,
    n: int,
    width: int,
    first: BucketKey,
    second: BucketKey,
)
    requires
        0 <= n < history.len(),
        starts_before(history.take(n), width, first, second) || (seen(
            history.take(n),
            width,
            first,
        ) && !seen(history.take(n), width, second)),
    ensures
        starts_before(history.take(n + 1), width, first, second),
{
    let longer = history.take(n + 1);
    let shorter = history.take(n);
    if starts_before(shorter, width, first, second) {
        let i = choose|i: int|
            0 <= i < shorter.len() && (#[trigger] shorter[i]).bucket(width) == first && forall|
                j: int,
            |
                0 <= j < shorter.len() && (#[trigger] shorter[j]).bucket(width) == second ==> i < j;
        assert(longer[i] == shorter[i]);
        assert forall|j: int|
            0 <= j < longer.len() && (#[trigger] longer[j]).bucket(width) == second implies i
            < j by {
            if j < n {
                assert(shorter[j] == longer[j]);
            }
        }
    } else {
        let i = choose|i: int|
            0 <= i < shorter.len() && (#[trigger] shorter[i]).bucket(width) == first;
        assert(longer[i] == shorter[i]);
        assert forall|j: int|
            0 <= j < longer.len() && (#[trigger] longer[j]).bucket(width) == second implies i
            < j by {
            if j < n {
                assert(shorter[j] == longer[j]);
                assert(seen(shorter, width, second));
            }
        }
    }
}

/// Counts the checks of `history` by site and by window of `width` seconds,
/// in one forward pass.
pub fn tally_by(history: &[HistoryRow], width: i64) -> (out: Vec<Tally>)
    requires
        width > 0,
    ensures
        tallies_of(out@, history@, width as int),
{
    let mut out: Vec<Tally> = Vec::new();
    let mut n: usize = 0;
    while n < history.len()
        invariant
            width > 0,
            n <= history@.len(),
            tallies_of(out@, history@.take(n as int), width as int),
        decreases history@.len() - n,
    {
        let row = &history[n];
        let bucket = window_of(row.checked_at.secs, width);
        let ghost before = out@;
        let ghost shorter = history@.take(n as int);
        let ghost longer = history@.take(n as int + 1);
        let ghost w = width as int;
        let ghost k = row.bucket(w);
        match find_tally(&out, row.project_id.as_str(), row.site_key.as_str(), bucket) {
            Some(a) => {
                proof {
                    lemma_count_bounds(shorter, w, k);
                }
                let total = out[a].total_checks + 1;
                let up = if row.is_up {
                    out[a].up_checks + 1
                } else {
                    out[a].up_checks
                };
                out[a].total_checks = total;
                out[a].up_checks = up;
                assert(forall|b: int|
                    0 <= b < out@.len() ==> (#[trigger] out@[b]).key() == before[b].key());
                assert(forall|b: int|
                    0 <= b < out@.len() && b != a ==> (#[trigger] out@[b]).total_checks
                        == before[b].total_checks && out@[b].up_checks == before[b].up_checks);
            },
            None => {
                out.push(
                    Tally {
                        project_id: row.project_id.clone(),
                        site_key: row.site_key.clone(),
                        bucket,
                        total_checks: 1,
                        up_checks: if row.is_up {
                            1
                        } else {
                            0
                        },
                    },
                );
                proof {
                    assert(forall|b: int|
                        0 <= b < before.len() ==> (#[trigger] out@[b]) == before[b]);
                    assert(!seen(shorter, w, k)) by {
                        if seen(shorter, w, k) {
                            let b = choose|b: int|
                                0 <= b < before.len() && (#[trigger] before[b]).key() == k;
                            assert(false);
                        }
                    }
                    lemma_count_bounds(shorter, w, k);
                }
            },
        }
        proof {
            assert forall|b: int| 0 <= b < out@.len() implies {
                &&& seen(longer, w, (#[trigger] out@[b]).key())
                &&& out@[b].total_checks == count_checks(longer, w, out@[b].key(), false)
                &&& out@[b].up_checks == count_checks(longer, w, out@[b].key(), true)
            } by {
                let kb = out@[b].key();
                lemma_seen_step(history@, n as int, w, kb);
                lemma_count_step(history@, n as int, w, kb, false);
                lemma_count_step(history@, n as int, w, kb, true);
                if b < before.len() {
                    assert(before[b].key() == kb);
                    if kb == k && before.len() == out@.len() {
                        let a = choose|a: int|
                            0 <= a < before.len() && (#[trigger] before[a]).key() == k
                                && out@[a].total_checks == before[a].total_checks + 1;
                        if a < b {
                            assert(before[a].key() != before[b].key());
                        } else if b < a {
                            assert(before[b].key() != before[a].key());
                        }
                    }
                }
            }
            assert forall|kk: BucketKey| seen(longer, w, kk) implies exists|b: int|
                0 <= b < out@.len() && (#[trigger] out@[b]).key() == kk by {
                lemma_seen_step(history@, n as int, w, kk);
                if kk == k {
                    if before.len() == out@.len() {
                        let a = choose|a: int|
                            0 <= a < before.len() && (#[trigger] before[a]).key() == k;
                        assert(out@[a].key() == kk);
                    } else {
                        assert(out@[out@.len() - 1].key() == kk);
                    }
                } else {
                    let b = choose|b: int|
                        0 <= b < before.len() && (#[trigger] before[b]).key() == kk;
                    assert(out@[b].key() == kk);
                }
            }
            assert forall|a: int, b: int| 0 <= a < b < out@.len() implies starts_before(
                longer,
                w,
                (#[trigger] out@[a]).key(),
                (#[trigger] out@[b]).key(),
            ) by {
                assert(before[a].key() == out@[a].key());
                if b < before.len() {
                    assert(before[b].key() == out@[b].key());
                    assert(starts_before(shorter, w, before[a].key(), before[b].key()));
                } else {
                    assert(seen(shorter, w, before[a].key()));
                }
                lemma_starts_before_step(history@, n as int, w, out@[a].key(), out@[b].key());
            }
        }
        n += 1;
    }
    assert(history@.take(n as int) =~= history@);
    out
}

/// The checks of one site on one UTC day, counted.
#[derive(Debug)]
pub struct DailySummary {
    pub project_id: String,
    pub site_key: String,
    /// The day, counted in days from the Unix epoch.
    pub day: i64,
    pub total_checks: u64,
    pub up_checks: u64,
}

/// The share of `up` in `total` in thousandths of a percent, rounded down;
/// nothing of nothing is no uptime.
pub open spec fn uptime_milli_pct(up: nat, total: nat) -> nat {
    if total == 0 {
        0
    } else {
        (100_000 * up) / total
    }
}

impl DailySummary {
    /// The bucket that was counted.
    pub open spec fn key(self) -> BucketKey {
        (self.project_id@, self.site_key@, self.day as int)
    }

    /// The uptime of the day in thousandths of a percent: 100 000 times the
    /// up checks over all checks, rounded down, and 0 for a day without
    /// checks.
    pub fn uptime_milli_pct(&self) -> (pct: u64)
        requires
            self.up_checks <= self.total_checks,
        ensures
            pct == uptime_milli_pct(self.up_checks as nat, self.total_checks as nat),
            pct <= 100_000,
    {
        if self.total_checks == 0 {
            return 0;
        }
        let scaled: u128 = 100_000u128 * (self.up_checks as u128);
        let pct: u128 = scaled / (self.total_checks as u128);
        assert(pct <= 100_000) by (nonlinear_arith)
            requires
                pct == scaled / (self.total_checks as u128),
                scaled == 100_000 * (self.up_checks as u128),
                self.up_checks <= self.total_checks,
                self.total_checks > 0,
        ;
        pct as u64
    }
}

/// A day without checks has no uptime, and so has a day on which no check
/// was up; the uptime is at most one hundred percent, which a day with
/// checks reaches exactly when every check was up.
pub proof fn lemma_uptime_range(up: nat, total: nat)
    requires
        up <= total,
    ensures
        total == 0 ==> uptime_milli_pct(up, total) == 0,
        uptime_milli_pct(up, total) <= 100_000,
        total > 0 ==> (uptime_milli_pct(up, total) == 100_000 <==> up == total),
        up == 0 ==> uptime_milli_pct(up, total) == 0,
{
    if total > 0 {
        assert((100_000 * up) / total <= 100_000) by (nonlinear_arith)
            requires
                up <= total,
                total > 0,
        ;
        assert(((100_000 * up) / total == 100_000) <==> up == total) by (nonlinear_arith)
            requires
                up <= total,
                total > 0,
        ;
        assert(up == 0 ==> (100_000 * up) / total == 0) by (nonlinear_arith)
            requires
                total > 0,
        ;
    }
}

/// Whether `days` sum up `history` by site and UTC day: one summary for
/// each site and day with a check and none else, each with the number of
/// checks and of up checks of that day, in the order in which the days
/// first occur in the history.
pub open spec fn dailies_of(days: Seq<DailySummary>, history: Seq<HistoryRow>) -> bool {
    &&& forall|a: int, b: int|
        0 <= a < b < days.len() ==> (#[trigger] days[a]).key() != (#[trigger] days[b]).key()
    &&& forall|a: int|
        0 <= a < days.len() ==> {
            &&& seen(history, SECS_PER_DAY as int, (#[trigger] days[a]).key())
            &&& days[a].total_checks == count_checks(
                history,
                SECS_PER_DAY as int,
                days[a].key(),
                false,
            )
            &&& days[a].up_checks == count_checks(history, SECS_PER_DAY as int, days[a].key(), true)
        }
    &&& forall|k: BucketKey|
        seen(history, SECS_PER_DAY as int, k) ==> exists|a: int|
            0 <= a < days.len() && (#[trigger] days[a]).key() == k
    &&& forall|a: int, b: int|
        0 <= a < b < days.len() ==> starts_before(
            history,
            SECS_PER_DAY as int,
            (#[trigger] days[a]).key(),
            (#[trigger] days[b]).key(),
        )
}

/// Sums up the history by site and UTC day.
pub fn daily_summary(history: &[HistoryRow]) -> (out: Vec<DailySummary>)
    ensures
        dailies_of(out@, history@),
        forall|a: int|
            0 <= a < out@.len() ==> 0 < (#[trigger] out@[a]).total_checks && out@[a].up_checks
                <= out@[a].total_checks,
{
    let tallies = tally_by(history, SECS_PER_DAY);
    let mut out: Vec<DailySummary> = Vec::new();
    let mut a: usize = 0;
    while a < tallies.len()
        invariant
            a <= tallies@.len(),
            out@.len() == a,
            forall|b: int|
                0 <= b < a ==> (#[trigger] out@[b]).key() == tallies@[b].key()
                    && out@[b].total_checks == tallies@[b].total_checks && out@[b].up_checks
                    == tallies@[b].up_checks,
        decreases tallies@.len() - a,
    {
        let t = &tallies[a];
        out.push(
            DailySummary {
                project_id: t.project_id.clone(),
                site_key: t.site_key.clone(),
                day: t.bucket,
                total_checks: t.total_checks,
                up_checks: t.up_checks,
            },
        );
        a += 1;
    }
    proof {
        let w = SECS_PER_DAY as int;
        assert forall|x: int, y: int| 0 <= x < y < out@.len() implies (#[trigger] out@[x]).key() != (
        #[trigger] out@[y]).key() && starts_before(history@, w, out@[x].key(), out@[y].key()) by {
            assert(tallies@[x].key() != tallies@[y].key());
            assert(starts_before(history@, w, tallies@[x].key(), tallies@[y].key()));
        }
        assert forall|x: int| 0 <= x < out@.len() implies {
            &&& seen(history@, w, (#[trigger] out@[x]).key())
            &&& out@[x].total_checks == count_checks(history@, w, out@[x].key(), false)
            &&& out@[x].up_checks == count_checks(history@, w, out@[x].key(), true)
            &&& 0 < out@[x].total_checks
            &&& out@[x].up_checks <= out@[x].total_checks
        } by {
            assert(seen(history@, w, tallies@[x].key()));
            lemma_count_bounds(history@, w, out@[x].key());
        }
        assert forall|k: BucketKey| seen(history@, w, k) implies exists|x: int|
            0 <= x < out@.len() && (#[trigger] out@[x]).key() == k by {
            let x = choose|x: int| 0 <= x < tallies@.len() && (#[trigger] tallies@[x]).key() == k;
            assert(out@[x].key() == k);
        }
    }
    out
}

/// The first instant of the hour number `hour` that a timestamp can hold:
/// the start of the hour, but for the one hour that begins before the
/// earliest timestamp.
pub open spec fn hour_start(hour: int) -> int {
    if hour * 3_600 < i64::MIN {
        i64::MIN as int
    } else {
        hour * 3_600
    }
}

/// The hour, as a bucket of the history, that an hourly row stands for.
pub open spec fn hour_key(row: HourlyRow) -> BucketKey {
    (row.project_id@, row.site_key@, row.hour.secs as int / SECS_PER_HOUR as int)
}

/// Whether every check of `history` in the bucket `k` was up.
pub open spec fn all_up_in(history: Seq<HistoryRow>, width: int, k: BucketKey) -> bool {
    forall|i: int|
        0 <= i < history.len() && (#[trigger] history[i]).bucket(width) == k ==> history[i].is_up
}

/// Every check of a bucket was up exactly if the bucket holds as many up
/// checks as checks.
pub proof fn lemma_all_up_iff_counts_agree(history: Seq<HistoryRow>, width: int, k: BucketKey)
    ensures
        all_up_in(history, width, k) <==> count_checks(history, width, k, true) == count_checks(
            history,
            width,
            k,
            false,
        ),
    decreases history.len(),
{
    if history.len() > 0 {
        let head = history.drop_last();
        let n = history.len() - 1;
        lemma_all_up_iff_counts_agree(head, width, k);
        lemma_count_bounds(head, width, k);
        if all_up_in(history, width, k) {
            assert forall|i: int|
                0 <= i < head.len() && (#[trigger] head[i]).bucket(width) == k implies head[i].is_up by {
                assert(head[i] == history[i]);
            }
            assert(history[n].bucket(width) == k ==> history[n].is_up);
        }
        if count_checks(history, width, k, true) == count_checks(history, width, k, false) {
            assert(all_up_in(head, width, k));
            assert forall|i: int|
                0 <= i < history.len() && (#[trigger] history[i]).bucket(width)
                    == k implies history[i].is_up by {
                if i < n {
                    assert(head[i] == history[i]);
                }
            }
        }
    }
}

/// Whether `rows` are the hours of `history`: one row for each site and UTC
/// hour with a check and none else, in the order in which the hours first
/// occur in the history; each row stands at the first instant of its hour
/// and says whether every check of that hour was up.
pub open spec fn hourlies_of(rows: Seq<HourlyRow>, history: Seq<HistoryRow>) -> bool {
    &&& forall|a: int, b: int|
        0 <= a < b < rows.len() ==> hour_key(#[trigger] rows[a]) != hour_key(#[trigger] rows[b])
    &&& forall|a: int|
        0 <= a < rows.len() ==> {
            &&& seen(history, SECS_PER_HOUR as int, hour_key(#[trigger] rows[a]))
            &&& rows[a].hour.secs == hour_start(hour_key(rows[a]).2)
            &&& rows[a].hour.nanos == 0
            &&& rows[a].all_up == all_up_in(history, SECS_PER_HOUR as int, hour_key(rows[a]))
        }
    &&& forall|k: BucketKey|
        seen(history, SECS_PER_HOUR as int, k) ==> exists|a: int|
            0 <= a < rows.len() && hour_key(#[trigger] rows[a]) == k
    &&& forall|a: int, b: int|
        0 <= a < b < rows.len() ==> starts_before(
            history,
            SECS_PER_HOUR as int,
            hour_key(#[trigger] rows[a]),
            hour_key(#[trigger] rows[b]),
        )
}

/// Groups the history by site and UTC hour.
pub fn hourly_rows(history: &[HistoryRow]) -> (out: Vec<HourlyRow>)
    ensures
        hourlies_of(out@, history@),
{
    let tallies = tally_by(history, SECS_PER_HOUR);
    let mut out: Vec<HourlyRow> = Vec::new();
    let mut a: usize = 0;
    while a < tallies.len()
        invariant
            a <= tallies@.len(),
            out@.len() == a,
            tallies_of(tallies@, history@, SECS_PER_HOUR as int),
            forall|b: int|
                0 <= b < a ==> hour_key(#[trigger] out@[b]) == tallies@[b].key()
                    && out@[b].hour.secs == hour_start(tallies@[b].bucket as int)
                    && out@[b].hour.nanos == 0 && out@[b].all_up == (tallies@[b].up_checks
                    == tallies@[b].total_checks),
        decreases tallies@.len() - a,
    {
        let t = &tallies[a];
        proof {
            let k = t.key();
            assert(seen(history@, SECS_PER_HOUR as int, k));
            let i = choose|i: int|
                0 <= i < history@.len() && (#[trigger] history@[i]).bucket(SECS_PER_HOUR as int)
                    == k;
            let secs = history@[i].checked_at.secs as int;
            assert(t.bucket == secs / 3600);
            assert((secs / 3600) * 3600 <= secs);
            assert(secs - 3600 < (secs / 3600) * 3600);
        }
        let wide: i128 = (t.bucket as i128) * (SECS_PER_HOUR as i128);
        let start: i64 = if wide < i64::MIN as i128 {
            i64::MIN
        } else {
            wide as i64
        };
        assert(start == hour_start(t.bucket as int));
        assert(start as int / 3600 == t.bucket);
        out.push(
            HourlyRow {
                project_id: t.project_id.clone(),
                site_key: t.site_key.clone(),
                hour: Timestamp { secs: start, nanos: 0 },
                all_up: t.up_checks == t.total_checks,
            },
        );
        a += 1;
    }
    proof {
        let w = SECS_PER_HOUR as int;
        assert forall|x: int, y: int| 0 <= x < y < out@.len() implies hour_key(#[trigger] out@[x])
            != hour_key(#[trigger] out@[y]) && starts_before(
            history@,
            w,
            hour_key(out@[x]),
            hour_key(out@[y]),
        ) by {
            assert(tallies@[x].key() != tallies@[y].key());
            assert(starts_before(history@, w, tallies@[x].key(), tallies@[y].key()));
        }
        assert forall|x: int| 0 <= x < out@.len() implies {
            &&& seen(history@, w, hour_key(#[trigger] out@[x]))
            &&& out@[x].hour.secs == hour_start(hour_key(out@[x]).2)
            &&& out@[x].hour.nanos == 0
            &&& out@[x].all_up == all_up_in(history@, w, hour_key(out@[x]))
        } by {
            assert(seen(history@, w, tallies@[x].key()));
            lemma_all_up_iff_counts_agree(history@, w, hour_key(out@[x]));
        }
        assert forall|k: BucketKey| seen(history@, w, k) implies exists|x: int|
            0 <= x < out@.len() && hour_key(#[trigger] out@[x]) == k by {
            let x = choose|x: int| 0 <= x < tallies@.len() && (#[trigger] tallies@[x]).key() == k;
            assert(hour_key(out@[x]) == k);
        }
    }
    out
}

/// Whether the checks of each site stand in `history` in the order of
/// their times.
pub open spec fn in_time_order(history: Seq<HistoryRow>) -> bool {
    forall|i: int, j: int|
        0 <= i < j < history.len() && (#[trigger] history[i]).project_id@ == (
        #[trigger] history[j]).project_id@ && history[i].site_key@ == history[j].site_key@
            ==> history[i].checked_at.secs <= history[j].checked_at.secs
}

/// What the history says of one hour of a site, the hour counted in hours
/// from the Unix epoch: no data where no check fell into the hour, up where
/// every check of the hour was up, and down where one failed.
pub open spec fn hour_state(
    history: Seq<HistoryRow>,
    project: Seq<char>,
    site: Seq<char>,
    hour: int,
) -> Option<i32> {
    let k = (project, site, hour);
    if !seen(history, SECS_PER_HOUR as int, k) {
        None
    } else {
        slot(all_up_in(history, SECS_PER_HOUR as int, k))
    }
}

/// The number of an hour is the number of its day times 24 and its hour of
/// the day, and the number of a day is that of any of its hours over 24.
pub proof fn lemma_hour_number(secs: int)
    ensures
        secs / 3_600 == utc_day(secs) * 24 + utc_hour(secs),
        0 <= utc_hour(secs) < 24,
        utc_day(secs) == (secs / 3_600) / 24,
        secs / 86_400 == (secs / 3_600) / 24,
{
    let q = secs / 86_400;
    let r = secs % 86_400;
    let h = r / 3_600;
    let r2 = r % 3_600;
    assert(secs == 86_400 * q + r);
    assert(r == 3_600 * h + r2);
    assert(secs == 3_600 * (24 * q + h) + r2);
    assert(secs / 3_600 == 24 * q + h) by (nonlinear_arith)
        requires
            secs == 3_600 * (24 * q + h) + r2,
            0 <= r2 < 3_600,
    ;
    assert((24 * q + h) / 24 == q) by (nonlinear_arith)
        requires
            0 <= h < 24,
    ;
}

/// The hours of a history whose checks stand in the order of their times
/// stand, site by site, in chronological order.
pub proof fn lemma_hourly_rows_chronological(
    rows: Seq<HourlyRow>,
    history: Seq<HistoryRow>,
    project: Seq<char>,
    site: Seq<char>,
)
    requires
        hourlies_of(rows, history),
        in_time_order(history),
    ensures
        chronological(rows, project, site),
{
    let w = SECS_PER_HOUR as int;
    assert forall|a: int, b: int|
        0 <= a < b < rows.len() && (#[trigger] rows[a]).key() == (project, site) && (
        #[trigger] rows[b]).key() == (project, site) implies rows[a].day() <= rows[b].day() by {
        let ka = hour_key(rows[a]);
        let kb = hour_key(rows[b]);
        assert(starts_before(history, w, ka, kb));
        let x = choose|x: int|
            0 <= x < history.len() && (#[trigger] history[x]).bucket(w) == ka && forall|y: int|
                0 <= y < history.len() && (#[trigger] history[y]).bucket(w) == kb ==> x < y;
        assert(seen(history, w, kb));
        let y = choose|y: int| 0 <= y < history.len() && (#[trigger] history[y]).bucket(w) == kb;
        assert(x < y);
        assert(history[x].checked_at.secs <= history[y].checked_at.secs);
        let sx = history[x].checked_at.secs as int;
        let sy = history[y].checked_at.secs as int;
        assert(sx / 3_600 <= sy / 3_600) by (nonlinear_arith)
            requires
                sx <= sy,
        ;
        lemma_hour_number(rows[a].hour.secs as int);
        lemma_hour_number(rows[b].hour.secs as int);
        let ha = rows[a].hour.secs as int / 3_600;
        let hb = rows[b].hour.secs as int / 3_600;
        assert(ha / 24 <= hb / 24) by (nonlinear_arith)
            requires
                ha <= hb,
        ;
    }
}

/// The data of an hour of a day is the value of the one row at that hour.
pub proof fn lemma_slot_of_only_row(rows: Seq<HourlyRow>, i: int)
    requires
        0 <= i < rows.len(),
        forall|j: int|
            0 <= j < rows.len() && j != i ==> hour_key(#[trigger] rows[j]) != hour_key(rows[i]),
    ensures
        slot_on(rows, rows[i].key().0, rows[i].key().1, rows[i].day(), rows[i].hour_of_day())
            == slot(rows[i].all_up),
    decreases rows.len(),
{
    let n = rows.len() - 1;
    if i < n {
        let head = rows.drop_last();
        assert(hour_key(rows[n]) != hour_key(rows[i]));
        lemma_hour_number(rows[n].hour.secs as int);
        lemma_hour_number(rows[i].hour.secs as int);
        assert(head[i] == rows[i]);
        assert forall|j: int| 0 <= j < head.len() && j != i implies hour_key(#[trigger] head[j])
            != hour_key(head[i]) by {
            assert(head[j] == rows[j]);
        }
        lemma_slot_of_only_row(head, i);
    }
}

/// What the hours of a history say of an hour of a day of a site is what
/// the history says of that hour: no data where no check fell into it, up
/// where every check of the hour was up, and down where one failed.
pub proof fn lemma_slot_is_hour_state(
    rows: Seq<HourlyRow>,
    history: Seq<HistoryRow>,
    project: Seq<char>,
    site: Seq<char>,
    day: int,
    hour: int,
)
    requires
        hourlies_of(rows, history),
        0 <= hour < HOURS_PER_DAY,
    ensures
        slot_on(rows, project, site, day, hour) == hour_state(
            history,
            project,
            site,
            day * 24 + hour,
        ),
{
    let w = SECS_PER_HOUR as int;
    let k = (project, site, day * 24 + hour);
    lemma_slot_on_iff_observed(rows, project, site, day, hour);
    if observed_on(rows, project, site, day, hour) {
        let i = choose|i: int|
            0 <= i < rows.len() && (#[trigger] rows[i]).key() == (project, site) && rows[i].day()
                == day && rows[i].hour_of_day() == hour;
        lemma_hour_number(rows[i].hour.secs as int);
        assert(hour_key(rows[i]) == k);
        assert forall|j: int| 0 <= j < rows.len() && j != i implies hour_key(#[trigger] rows[j])
            != hour_key(rows[i]) by {
            if j < i {
                assert(hour_key(rows[j]) != hour_key(rows[i]));
            } else {
                assert(hour_key(rows[i]) != hour_key(rows[j]));
            }
        }
        lemma_slot_of_only_row(rows, i);
        assert(seen(history, w, k));
    } else {
        if seen(history, w, k) {
            let a = choose|a: int| 0 <= a < rows.len() && hour_key(#[trigger] rows[a]) == k;
            lemma_hour_number(rows[a].hour.secs as int);
            assert(rows[a].day() * 24 + rows[a].hour_of_day() == day * 24 + hour);
            assert(rows[a].day() == day && rows[a].hour_of_day() == hour);
            assert(rows[a].key() == (project, site));
            assert(false);
        }
    }
}

/// Whether `history` holds a check of the site `(project, site)`.
pub open spec fn site_checked(history: Seq<HistoryRow>, project: Seq<char>, site: Seq<char>)
    -> bool {
    exists|i: int|
        0 <= i < history.len() && (#[trigger] history[i]).project_id@ == project
            && history[i].site_key@ == site
}

/// Whether `days` are the day-records of the site `(project, site)` that
/// `history` calls for: one record for each UTC day with a check of the
/// site and none else, the days ascending; and in each record, hour by
/// hour, what the history says of that hour.
pub open spec fn day_records_of(
    days: Seq<DayChecksView>,
    history: Seq<HistoryRow>,
    project: Seq<char>,
    site: Seq<char>,
) -> bool {
    &&& ascending(days)
    &&& forall|day: int|
        has_day(days, day) <==> seen(history, SECS_PER_DAY as int, (project, site, day))
    &&& forall|a: int|
        0 <= a < days.len() ==> (#[trigger] days[a]).checks.len() == HOURS_PER_DAY
    &&& forall|a: int, h: int|
        0 <= a < days.len() && 0 <= h < HOURS_PER_DAY ==> (#[trigger] days[a]).checks[h]
            == hour_state(history, project, site, #[trigger] (days[a].day * 24 + h))
}

/// A row of the hours of a history falls on a day exactly if a check of
/// the site does, and the hours hold a row of a site exactly if the history
/// holds a check of it.
pub proof fn lemma_rows_follow_history(
    rows: Seq<HourlyRow>,
    history: Seq<HistoryRow>,
    project: Seq<char>,
    site: Seq<char>,
)
    requires
        hourlies_of(rows, history),
    ensures
        has_site(rows, project, site) <==> site_checked(history, project, site),
        forall|day: int|
            row_on_day(rows, project, site, day) <==> seen(
                history,
                SECS_PER_DAY as int,
                (project, site, day),
            ),
{
    let w = SECS_PER_HOUR as int;
    let wd = SECS_PER_DAY as int;
    if has_site(rows, project, site) {
        let a = choose|a: int| 0 <= a < rows.len() && (#[trigger] rows[a]).key() == (project, site);
        assert(seen(history, w, hour_key(rows[a])));
        let i = choose|i: int|
            0 <= i < history.len() && (#[trigger] history[i]).bucket(w) == hour_key(rows[a]);
        assert(history[i].project_id@ == project);
    }
    if site_checked(history, project, site) {
        let i = choose|i: int|
            0 <= i < history.len() && (#[trigger] history[i]).project_id@ == project
                && history[i].site_key@ == site;
        let k = history[i].bucket(w);
        assert(seen(history, w, k));
        let a = choose|a: int| 0 <= a < rows.len() && hour_key(#[trigger] rows[a]) == k;
        assert(rows[a].key() == (project, site));
    }
    assert forall|day: int|
        row_on_day(rows, project, site, day) <==> seen(history, wd, (project, site, day)) by {
        if row_on_day(rows, project, site, day) {
            let a = choose|a: int|
                0 <= a < rows.len() && (#[trigger] rows[a]).key() == (project, site)
                    && rows[a].day() == day;
            assert(seen(history, w, hour_key(rows[a])));
            let i = choose|i: int|
                0 <= i < history.len() && (#[trigger] history[i]).bucket(w) == hour_key(rows[a]);
            lemma_hour_number(history[i].checked_at.secs as int);
            lemma_hour_number(rows[a].hour.secs as int);
            assert(history[i].bucket(wd) == (project, site, day));
        }
        if seen(history, wd, (project, site, day)) {
            let i = choose|i: int|
                0 <= i < history.len() && (#[trigger] history[i]).bucket(wd) == (
                    project,
                    site,
                    day,
                );
            let k = history[i].bucket(w);
            assert(seen(history, w, k));
            let a = choose|a: int| 0 <= a < rows.len() && hour_key(#[trigger] rows[a]) == k;
            lemma_hour_number(history[i].checked_at.secs as int);
            lemma_hour_number(rows[a].hour.secs as int);
            assert(rows[a].key() == (project, site) && rows[a].day() == day);
        }
    }
}

/// The day-records folded from the hours of a history in time order are
/// the day-records that the history calls for.
pub proof fn lemma_summary_of_history(
    rows: Seq<HourlyRow>,
    history: Seq<HistoryRow>,
    project: Seq<char>,
    site: Seq<char>,
)
    requires
        hourlies_of(rows, history),
        in_time_order(history),
    ensures
        day_records_of(site_days(rows, project, site), history, project, site),
{
    let days = site_days(rows, project, site);
    lemma_hourly_rows_chronological(rows, history, project, site);
    lemma_days_ascending(rows, project, site);
    lemma_day_records(rows, project, site);
    lemma_rows_follow_history(rows, history, project, site);
    assert forall|day: int|
        has_day(days, day) <==> seen(history, SECS_PER_DAY as int, (project, site, day)) by {
        assert(has_day(days, day) <==> row_on_day(rows, project, site, day));
    }
    assert forall|a: int| 0 <= a < days.len() implies (#[trigger] days[a]).checks.len()
        == HOURS_PER_DAY by {
        assert(days[a].checks == slots_on(rows, project, site, days[a].day));
    }
    assert forall|a: int, h: int| 0 <= a < days.len() && 0 <= h < HOURS_PER_DAY implies (
    #[trigger] days[a]).checks[h] == hour_state(
        history,
        project,
        site,
        #[trigger] (days[a].day * 24 + h),
    ) by {
        lemma_slot_is_hour_state(rows, history, project, site, days[a].day, h);
    }
}

/// The hourly summary of a history: its checks grouped by site and UTC
/// hour, and the hours folded into day-records in the order in which they
/// first occur. For a history whose checks
/// stand in the order of their times, each site with a check has one
/// day-record for each day with a check, the days ascending, and each slot
/// says of its hour whether every check was up, one failed, or none fell
/// into it.
pub fn hourly_summary(history: &[HistoryRow]) -> (out: HourlySummary)
    ensures
        out.wf(),
        exists|rows: Seq<HourlyRow>| #[trigger]
            hourlies_of(rows, history@) && out@ == summary_of(rows),
        forall|project: Seq<char>, site: Seq<char>|
            #[trigger] out@.contains_key((project, site)) <==> site_checked(
                history@,
                project,
                site,
            ),
        in_time_order(history@) ==> forall|project: Seq<char>, site: Seq<char>|
            #[trigger] out@.contains_key((project, site)) ==> day_records_of(
                out@[(project, site)],
                history@,
                project,
                site,
            ),
{
    let rows = hourly_rows(history);
    let ghost hours = rows@;
    let out = build_hourly_summary(rows);
    proof {
        assert(hourlies_of(hours, history@) && out@ == summary_of(hours));
        assert forall|project: Seq<char>, site: Seq<char>| #[trigger]
            out@.contains_key((project, site)) <==> site_checked(history@, project, site) by {
            lemma_rows_follow_history(hours, history@, project, site);
        }
        if in_time_order(history@) {
            assert forall|project: Seq<char>, site: Seq<char>| #[trigger]
                out@.contains_key((project, site)) implies day_records_of(
                out@[(project, site)],
                history@,
                project,
                site,
            ) by {
                lemma_summary_of_history(hours, history@, project, site);
            }
        }
    }
    out
}

} // verus!
