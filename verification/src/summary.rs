//! Uptime history folded into per-day records of hourly slots.

use crate::models::Timestamp;
use crate::text::str_equal;
use vstd::prelude::*;
use vstd::string::*;

verus! {

/// Seconds in a day.
pub const SECS_PER_DAY: i64 = 86_400;

/// Seconds in an hour.
pub const SECS_PER_HOUR: i64 = 3_600;

/// Hours in a day: the number of slots of a day-record.
pub const HOURS_PER_DAY: usize = 24;

/// The UTC calendar day of an instant, counted in days from the Unix epoch.
pub open spec fn utc_day(secs: int) -> int {
    secs / 86_400
}

/// The UTC hour of the day of an instant, from 0 to 23.
pub open spec fn utc_hour(secs: int) -> int {
    (secs % 86_400) / 3_600
}

/// The UTC calendar day of an instant, counted in days from the Unix epoch.
pub fn day_of(t: Timestamp) -> (day: i64)
    ensures
        day == utc_day(t.secs as int),
{
    match t.secs.checked_div_euclid(SECS_PER_DAY) {
        Some(d) => d,
        None => unreached(),
    }
}

/// The UTC hour of the day of an instant.
pub fn hour_of(t: Timestamp) -> (hour: usize)
    ensures
        hour == utc_hour(t.secs as int),
        hour < HOURS_PER_DAY,
{
    match t.secs.checked_rem_euclid(SECS_PER_DAY) {
        Some(r) => (r / SECS_PER_HOUR) as usize,
        None => unreached(),
    }
}

/// One hour of one site: whether every check observed in the hour that
/// holds the instant `hour` was up.
pub struct HourlyRow {
    pub project_id: String,
    pub site_key: String,
    pub hour: Timestamp,
    pub all_up: bool,
}

impl HourlyRow {
    /// The site the row belongs to: project and site key.
    pub open spec fn key(self) -> (Seq<char>, Seq<char>) {
        (self.project_id@, self.site_key@)
    }

    /// The UTC day the row falls on.
    pub open spec fn day(self) -> int {
        utc_day(self.hour.secs as int)
    }

    /// The UTC hour of the day the row falls on.
    pub open spec fn hour_of_day(self) -> int {
        utc_hour(self.hour.secs as int)
    }
}

/// One UTC day of one site: a slot for each hour of the day, which holds
/// `Some(1)` for an hour in which every check was up, `Some(0)` for an hour
/// with a failed check, and `None` for an hour without checks.
pub struct DayChecks {
    pub day: i64,
    pub checks: Vec<Option<i32>>,
}

/// A day-record as the contracts see it.
pub struct DayChecksView {
    pub day: int,
    pub checks: Seq<Option<i32>>,
}

impl View for DayChecks {
    type V = DayChecksView;

    open spec fn view(&self) -> DayChecksView {
        DayChecksView { day: self.day as int, checks: self.checks@ }
    }
}

impl DayChecksView {
    /// A day-record has one slot for each hour, and a slot with data holds
    /// either 0 or 1.
    pub open spec fn wf(self) -> bool {
        &&& self.checks.len() == HOURS_PER_DAY
        &&& forall|h: int|
            0 <= h < self.checks.len() ==> (#[trigger] self.checks[h] is None || self.checks[h]
                == Some(0i32) || self.checks[h] == Some(1i32))
    }
}

/// The value of the slot of an hour with checks.
pub open spec fn slot(all_up: bool) -> Option<i32> {
    Some(
        if all_up {
            1i32
        } else {
            0i32
        },
    )
}

/// The slots of a day without checks.
pub open spec fn no_data() -> Seq<Option<i32>> {
    Seq::new(HOURS_PER_DAY as nat, |h: int| None)
}

/// The views of a list of day-records.
pub open spec fn day_views(days: Seq<DayChecks>) -> Seq<DayChecksView> {
    Seq::new(days.len(), |i: int| days[i]@)
}

/// `days` after the hour `hour` of `day` was recorded: the slot is written
/// into the last record if that is the record of `day`, and into a new
/// record at the end otherwise.
pub open spec fn record_hour(days: Seq<DayChecksView>, day: int, hour: int, all_up: bool) -> Seq<
    DayChecksView,
> {
    if days.len() > 0 && days.last().day == day {
        days.update(
            days.len() - 1,
            DayChecksView { day, checks: days.last().checks.update(hour, slot(all_up)) },
        )
    } else {
        days.push(DayChecksView { day, checks: no_data().update(hour, slot(all_up)) })
    }
}

/// Records one hour in the day-records of a site.
pub fn record(days: &mut Vec<DayChecks>, day: i64, hour: usize, all_up: bool)
    requires
        hour < HOURS_PER_DAY,
        forall|i: int| 0 <= i < old(days)@.len() ==> (#[trigger] old(days)@[i])@.wf(),
    ensures
        day_views(final(days)@) == record_hour(day_views(old(days)@), day as int, hour as int, all_up),
        forall|i: int| 0 <= i < final(days)@.len() ==> (#[trigger] final(days)@[i])@.wf(),
{
    let value: Option<i32> = Some(if all_up { 1 } else { 0 });
    let n = days.len();
    if n > 0 && days[n - 1].day == day {
        days[n - 1].checks[hour] = value;
    } else {
        let mut checks: Vec<Option<i32>> = Vec::new();
        let mut h: usize = 0;
        while h < HOURS_PER_DAY
            invariant
                h <= HOURS_PER_DAY,
                checks@ == Seq::new(h as nat, |k: int| None::<i32>),
            decreases HOURS_PER_DAY - h,
        {
            checks.push(None);
            assert(checks@ =~= Seq::new((h + 1) as nat, |k: int| None::<i32>));
            h += 1;
        }
        checks[hour] = value;
        days.push(DayChecks { day, checks });
    }
    assert(day_views(days@) =~= record_hour(day_views(old(days)@), day as int, hour as int, all_up));
}

/// The day-records of the site `(project, site)` after a single forward
/// pass over `rows`: each row of the site is recorded in turn, rows of other
/// sites are passed over.
pub open spec fn site_days(rows: Seq<HourlyRow>, project: Seq<char>, site: Seq<char>) -> Seq<
    DayChecksView,
>
    decreases rows.len(),
{
    if rows.len() == 0 {
        Seq::empty()
    } else {
        let before = site_days(rows.drop_last(), project, site);
        let row = rows.last();
        if row.key() == (project, site) {
            record_hour(before, row.day(), row.hour_of_day(), row.all_up)
        } else {
            before
        }
    }
}

/// Whether `rows` holds a row of the site `(project, site)`.
pub open spec fn has_site(rows: Seq<HourlyRow>, project: Seq<char>, site: Seq<char>) -> bool {
    exists|i: int| 0 <= i < rows.len() && (#[trigger] rows[i]).key() == (project, site)
}

/// The summary of `rows`: for each site with a row, its day-records.
pub open spec fn summary_of(rows: Seq<HourlyRow>) -> Map<(Seq<char>, Seq<char>), Seq<DayChecksView>> {
    Map::new(
        |k: (Seq<char>, Seq<char>)| has_site(rows, k.0, k.1),
        |k: (Seq<char>, Seq<char>)| site_days(rows, k.0, k.1),
    )
}

/// Whether `rows` holds a row of the site `first` that comes before every
/// row of the site `second`.
pub open spec fn site_starts_before(
    rows: Seq<HourlyRow>,
    first: (Seq<char>, Seq<char>),
    second: (Seq<char>, Seq<char>),
) -> bool {
    exists|i: int|
        0 <= i < rows.len() && (#[trigger] rows[i]).key() == first && forall|j: int|
            0 <= j < rows.len() && (#[trigger] rows[j]).key() == second ==> i < j
}

/// The day-records of one site.
pub struct SiteDays {
    pub project_id: String,
    pub site_key: String,
    pub days: Vec<DayChecks>,
}

impl SiteDays {
    /// The site: project and site key.
    pub open spec fn key(self) -> (Seq<char>, Seq<char>) {
        (self.project_id@, self.site_key@)
    }

    /// Every day-record of the site is well formed.
    pub open spec fn wf(self) -> bool {
        forall|i: int| 0 <= i < self.days@.len() ==> (#[trigger] self.days@[i])@.wf()
    }
}

/// Day-records by site. The sites stand in the order in which they first
/// occurred, and no site stands twice.
pub struct HourlySummary {
    pub sites: Vec<SiteDays>,
}

impl View for HourlySummary {
    type V = Map<(Seq<char>, Seq<char>), Seq<DayChecksView>>;

    open spec fn view(&self) -> Self::V {
        Map::new(
            |k: (Seq<char>, Seq<char>)| self.position(k) is Some,
            |k: (Seq<char>, Seq<char>)| day_views(self.sites@[self.position(k)->0].days@),
        )
    }
}

impl HourlySummary {
    /// Where the site `k` stands, if it is there.
    pub open spec fn position(self, k: (Seq<char>, Seq<char>)) -> Option<int> {
        if exists|i: int| 0 <= i < self.sites@.len() && (#[trigger] self.sites@[i]).key() == k {
            Some(
                choose|i: int| 0 <= i < self.sites@.len() && (#[trigger] self.sites@[i]).key() == k,
            )
        } else {
            None
        }
    }

    /// No site stands twice, and every day-record is well formed.
    pub open spec fn wf(self) -> bool {
        &&& forall|i: int, j: int|
            0 <= i < j < self.sites@.len() ==> (#[trigger] self.sites@[i]).key()
                != (#[trigger] self.sites@[j]).key()
        &&& forall|i: int| 0 <= i < self.sites@.len() ==> (#[trigger] self.sites@[i]).wf()
    }

    /// A summary without sites.
    pub fn new() -> (s: HourlySummary)
        ensures
            s.wf(),
            s@ == Map::<(Seq<char>, Seq<char>), Seq<DayChecksView>>::empty(),
            s.sites@.len() == 0,
    {
        let s = HourlySummary { sites: Vec::new() };
        assert(s@ =~= Map::<(Seq<char>, Seq<char>), Seq<DayChecksView>>::empty());
        s
    }

    /// Whether the summary holds no site.
    pub fn is_empty(&self) -> (empty: bool)
        ensures
            empty == (self.sites@.len() == 0),
            empty == (self@.dom() =~= Set::<(Seq<char>, Seq<char>)>::empty()),
    {
        proof {
            if self.sites@.len() > 0 {
                let k = self.sites@[0].key();
                assert(self.position(k) is Some);
                assert(self@.dom().contains(k));
            }
        }
        self.sites.len() == 0
    }

    /// Where the site `(project, site)` stands in `sites`, if it is there.
    pub fn find(&self, project: &str, site: &str) -> (at: Option<usize>)
        ensures
            match at {
                Some(i) => i < self.sites@.len() && self.sites@[i as int].key() == (
                    project@,
                    site@,
                ),
                None => forall|i: int|
                    0 <= i < self.sites@.len() ==> (#[trigger] self.sites@[i]).key() != (
                        project@,
                        site@,
                    ),
            },
    {
        let mut i: usize = 0;
        while i < self.sites.len()
            invariant
                i <= self.sites@.len(),
                forall|j: int|
                    0 <= j < i ==> (#[trigger] self.sites@[j]).key() != (project@, site@),
            decreases self.sites@.len() - i,
        {
            if str_equal(self.sites[i].project_id.as_str(), project) && str_equal(
                self.sites[i].site_key.as_str(),
                site,
            ) {
                return Some(i);
            }
            i += 1;
        }
        None
    }

    /// Whether the summary holds a site of the project `project`.
    pub fn contains_project(&self, project: &str) -> (found: bool)
        ensures
            found == exists|i: int|
                0 <= i < self.sites@.len() && (#[trigger] self.sites@[i]).project_id@ == project@,
    {
        let mut i: usize = 0;
        while i < self.sites.len()
            invariant
                i <= self.sites@.len(),
                forall|j: int| 0 <= j < i ==> (#[trigger] self.sites@[j]).project_id@ != project@,
            decreases self.sites@.len() - i,
        {
            if str_equal(self.sites[i].project_id.as_str(), project) {
                return true;
            }
            i += 1;
        }
        false
    }

    /// The day-records of the site `(project, site)`, if it has any.
    pub fn get(&self, project: &str, site: &str) -> (days: Option<&Vec<DayChecks>>)
        requires
            self.wf(),
        ensures
            match days {
                Some(d) => self@.contains_key((project@, site@)) && day_views(d@) == self@[(
                    project@,
                    site@,
                )],
                None => !self@.contains_key((project@, site@)),
            },
    {
        match self.find(project, site) {
            Some(i) => {
                proof {
                    self.lemma_position(i as int);
                }
                Some(&self.sites[i].days)
            },
            None => None,
        }
    }

    /// In a well-formed summary the site at `i` is found at `i`.
    pub proof fn lemma_position(self, i: int)
        requires
            self.wf(),
            0 <= i < self.sites@.len(),
        ensures
            self.position(self.sites@[i].key()) == Some(i),
            self@.contains_key(self.sites@[i].key()),
            self@[self.sites@[i].key()] == day_views(self.sites@[i].days@),
    {
        let k = self.sites@[i].key();
        let j = choose|j: int| 0 <= j < self.sites@.len() && (#[trigger] self.sites@[j]).key() == k;
        if j < i {
            assert(self.sites@[j].key() != self.sites@[i].key());
        } else if i < j {
            assert(self.sites@[i].key() != self.sites@[j].key());
        }
    }
}

/// One more row changes the day-records of the row's site only, and does
/// so by recording the row.
pub proof fn lemma_site_days_step(rows: Seq<HourlyRow>, n: int, project: Seq<char>, site: Seq<char>)
    requires
        0 <= n < rows.len(),
    ensures
        site_days(rows.take(n + 1), project, site) == if rows[n].key() == (project, site) {
            record_hour(
                site_days(rows.take(n), project, site),
                rows[n].day(),
                rows[n].hour_of_day(),
                rows[n].all_up,
            )
        } else {
            site_days(rows.take(n), project, site)
        },
        has_site(rows.take(n + 1), project, site) == (has_site(rows.take(n), project, site)
            || rows[n].key() == (project, site)),
{
    let longer = rows.take(n + 1);
    let shorter = rows.take(n);
    assert(longer.drop_last() =~= shorter);
    assert(longer.last() == rows[n]);
    if has_site(longer, project, site) {
        let i = choose|i: int| 0 <= i < longer.len() && (#[trigger] longer[i]).key() == (project, site);
        if i < n {
            assert(shorter[i] == longer[i]);
        }
    }
    if has_site(shorter, project, site) {
        let i = choose|i: int|
            0 <= i < shorter.len() && (#[trigger] shorter[i]).key() == (project, site);
        assert(longer[i] == shorter[i]);
    }
    if rows[n].key() == (project, site) {
        assert(longer[n] == rows[n]);
    }
}

/// A site that starts before another still does so after one row more; and
/// a site with a row starts before one whose first row is the new one.
pub proof fn lemma_site_starts_before_step(
    rows: Seq<HourlyRow>,
    n: int,
    first: (Seq<char>, Seq<char>),
    second: (Seq<char>, Seq<char>),
)
    requires
        0 <= n < rows.len(),
        site_starts_before(rows.take(n), first, second) || (has_site(
            rows.take(n),
            first.0,
            first.1,
        ) && !has_site(rows.take(n), second.0, second.1)),
    ensures
        site_starts_before(rows.take(n + 1), first, second),
{
    let longer = rows.take(n + 1);
    let shorter = rows.take(n);
    let i = if site_starts_before(shorter, first, second) {
        choose|i: int|
            0 <= i < shorter.len() && (#[trigger] shorter[i]).key() == first && forall|j: int|
                0 <= j < shorter.len() && (#[trigger] shorter[j]).key() == second ==> i < j
    } else {
        choose|i: int| 0 <= i < shorter.len() && (#[trigger] shorter[i]).key() == first
    };
    assert(longer[i] == shorter[i]);
    assert forall|j: int| 0 <= j < longer.len() && (#[trigger] longer[j]).key() == second implies i
        < j by {
        if j < n {
            assert(shorter[j] == longer[j]);
        }
    }
}

/// Folds hourly rows into day-records by site, in one forward pass: each
/// row is recorded in the last day-record of its site if that is the record
/// of the row's day, and in a new day-record otherwise.
pub fn build_hourly_summary(rows: Vec<HourlyRow>) -> (out: HourlySummary)
    ensures
        out.wf(),
        out@ == summary_of(rows@),
        forall|a: int, b: int|
            0 <= a < b < out.sites@.len() ==> site_starts_before(
                rows@,
                (#[trigger] out.sites@[a]).key(),
                (#[trigger] out.sites@[b]).key(),
            ),
{
    let mut out = HourlySummary::new();
    let mut n: usize = 0;
    while n < rows.len()
        invariant
            n <= rows@.len(),
            out.wf(),
            forall|i: int|
                0 <= i < out.sites@.len() ==> has_site(
                    rows@.take(n as int),
                    (#[trigger] out.sites@[i]).key().0,
                    out.sites@[i].key().1,
                ),
            forall|i: int|
                0 <= i < out.sites@.len() ==> day_views((#[trigger] out.sites@[i]).days@)
                    == site_days(rows@.take(n as int), out.sites@[i].key().0, out.sites@[i].key().1),
            forall|k: (Seq<char>, Seq<char>)|
                has_site(rows@.take(n as int), k.0, k.1) ==> exists|i: int|
                    0 <= i < out.sites@.len() && (#[trigger] out.sites@[i]).key() == k,
            forall|a: int, b: int|
                0 <= a < b < out.sites@.len() ==> site_starts_before(
                    rows@.take(n as int),
                    (#[trigger] out.sites@[a]).key(),
                    (#[trigger] out.sites@[b]).key(),
                ),
        decreases rows@.len() - n,
    {
        let row = &rows[n];
        let day = day_of(row.hour);
        let hour = hour_of(row.hour);
        let ghost before = out;
        let ghost k = row.key();
        match out.find(row.project_id.as_str(), row.site_key.as_str()) {
            Some(at) => {
                record(&mut out.sites[at].days, day, hour, row.all_up);
                assert(forall|i: int|
                    0 <= i < out.sites@.len() ==> (#[trigger] out.sites@[i]).key()
                        == before.sites@[i].key());
                assert(forall|i: int|
                    0 <= i < out.sites@.len() && i != at ==> (#[trigger] out.sites@[i]).days
                        == before.sites@[i].days);
            },
            None => {
                assert(site_days(rows@.take(n as int), k.0, k.1) =~= Seq::empty()) by {
                    lemma_absent_site_has_no_days(rows@.take(n as int), k.0, k.1);
                }
                let mut days: Vec<DayChecks> = Vec::new();
                assert(day_views(days@) =~= Seq::<DayChecksView>::empty());
                record(&mut days, day, hour, row.all_up);
                out.sites.push(
                    SiteDays {
                        project_id: row.project_id.clone(),
                        site_key: row.site_key.clone(),
                        days,
                    },
                );
                assert(forall|i: int|
                    0 <= i < before.sites@.len() ==> (#[trigger] out.sites@[i])
                        == before.sites@[i]);
            },
        }
        assert forall|i: int| 0 <= i < out.sites@.len() implies has_site(
            rows@.take(n as int + 1),
            (#[trigger] out.sites@[i]).key().0,
            out.sites@[i].key().1,
        ) && day_views(out.sites@[i].days@) == site_days(
            rows@.take(n as int + 1),
            out.sites@[i].key().0,
            out.sites@[i].key().1,
        ) by {
            let ki = out.sites@[i].key();
            lemma_site_days_step(rows@, n as int, ki.0, ki.1);
            if i < before.sites@.len() {
                assert(before.sites@[i].key() == ki);
                if ki == k {
                    if before.sites@.len() == out.sites@.len() {
                        let at = choose|at: int|
                            0 <= at < before.sites@.len() && (#[trigger] before.sites@[at]).key()
                                == k;
                        if at < i {
                            assert(before.sites@[at].key() != before.sites@[i].key());
                        } else if i < at {
                            assert(before.sites@[i].key() != before.sites@[at].key());
                        }
                    }
                }
            }
        }
        assert forall|kk: (Seq<char>, Seq<char>)|
            has_site(rows@.take(n as int + 1), kk.0, kk.1) implies exists|i: int|
            0 <= i < out.sites@.len() && (#[trigger] out.sites@[i]).key() == kk by {
            if kk == k {
                if before.sites@.len() == out.sites@.len() {
                } else {
                    assert(out.sites@[out.sites@.len() - 1].key() == k);
                }
            } else {
                lemma_site_days_step(rows@, n as int, kk.0, kk.1);
                assert(has_site(rows@.take(n as int), kk.0, kk.1));
                let i = choose|i: int|
                    0 <= i < before.sites@.len() && (#[trigger] before.sites@[i]).key() == kk;
                assert(out.sites@[i].key() == kk);
            }
        }
        assert forall|a: int, b: int| 0 <= a < b < out.sites@.len() implies site_starts_before(
            rows@.take(n as int + 1),
            (#[trigger] out.sites@[a]).key(),
            (#[trigger] out.sites@[b]).key(),
        ) by {
            assert(before.sites@[a].key() == out.sites@[a].key());
            if b < before.sites@.len() {
                assert(before.sites@[b].key() == out.sites@[b].key());
                assert(site_starts_before(
                    rows@.take(n as int),
                    before.sites@[a].key(),
                    before.sites@[b].key(),
                ));
            } else {
                let kb = out.sites@[b].key();
                assert(has_site(
                    rows@.take(n as int),
                    before.sites@[a].key().0,
                    before.sites@[a].key().1,
                ));
                assert(kb == k);
                if has_site(rows@.take(n as int), kb.0, kb.1) {
                    let i = choose|i: int|
                        0 <= i < before.sites@.len() && (#[trigger] before.sites@[i]).key() == kb;
                    assert(false);
                }
            }
            lemma_site_starts_before_step(
                rows@,
                n as int,
                out.sites@[a].key(),
                out.sites@[b].key(),
            );
        }
        n += 1;
    }
    proof {
        assert(rows@.take(n as int) =~= rows@);
        assert forall|k: (Seq<char>, Seq<char>)| out@.dom().contains(k) == summary_of(
            rows@,
        ).dom().contains(k) by {
            if out.position(k) is Some {
                let i = out.position(k)->0;
                assert(out.sites@[i].key() == k);
            }
        }
        assert forall|k: (Seq<char>, Seq<char>)| out@.dom().contains(k) implies out@[k]
            == summary_of(rows@)[k] by {
            let i = out.position(k)->0;
            assert(out.sites@[i].key() == k);
        }
        assert(out@ =~= summary_of(rows@));
    }
    out
}

/// A site without rows has no day-records.
pub proof fn lemma_absent_site_has_no_days(rows: Seq<HourlyRow>, project: Seq<char>, site: Seq<char>)
    requires
        !has_site(rows, project, site),
    ensures
        site_days(rows, project, site) == Seq::<DayChecksView>::empty(),
    decreases rows.len(),
{
    if rows.len() > 0 {
        assert(rows[rows.len() - 1].key() != (project, site));
        assert forall|i: int| 0 <= i < rows.drop_last().len() implies (
        #[trigger] rows.drop_last()[i]).key() != (project, site) by {
            assert(rows.drop_last()[i] == rows[i]);
        }
        lemma_absent_site_has_no_days(rows.drop_last(), project, site);
    }
}

/// Without rows there is no site in the summary.
pub proof fn lemma_no_rows_no_sites()
    ensures
        summary_of(Seq::<HourlyRow>::empty()) == Map::<
            (Seq<char>, Seq<char>),
            Seq<DayChecksView>,
        >::empty(),
{
    assert(summary_of(Seq::<HourlyRow>::empty()) =~= Map::<
        (Seq<char>, Seq<char>),
        Seq<DayChecksView>,
    >::empty());
}

/// Whether `rows` holds a row of the site `(project, site)` at the hour
/// `hour` of the day.
pub open spec fn observed(rows: Seq<HourlyRow>, project: Seq<char>, site: Seq<char>, hour: int)
    -> bool {
    exists|i: int|
        0 <= i < rows.len() && (#[trigger] rows[i]).key() == (project, site)
            && rows[i].hour_of_day() == hour
}

/// Whether the row at `i` is the last row of its site at its hour of the day.
pub open spec fn last_at_its_hour(rows: Seq<HourlyRow>, i: int) -> bool {
    forall|j: int|
        i < j < rows.len() && (#[trigger] rows[j]).key() == rows[i].key() ==> rows[j].hour_of_day()
            != rows[i].hour_of_day()
}

/// What the rows of a site say of the hour `hour` of the day, whatever the
/// day: the value of the last row at that hour, and nothing where there is
/// no such row.
pub open spec fn slot_after(rows: Seq<HourlyRow>, project: Seq<char>, site: Seq<char>, hour: int)
    -> Option<i32>
    decreases rows.len(),
{
    if rows.len() == 0 {
        None
    } else if rows.last().key() == (project, site) && rows.last().hour_of_day() == hour {
        slot(rows.last().all_up)
    } else {
        slot_after(rows.drop_last(), project, site, hour)
    }
}

/// An hour holds data exactly if it is observed.
pub proof fn lemma_slot_iff_observed(
    rows: Seq<HourlyRow>,
    project: Seq<char>,
    site: Seq<char>,
    hour: int,
)
    ensures
        slot_after(rows, project, site, hour) is Some <==> observed(rows, project, site, hour),
    decreases rows.len(),
{
    if rows.len() > 0 {
        lemma_observed_step(rows, project, site, hour);
        lemma_slot_iff_observed(rows.drop_last(), project, site, hour);
    }
}

/// The data of an hour is the value of the last row of the site at that
/// hour.
pub proof fn lemma_slot_is_last_row(rows: Seq<HourlyRow>, i: int)
    requires
        0 <= i < rows.len(),
        last_at_its_hour(rows, i),
    ensures
        slot_after(rows, rows[i].key().0, rows[i].key().1, rows[i].hour_of_day()) == slot(
            rows[i].all_up,
        ),
    decreases rows.len(),
{
    let n = rows.len() - 1;
    if i < n {
        let head = rows.drop_last();
        assert(rows[n].key() == rows[i].key() ==> rows[n].hour_of_day() != rows[i].hour_of_day());
        assert(head[i] == rows[i]);
        assert forall|j: int|
            i < j < head.len() && (#[trigger] head[j]).key() == head[i].key() implies head[j].hour_of_day()
            != head[i].hour_of_day() by {
            assert(head[j] == rows[j]);
        }
        lemma_slot_is_last_row(head, i);
    }
}

/// Where all rows of a site fall on one UTC day, the site has exactly one
/// day-record: that of this day, with the data of each hour.
pub proof fn lemma_single_day_record(
    rows: Seq<HourlyRow>,
    project: Seq<char>,
    site: Seq<char>,
    day: int,
)
    requires
        has_site(rows, project, site),
        forall|i: int|
            0 <= i < rows.len() && (#[trigger] rows[i]).key() == (project, site) ==> rows[i].day()
                == day,
    ensures
        site_days(rows, project, site) == seq![
            DayChecksView {
                day,
                checks: Seq::new(
                    HOURS_PER_DAY as nat,
                    |h: int| slot_after(rows, project, site, h),
                ),
            },
        ],
    decreases rows.len(),
{
    let head = rows.drop_last();
    let row = rows.last();
    let n = rows.len() - 1;
    assert(rows[n] == row);
    let hour = row.hour_of_day();
    assert(0 <= hour < 24);
    let checks = Seq::new(HOURS_PER_DAY as nat, |h: int| slot_after(rows, project, site, h));
    let target = seq![DayChecksView { day, checks }];
    if has_site(head, project, site) {
        assert forall|i: int|
            0 <= i < head.len() && (#[trigger] head[i]).key() == (project, site) implies head[i].day()
            == day by {
            assert(head[i] == rows[i]);
        }
        lemma_single_day_record(head, project, site, day);
        let before = site_days(head, project, site);
        if row.key() == (project, site) {
            assert(before.last() == before[0]);
            let after = record_hour(before, day, hour, row.all_up);
            assert(after.len() == 1);
            assert(after[0].checks =~= checks);
            assert(after =~= target);
        } else {
            assert(before[0].checks =~= checks);
            assert(before =~= target);
        }
    } else {
        lemma_absent_site_has_no_days(head, project, site);
        let i0 = choose|i: int| 0 <= i < rows.len() && (#[trigger] rows[i]).key() == (project, site);
        if i0 < n {
            assert(head[i0].key() == (project, site));
        }
        assert(row.key() == (project, site));
        assert forall|h: int| #[trigger] slot_after(head, project, site, h) is None by {
            lemma_slot_iff_observed(head, project, site, h);
            if observed(head, project, site, h) {
                let i = choose|i: int|
                    0 <= i < head.len() && (#[trigger] head[i]).key() == (project, site)
                        && head[i].hour_of_day() == h;
                assert(false);
            }
        }
        let after = record_hour(Seq::<DayChecksView>::empty(), day, hour, row.all_up);
        assert(after.len() == 1);
        assert(after[0].checks.len() == checks.len());
        assert forall|h: int| 0 <= h < HOURS_PER_DAY implies after[0].checks[h] == checks[h] by {
            assert(checks[h] == slot_after(rows, project, site, h));
            if h != hour {
                assert(slot_after(rows, project, site, h) == slot_after(head, project, site, h));
                assert(no_data()[h] is None);
            }
        }
        assert(after[0].checks =~= checks);
        assert(after =~= target);
    }
}

/// Where all rows of a site fall on one UTC day, the site has exactly one
/// day-record: that of this day, in which exactly the observed hours hold
/// data, each the value of the last row at that hour, and the other hours
/// hold none.
pub proof fn lemma_single_day(rows: Seq<HourlyRow>, project: Seq<char>, site: Seq<char>, day: int)
    requires
        has_site(rows, project, site),
        forall|i: int|
            0 <= i < rows.len() && (#[trigger] rows[i]).key() == (project, site) ==> rows[i].day()
                == day,
    ensures
        site_days(rows, project, site).len() == 1,
        site_days(rows, project, site)[0].day == day,
        site_days(rows, project, site)[0].checks.len() == HOURS_PER_DAY,
        forall|h: int|
            0 <= h < HOURS_PER_DAY ==> ((#[trigger] site_days(rows, project, site)[0].checks[h])
                is Some <==> observed(rows, project, site, h)),
        forall|i: int|
            0 <= i < rows.len() && (#[trigger] rows[i]).key() == (project, site)
                && last_at_its_hour(rows, i) ==> site_days(
                rows,
                project,
                site,
            )[0].checks[rows[i].hour_of_day()] == slot(rows[i].all_up),
{
    lemma_single_day_record(rows, project, site, day);
    let checks = site_days(rows, project, site)[0].checks;
    assert forall|h: int| 0 <= h < HOURS_PER_DAY implies ((#[trigger] checks[h]) is Some
        <==> observed(rows, project, site, h)) by {
        lemma_slot_iff_observed(rows, project, site, h);
    }
    assert forall|i: int|
        0 <= i < rows.len() && (#[trigger] rows[i]).key() == (project, site) && last_at_its_hour(
            rows,
            i,
        ) implies checks[rows[i].hour_of_day()] == slot(rows[i].all_up) by {
        lemma_slot_is_last_row(rows, i);
        assert(0 <= rows[i].hour_of_day() < 24);
    }
}

/// An hour is observed in `rows` exactly if it is observed before the last
/// row or is the hour of the last row, where that is a row of the site.
pub proof fn lemma_observed_step(rows: Seq<HourlyRow>, project: Seq<char>, site: Seq<char>, hour: int)
    requires
        rows.len() > 0,
    ensures
        observed(rows, project, site, hour) == (observed(rows.drop_last(), project, site, hour) || (
        rows.last().key() == (project, site) && rows.last().hour_of_day() == hour)),
{
    let head = rows.drop_last();
    let n = rows.len() - 1;
    if observed(rows, project, site, hour) {
        let i = choose|i: int|
            0 <= i < rows.len() && (#[trigger] rows[i]).key() == (project, site)
                && rows[i].hour_of_day() == hour;
        if i < n {
            assert(head[i] == rows[i]);
        }
    }
    if observed(head, project, site, hour) {
        let i = choose|i: int|
            0 <= i < head.len() && (#[trigger] head[i]).key() == (project, site)
                && head[i].hour_of_day() == hour;
        assert(rows[i] == head[i]);
    }
    if rows.last().key() == (project, site) && rows.last().hour_of_day() == hour {
        assert(rows[n].key() == (project, site));
    }
}

/// Whether the rows of the site `(project, site)` stand in chronological
/// order of their days.
pub open spec fn chronological(rows: Seq<HourlyRow>, project: Seq<char>, site: Seq<char>) -> bool {
    forall|i: int, j: int|
        0 <= i < j < rows.len() && (#[trigger] rows[i]).key() == (project, site) && (
        #[trigger] rows[j]).key() == (project, site) ==> rows[i].day() <= rows[j].day()
}

/// Whether `days` holds a record of the day `day`.
pub open spec fn has_day(days: Seq<DayChecksView>, day: int) -> bool {
    exists|a: int| 0 <= a < days.len() && (#[trigger] days[a]).day == day
}

/// Whether a row of the site `(project, site)` falls on the day `day`.
pub open spec fn row_on_day(rows: Seq<HourlyRow>, project: Seq<char>, site: Seq<char>, day: int)
    -> bool {
    exists|i: int|
        0 <= i < rows.len() && (#[trigger] rows[i]).key() == (project, site) && rows[i].day() == day
}

/// Whether the days of `days` ascend strictly.
pub open spec fn ascending(days: Seq<DayChecksView>) -> bool {
    forall|a: int, b: int|
        0 <= a < b < days.len() ==> (#[trigger] days[a]).day < (#[trigger] days[b]).day
}

/// Where the rows of a site stand in chronological order, its day-records
/// ascend strictly by day, and there is a record for exactly the days on
/// which a row of the site falls: rows on either side of a day boundary
/// give two records, the earlier day first.
pub proof fn lemma_days_ascending(rows: Seq<HourlyRow>, project: Seq<char>, site: Seq<char>)
    requires
        chronological(rows, project, site),
    ensures
        ascending(site_days(rows, project, site)),
        forall|day: int|
            has_day(site_days(rows, project, site), day) <==> row_on_day(rows, project, site, day),
        forall|i: int|
            0 <= i < rows.len() && (#[trigger] rows[i]).key() == (project, site) ==> site_days(
                rows,
                project,
                site,
            ).len() > 0 && rows[i].day() <= site_days(rows, project, site).last().day,
    decreases rows.len(),
{
    let days = site_days(rows, project, site);
    if rows.len() == 0 {
        return ;
    }
    let head = rows.drop_last();
    let row = rows.last();
    let n = rows.len() - 1;
    assert(rows[n] == row);
    assert(chronological(head, project, site)) by {
        assert forall|i: int, j: int|
            0 <= i < j < head.len() && (#[trigger] head[i]).key() == (project, site) && (
            #[trigger] head[j]).key() == (project, site) implies head[i].day() <= head[j].day() by {
            assert(head[i] == rows[i]);
            assert(head[j] == rows[j]);
        }
    }
    lemma_days_ascending(head, project, site);
    let before = site_days(head, project, site);
    assert forall|day: int| row_on_day(rows, project, site, day) == (row_on_day(
        head,
        project,
        site,
        day,
    ) || (row.key() == (project, site) && row.day() == day)) by {
        lemma_row_on_day_step(rows, project, site, day);
    }
    if row.key() == (project, site) {
        let d = row.day();
        assert(days == record_hour(before, d, row.hour_of_day(), row.all_up));
        assert forall|i: int| 0 <= i < head.len() && (#[trigger] head[i]).key() == (
            project,
            site,
        ) implies head[i].day() <= d by {
            assert(head[i] == rows[i]);
        }
        if before.len() > 0 && before.last().day == d {
            assert(days.len() == before.len());
            assert forall|a: int| 0 <= a < days.len() implies (#[trigger] days[a]).day
                == before[a].day by {}
            assert(ascending(days));
            assert forall|day: int| has_day(days, day) <==> has_day(before, day) by {
                if has_day(days, day) {
                    let a = choose|a: int| 0 <= a < days.len() && (#[trigger] days[a]).day == day;
                    assert(before[a].day == day);
                }
                if has_day(before, day) {
                    let a = choose|a: int|
                        0 <= a < before.len() && (#[trigger] before[a]).day == day;
                    assert(days[a].day == day);
                }
            }
            assert(has_day(before, d)) by {
                assert(before[before.len() - 1].day == d);
            }
        } else {
            assert(days == before.push(days.last()));
            assert(days.last().day == d);
            assert forall|a: int| 0 <= a < before.len() implies (#[trigger] before[a]).day < d by {
                let latest = before[before.len() - 1].day;
                assert(has_day(before, latest));
                assert(row_on_day(head, project, site, latest));
                let i = choose|i: int|
                    0 <= i < head.len() && (#[trigger] head[i]).key() == (project, site)
                        && head[i].day() == latest;
                assert(head[i].day() <= d);
                assert(latest < d);
                if a < before.len() - 1 {
                    assert(before[a].day < before[before.len() - 1].day);
                }
            }
            assert(ascending(days)) by {
                assert forall|a: int, b: int| 0 <= a < b < days.len() implies (
                #[trigger] days[a]).day < (#[trigger] days[b]).day by {
                    if b < before.len() {
                        assert(before[a].day < before[b].day);
                    } else {
                        assert(before[a].day < d);
                    }
                }
            }
            assert forall|day: int| has_day(days, day) <==> (has_day(before, day) || day == d) by {
                if has_day(days, day) {
                    let a = choose|a: int| 0 <= a < days.len() && (#[trigger] days[a]).day == day;
                    if a < before.len() {
                        assert(before[a].day == day);
                    }
                }
                if has_day(before, day) {
                    let a = choose|a: int|
                        0 <= a < before.len() && (#[trigger] before[a]).day == day;
                    assert(days[a].day == day);
                }
                if day == d {
                    assert(days[days.len() - 1].day == day);
                }
            }
        }
        assert forall|i: int| 0 <= i < rows.len() && (#[trigger] rows[i]).key() == (
            project,
            site,
        ) implies days.len() > 0 && rows[i].day() <= days.last().day by {
            if i < n {
                assert(head[i] == rows[i]);
            }
        }
    } else {
        assert(days == before);
        assert forall|i: int| 0 <= i < rows.len() && (#[trigger] rows[i]).key() == (
            project,
            site,
        ) implies days.len() > 0 && rows[i].day() <= days.last().day by {
            assert(i < n);
            assert(head[i] == rows[i]);
        }
    }
}

/// A row of the site falls on `day` exactly if one does before the last
/// row, or the last row is one.
pub proof fn lemma_row_on_day_step(rows: Seq<HourlyRow>, project: Seq<char>, site: Seq<char>, day: int)
    requires
        rows.len() > 0,
    ensures
        row_on_day(rows, project, site, day) == (row_on_day(rows.drop_last(), project, site, day)
            || (rows.last().key() == (project, site) && rows.last().day() == day)),
{
    let head = rows.drop_last();
    let n = rows.len() - 1;
    if row_on_day(rows, project, site, day) {
        let i = choose|i: int|
            0 <= i < rows.len() && (#[trigger] rows[i]).key() == (project, site) && rows[i].day()
                == day;
        if i < n {
            assert(head[i] == rows[i]);
        }
    }
    if row_on_day(head, project, site, day) {
        let i = choose|i: int|
            0 <= i < head.len() && (#[trigger] head[i]).key() == (project, site) && head[i].day()
                == day;
        assert(rows[i] == head[i]);
    }
    if rows.last().key() == (project, site) && rows.last().day() == day {
        assert(rows[n].key() == (project, site));
    }
}

/// What the rows of a site say of the hour `hour` of the day `day`: the
/// value of the last row at that hour of that day, and nothing where there
/// is no such row.
pub open spec fn slot_on(
    rows: Seq<HourlyRow>,
    project: Seq<char>,
    site: Seq<char>,
    day: int,
    hour: int,
) -> Option<i32>
    decreases rows.len(),
{
    if rows.len() == 0 {
        None
    } else if rows.last().key() == (project, site) && rows.last().day() == day
        && rows.last().hour_of_day() == hour {
        slot(rows.last().all_up)
    } else {
        slot_on(rows.drop_last(), project, site, day, hour)
    }
}

/// Whether `rows` holds a row of the site `(project, site)` at the hour
/// `hour` of the day `day`.
pub open spec fn observed_on(
    rows: Seq<HourlyRow>,
    project: Seq<char>,
    site: Seq<char>,
    day: int,
    hour: int,
) -> bool {
    exists|i: int|
        0 <= i < rows.len() && (#[trigger] rows[i]).key() == (project, site) && rows[i].day() == day
            && rows[i].hour_of_day() == hour
}

/// An hour of a day holds data exactly if a row of the site stands at that
/// hour of that day.
pub proof fn lemma_slot_on_iff_observed(
    rows: Seq<HourlyRow>,
    project: Seq<char>,
    site: Seq<char>,
    day: int,
    hour: int,
)
    ensures
        slot_on(rows, project, site, day, hour) is Some <==> observed_on(
            rows,
            project,
            site,
            day,
            hour,
        ),
    decreases rows.len(),
{
    if rows.len() > 0 {
        let head = rows.drop_last();
        let n = rows.len() - 1;
        lemma_slot_on_iff_observed(head, project, site, day, hour);
        if observed_on(rows, project, site, day, hour) {
            let i = choose|i: int|
                0 <= i < rows.len() && (#[trigger] rows[i]).key() == (project, site)
                    && rows[i].day() == day && rows[i].hour_of_day() == hour;
            if i < n {
                assert(head[i] == rows[i]);
            }
        }
        if observed_on(head, project, site, day, hour) {
            let i = choose|i: int|
                0 <= i < head.len() && (#[trigger] head[i]).key() == (project, site)
                    && head[i].day() == day && head[i].hour_of_day() == hour;
            assert(rows[i] == head[i]);
        }
        if rows.last().key() == (project, site) && rows.last().day() == day
            && rows.last().hour_of_day() == hour {
            assert(rows[n].key() == (project, site));
        }
    }
}

/// A day on which no row of the site falls holds no data at any hour.
pub proof fn lemma_slot_on_empty_day(
    rows: Seq<HourlyRow>,
    project: Seq<char>,
    site: Seq<char>,
    day: int,
    hour: int,
)
    requires
        !row_on_day(rows, project, site, day),
    ensures
        slot_on(rows, project, site, day, hour) is None,
{
    lemma_slot_on_iff_observed(rows, project, site, day, hour);
    if observed_on(rows, project, site, day, hour) {
        let i = choose|i: int|
            0 <= i < rows.len() && (#[trigger] rows[i]).key() == (project, site) && rows[i].day()
                == day && rows[i].hour_of_day() == hour;
        assert(row_on_day(rows, project, site, day));
    }
}

/// The slots of the day `day` of a site, as its rows give them.
pub open spec fn slots_on(rows: Seq<HourlyRow>, project: Seq<char>, site: Seq<char>, day: int)
    -> Seq<Option<i32>> {
    Seq::new(HOURS_PER_DAY as nat, |h: int| slot_on(rows, project, site, day, h))
}

/// Where the rows of a site stand in chronological order, each of its
/// day-records holds, hour by hour, what the rows say of that day: the
/// value of the last row at that hour of that day, and no data for an hour
/// at which no row of that day stands.
pub proof fn lemma_day_records(rows: Seq<HourlyRow>, project: Seq<char>, site: Seq<char>)
    requires
        chronological(rows, project, site),
    ensures
        forall|a: int|
            0 <= a < site_days(rows, project, site).len() ==> (#[trigger] site_days(
                rows,
                project,
                site,
            )[a]).checks == slots_on(rows, project, site, site_days(rows, project, site)[a].day),
    decreases rows.len(),
{
    let days = site_days(rows, project, site);
    if rows.len() == 0 {
        return ;
    }
    let head = rows.drop_last();
    let row = rows.last();
    let n = rows.len() - 1;
    assert(rows[n] == row);
    assert(chronological(head, project, site)) by {
        assert forall|i: int, j: int|
            0 <= i < j < head.len() && (#[trigger] head[i]).key() == (project, site) && (
            #[trigger] head[j]).key() == (project, site) implies head[i].day() <= head[j].day() by {
            assert(head[i] == rows[i]);
            assert(head[j] == rows[j]);
        }
    }
    lemma_day_records(head, project, site);
    lemma_days_ascending(head, project, site);
    let before = site_days(head, project, site);
    if row.key() != (project, site) {
        assert(days == before);
        assert forall|a: int| 0 <= a < days.len() implies (#[trigger] days[a]).checks == slots_on(
            rows,
            project,
            site,
            days[a].day,
        ) by {
            assert(before[a].checks == slots_on(head, project, site, before[a].day));
            assert(slots_on(rows, project, site, days[a].day) =~= slots_on(
                head,
                project,
                site,
                days[a].day,
            ));
        }
        return ;
    }
    let d = row.day();
    let hour = row.hour_of_day();
    assert(0 <= hour < 24);
    assert(days == record_hour(before, d, hour, row.all_up));
    if before.len() > 0 && before.last().day == d {
        let last = before.len() - 1;
        assert forall|a: int| 0 <= a < days.len() implies (#[trigger] days[a]).checks == slots_on(
            rows,
            project,
            site,
            days[a].day,
        ) by {
            assert(before[a].checks == slots_on(head, project, site, before[a].day));
            if a == last {
                assert(days[a].checks =~= slots_on(rows, project, site, d));
            } else {
                assert(before[a].day < before[last].day);
                assert(slots_on(rows, project, site, days[a].day) =~= slots_on(
                    head,
                    project,
                    site,
                    days[a].day,
                ));
            }
        }
    } else {
        assert(!has_day(before, d)) by {
            if has_day(before, d) {
                let a = choose|a: int| 0 <= a < before.len() && (#[trigger] before[a]).day == d;
                let last = before.len() - 1;
                let latest = before[last].day;
                if a < last {
                    assert(before[a].day < before[last].day);
                }
                assert(has_day(before, latest));
                assert(row_on_day(head, project, site, latest));
                let i = choose|i: int|
                    0 <= i < head.len() && (#[trigger] head[i]).key() == (project, site)
                        && head[i].day() == latest;
                assert(head[i] == rows[i]);
                assert(rows[i].day() <= rows[n].day());
            }
        }
        assert(!row_on_day(head, project, site, d));
        assert forall|a: int| 0 <= a < days.len() implies (#[trigger] days[a]).checks == slots_on(
            rows,
            project,
            site,
            days[a].day,
        ) by {
            if a < before.len() {
                assert(before[a].checks == slots_on(head, project, site, before[a].day));
                assert(has_day(before, before[a].day));
                assert(slots_on(rows, project, site, days[a].day) =~= slots_on(
                    head,
                    project,
                    site,
                    days[a].day,
                ));
            } else {
                assert forall|h: int| 0 <= h < HOURS_PER_DAY implies days[a].checks[h] == slot_on(
                    rows,
                    project,
                    site,
                    d,
                    h,
                ) by {
                    lemma_slot_on_empty_day(head, project, site, d, h);
                }
                assert(days[a].checks =~= slots_on(rows, project, site, d));
            }
        }
    }
}

} // verus!
