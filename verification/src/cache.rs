//! The latest result of each monitor, kept in memory.

use crate::models::{CheckResult, CheckResultView};
use crate::text::str_equal;
use vstd::prelude::*;
use vstd::string::*;

verus! {

/// The key of a monitor: project and site.
pub type SiteKey = (Seq<char>, Seq<char>);

/// The views of a list of results.
pub open spec fn result_views(results: Seq<CheckResult>) -> Seq<CheckResultView> {
    Seq::new(results.len(), |i: int| results[i]@)
}

/// The cache that holds `results` after they were put in one after the
/// other: under each key the last result with that key.
pub open spec fn cache_of(results: Seq<CheckResultView>) -> Map<SiteKey, CheckResultView>
    decreases results.len(),
{
    if results.len() == 0 {
        Map::empty()
    } else {
        cache_of(results.drop_last()).insert(results.last().key(), results.last())
    }
}

/// Whether no two of `results` have the same key.
pub open spec fn distinct_keys(results: Seq<CheckResultView>) -> bool {
    forall|i: int, j: int|
        0 <= i < j < results.len() ==> (#[trigger] results[i]).key() != (#[trigger] results[j]).key()
}

/// The latest result of each monitor by the monitor's key.
pub struct StatusCache {
    entries: Vec<CheckResult>,
}

impl View for StatusCache {
    type V = Map<SiteKey, CheckResultView>;

    closed spec fn view(&self) -> Self::V {
        cache_of(result_views(self.entries@))
    }
}

/// One result more in the list is one insertion more in the cache.
pub proof fn lemma_cache_of_push(results: Seq<CheckResultView>, r: CheckResultView)
    ensures
        cache_of(results.push(r)) == cache_of(results).insert(r.key(), r),
{
    assert(results.push(r).drop_last() =~= results);
}

/// The cache of results with distinct keys holds each of them under its
/// key, and nothing else.
pub proof fn lemma_cache_of_distinct(results: Seq<CheckResultView>)
    requires
        distinct_keys(results),
    ensures
        forall|i: int|
            0 <= i < results.len() ==> cache_of(results).contains_key(
                (#[trigger] results[i]).key(),
            ) && cache_of(results)[results[i].key()] == results[i],
        forall|k: SiteKey|
            cache_of(results).contains_key(k) ==> exists|i: int|
                0 <= i < results.len() && (#[trigger] results[i]).key() == k,
        cache_of(results).dom().finite(),
        cache_of(results).dom().len() == results.len(),
    decreases results.len(),
{
    if results.len() > 0 {
        let head = results.drop_last();
        let last = results.last();
        let n = results.len() - 1;
        assert(results[n] == last);
        assert(distinct_keys(head)) by {
            assert forall|i: int, j: int| 0 <= i < j < head.len() implies (#[trigger] head[i]).key()
                != (#[trigger] head[j]).key() by {
                assert(head[i] == results[i]);
                assert(head[j] == results[j]);
            }
        }
        lemma_cache_of_distinct(head);
        assert(!cache_of(head).contains_key(last.key())) by {
            if cache_of(head).contains_key(last.key()) {
                let i = choose|i: int| 0 <= i < head.len() && (#[trigger] head[i]).key() == last.key();
                assert(head[i] == results[i]);
                assert(results[i].key() != results[n].key());
            }
        }
        assert forall|i: int| 0 <= i < results.len() implies cache_of(results).contains_key(
            (#[trigger] results[i]).key(),
        ) && cache_of(results)[results[i].key()] == results[i] by {
            if i < n {
                assert(head[i] == results[i]);
                assert(results[i].key() != results[n].key());
            }
        }
        assert forall|k: SiteKey| cache_of(results).contains_key(k) implies exists|i: int|
            0 <= i < results.len() && (#[trigger] results[i]).key() == k by {
            if k == last.key() {
                assert(results[n].key() == k);
            } else {
                let i = choose|i: int| 0 <= i < head.len() && (#[trigger] head[i]).key() == k;
                assert(results[i] == head[i]);
            }
        }
    }
}

impl StatusCache {
    /// The cache holds no monitor twice. Every cache that this module
    /// hands out is well formed.
    pub closed spec fn wf(self) -> bool {
        distinct_keys(result_views(self.entries@))
    }

    /// A cache without entries.
    pub fn new() -> (cache: StatusCache)
        ensures
            cache.wf(),
            cache@ == Map::<SiteKey, CheckResultView>::empty(),
    {
        StatusCache { entries: Vec::new() }
    }

    /// The number of monitors with a result in the cache.
    pub fn len(&self) -> (n: usize)
        requires
            self.wf(),
        ensures
            self@.dom().finite(),
            n == self@.dom().len(),
    {
        proof {
            lemma_cache_of_distinct(result_views(self.entries@));
        }
        self.entries.len()
    }

    /// Where the result of the monitor `(project, site)` stands, if there
    /// is one.
    fn find(&self, project: &str, site: &str) -> (at: Option<usize>)
        ensures
            match at {
                Some(i) => i < self.entries@.len() && self.entries@[i as int]@.key() == (
                    project@,
                    site@,
                ),
                None => forall|i: int|
                    0 <= i < self.entries@.len() ==> (#[trigger] self.entries@[i])@.key() != (
                        project@,
                        site@,
                    ),
            },
    {
        let mut i: usize = 0;
        while i < self.entries.len()
            invariant
                i <= self.entries@.len(),
                forall|j: int|
                    0 <= j < i ==> (#[trigger] self.entries@[j])@.key() != (project@, site@),
            decreases self.entries@.len() - i,
        {
            if str_equal(self.entries[i].project_id.as_str(), project) && str_equal(
                self.entries[i].site_key.as_str(),
                site,
            ) {
                return Some(i);
            }
            i += 1;
        }
        None
    }

    /// The latest result of the monitor `(project, site)`, if there is one.
    pub fn get(&self, project: &str, site: &str) -> (found: Option<&CheckResult>)
        requires
            self.wf(),
        ensures
            match found {
                Some(r) => self@.contains_key((project@, site@)) && r@ == self@[(project@, site@)],
                None => !self@.contains_key((project@, site@)),
            },
    {
        proof {
            lemma_cache_of_distinct(result_views(self.entries@));
        }
        match self.find(project, site) {
            Some(i) => {
                assert(result_views(self.entries@)[i as int] == self.entries@[i as int]@);
                Some(&self.entries[i])
            },
            None => {
                proof {
                    let k = (project@, site@);
                    if self@.contains_key(k) {
                        let i = choose|i: int|
                            0 <= i < self.entries@.len() && (#[trigger] result_views(
                                self.entries@,
                            )[i]).key() == k;
                        assert(self.entries@[i]@.key() == k);
                    }
                }
                None
            },
        }
    }

    /// Puts `result` in the place of whatever the cache held for its
    /// monitor; the other monitors keep their results.
    pub fn insert(&mut self, result: CheckResult)
        requires
            old(self).wf(),
        ensures
            final(self).wf(),
            final(self)@ == old(self)@.insert(result@.key(), result@),
    {
        proof {
            lemma_cache_of_distinct(result_views(self.entries@));
        }
        let ghost before = result_views(self.entries@);
        match self.find(result.project_id.as_str(), result.site_key.as_str()) {
            Some(i) => {
                self.entries[i] = result;
                proof {
                    let after = result_views(self.entries@);
                    assert(after =~= before.update(i as int, result@));
                    assert(distinct_keys(after)) by {
                        assert forall|a: int, b: int| 0 <= a < b < after.len() implies (
                        #[trigger] after[a]).key() != (#[trigger] after[b]).key() by {
                            assert(before[a].key() != before[b].key());
                        }
                    }
                    lemma_cache_of_distinct(after);
                    assert(cache_of(after) =~= cache_of(before).insert(result@.key(), result@)) by {
                        assert forall|k: SiteKey| cache_of(after).contains_key(k)
                            <==> cache_of(before).insert(result@.key(), result@).contains_key(
                            k,
                        ) by {
                            if cache_of(after).contains_key(k) {
                                let a = choose|a: int|
                                    0 <= a < after.len() && (#[trigger] after[a]).key() == k;
                                assert(before[a].key() == k);
                            }
                            if cache_of(before).contains_key(k) {
                                let a = choose|a: int|
                                    0 <= a < before.len() && (#[trigger] before[a]).key() == k;
                                assert(after[a].key() == k);
                            }
                            if k == result@.key() {
                                assert(after[i as int].key() == k);
                            }
                        }
                        assert forall|k: SiteKey| cache_of(after).contains_key(k) implies cache_of(
                            after,
                        )[k] == cache_of(before).insert(result@.key(), result@)[k] by {
                            let a = choose|a: int|
                                0 <= a < after.len() && (#[trigger] after[a]).key() == k;
                            if a != i {
                                assert(after[a] == before[a]);
                                assert(before[a].key() != before[i as int].key());
                            }
                        }
                    }
                }
            },
            None => {
                self.entries.push(result);
                proof {
                    let after = result_views(self.entries@);
                    assert(after =~= before.push(result@));
                    lemma_cache_of_push(before, result@);
                    assert(distinct_keys(after)) by {
                        assert forall|a: int, b: int| 0 <= a < b < after.len() implies (
                        #[trigger] after[a]).key() != (#[trigger] after[b]).key() by {
                            if b < before.len() {
                                assert(before[a].key() != before[b].key());
                            } else {
                                assert(old(self).entries@[a]@.key() != result@.key());
                            }
                        }
                    }
                }
            },
        }
    }

    /// The cache that `results` leave when they are put in one after the
    /// other: of two results for one monitor the later one stays.
    pub fn from_entries(results: Vec<CheckResult>) -> (cache: StatusCache)
        ensures
            cache.wf(),
            cache@ == cache_of(result_views(results@)),
    {
        let mut cache = StatusCache::new();
        let mut i: usize = 0;
        while i < results.len()
            invariant
                i <= results@.len(),
                cache.wf(),
                cache@ == cache_of(result_views(results@).take(i as int)),
            decreases results@.len() - i,
        {
            proof {
                let views = result_views(results@);
                assert(views.take(i as int + 1) =~= views.take(i as int).push(results@[i as int]@));
                lemma_cache_of_push(views.take(i as int), results@[i as int]@);
            }
            cache.insert(results[i].clone());
            i += 1;
        }
        assert(result_views(results@).take(i as int) =~= result_views(results@));
        cache
    }

    /// The cache to start from, given what was read of a snapshot: the
    /// cache that the snapshot's results leave, and an empty cache where no
    /// snapshot could be read.
    pub fn from_snapshot(snapshot: Option<Vec<CheckResult>>) -> (cache: StatusCache)
        ensures
            cache.wf(),
            cache@ == match snapshot {
                Some(results) => cache_of(result_views(results@)),
                None => Map::<SiteKey, CheckResultView>::empty(),
            },
    {
        match snapshot {
            Some(results) => StatusCache::from_entries(results),
            None => StatusCache::new(),
        }
    }

    /// A copy of every result in the cache: one for each monitor, so that
    /// putting them into an empty cache gives this cache again.
    pub fn entries(&self) -> (out: Vec<CheckResult>)
        requires
            self.wf(),
        ensures
            distinct_keys(result_views(out@)),
            cache_of(result_views(out@)) == self@,
            out@.len() == self@.dom().len(),
    {
        proof {
            lemma_cache_of_distinct(result_views(self.entries@));
        }
        let mut out: Vec<CheckResult> = Vec::new();
        let mut i: usize = 0;
        while i < self.entries.len()
            invariant
                i <= self.entries@.len(),
                result_views(out@) == result_views(self.entries@).take(i as int),
            decreases self.entries@.len() - i,
        {
            let copy = self.entries[i].clone();
            let ghost prev = out@;
            out.push(copy);
            assert(result_views(out@) =~= result_views(prev).push(copy@));
            assert(result_views(self.entries@).take(i as int + 1) =~= result_views(
                self.entries@,
            ).take(i as int).push(self.entries@[i as int]@));
            i += 1;
        }
        assert(result_views(self.entries@).take(i as int) =~= result_views(self.entries@));
        out
    }
}

} // verus!
