//! Picking the stored jobs that are due, with the scraper that serves
//! their site.

use vstd::prelude::*;
use crate::database::{Main, setting_add_spec};
use crate::e6ai::InternalScraper;
use crate::idmap::IdMap;
use crate::sharedtypes::{DbJobsObj, DbSettingObj};
use crate::time_func::time_secs;
use crate::worker::scraper_setting_name;

verus! {

/// The jobs to run: each due job by its id, with the position of its
/// scraper.
pub struct Jobs {
    _secs: usize,
    _jobref: IdMap<(DbJobsObj, usize)>,
    scrapers: Vec<InternalScraper>,
}

/// The last scraper of a list that serves a site.
pub open spec fn last_serving(scrs: Seq<InternalScraper>, site: Seq<char>) -> Option<nat>
    decreases scrs.len(),
{
    if scrs.len() == 0 {
        None
    } else if scrs.last().sites().contains(site) {
        Some((scrs.len() - 1) as nat)
    } else {
        last_serving(scrs.drop_last(), site)
    }
}

/// Whether a job is due at a time: its time plus its repeat time has come.
pub open spec fn job_due(j: DbJobsObj, now: usize) -> bool {
    now >= j.time.unwrap() + j.reptime.unwrap()
}

/// What a job is queued as, where it is due and some scraper serves its
/// site: the job with the last such scraper.
pub open spec fn due_entry(j: DbJobsObj, scrs: Seq<InternalScraper>, now: usize) -> Option<(DbJobsObj, usize)> {
    if job_due(j, now) {
        match last_serving(scrs, j.site.unwrap()@) {
            Some(k) => Some((j, k as usize)),
            None => None,
        }
    } else {
        None
    }
}

/// The jobs a list of stored jobs queues.
pub open spec fn due_map(jobs: Map<usize, DbJobsObj>, scrs: Seq<InternalScraper>, now: usize) -> Map<usize, (DbJobsObj, usize)> {
    Map::new(
        |id: usize| jobs.dom().contains(id) && due_entry(jobs[id], scrs, now).is_some(),
        |id: usize| due_entry(jobs[id], scrs, now).unwrap(),
    )
}

/// Every stored job has a time, a repeat time whose sum fits, and a site.
pub open spec fn jobs_timed(jobs: Map<usize, DbJobsObj>) -> bool {
    forall|id: usize| #[trigger] jobs.dom().contains(id) ==> {
        &&& jobs[id].time is Some
        &&& jobs[id].reptime is Some
        &&& jobs[id].site is Some
        &&& jobs[id].time.unwrap() + jobs[id].reptime.unwrap() <= usize::MAX
    }
}

impl Jobs {
    pub closed spec fn view(&self) -> Map<usize, (DbJobsObj, usize)> {
        self._jobref@
    }

    pub closed spec fn scrapers(&self) -> Seq<InternalScraper> {
        self.scrapers@
    }

    pub closed spec fn wf(&self) -> bool {
        self._jobref.wf()
    }

    /// No jobs yet, with the scrapers that can run them.
    pub fn new(scrapers: Vec<InternalScraper>) -> (r: Self)
        ensures
            r.wf(),
            r@ == Map::<usize, (DbJobsObj, usize)>::empty(),
            r.scrapers() == scrapers@,
    {
        Jobs { _secs: 0, _jobref: IdMap::new(), scrapers: scrapers }
    }

    fn last_serving_exec(&self, site: &String) -> (r: Option<usize>)
        ensures
            match r {
                Some(k) => last_serving(self.scrapers(), site@) == Some(k as nat),
                None => last_serving(self.scrapers(), site@).is_none(),
            },
    {
        let mut k = self.scrapers.len();
        assert(self.scrapers@.take(k as int) =~= self.scrapers@);
        while k > 0
            invariant
                k <= self.scrapers@.len(),
                last_serving(self.scrapers@, site@) == last_serving(self.scrapers@.take(k as int), site@),
            decreases k,
        {
            proof {
                assert(self.scrapers@.take(k as int).drop_last() =~= self.scrapers@.take(k - 1));
                assert(self.scrapers@.take(k as int).last() == self.scrapers@[k - 1]);
            }
            if self.scrapers[k - 1].serves(site) {
                return Some(k - 1);
            }
            k = k - 1;
        }
        None
    }

    /// Queues the stored jobs that are due at `now`, each with the last
    /// scraper that serves its site.
    #[verifier::spinoff_prover]
    pub fn jobs_get_at(&mut self, db: &Main, now: usize)
        requires
            old(self).wf(),
            db.wf(),
            jobs_timed(db@.jobs),
        ensures
            final(self).wf(),
            final(self)@ == old(self)@.union_prefer_right(due_map(db@.jobs, old(self).scrapers(), now)),
            final(self).scrapers() == old(self).scrapers(),
    {
        self._secs = now;
        let hashjobs = db.jobs_get_all();
        let ghost ents = hashjobs.entries();
        let ghost scrs = self.scrapers@;
        let ghost start = self@;
        proof {
            hashjobs.lemma_entries();
        }
        let n = hashjobs.len();
        let mut i: usize = 0;
        while i < n
            invariant
                self.wf(),
                hashjobs.wf(),
                hashjobs@ == db@.jobs,
                ents == hashjobs.entries(),
                n == ents.len(),
                i <= n,
                scrs == self.scrapers@,
                jobs_timed(db@.jobs),
                forall|j: int| 0 <= j < ents.len() ==> #[trigger] db@.jobs.dom().contains(ents[j].0) && db@.jobs[ents[j].0] == ents[j].1,
                crate::idmap::distinct_keys(ents),
                self@ == start.union_prefer_right(Map::new(
                    |id: usize| (exists|j: int| 0 <= j < i && ents[j].0 == id) && db@.jobs.dom().contains(id) && due_entry(db@.jobs[id], scrs, now).is_some(),
                    |id: usize| due_entry(db@.jobs[id], scrs, now).unwrap(),
                )),
            decreases n - i,
        {
            let id = hashjobs.key_at(i);
            let job = hashjobs.value_at(i);
            proof {
                assert(db@.jobs.dom().contains(ents[i as int].0));
            }
            let ghost before = self@;
            let t = match (job.time, job.reptime) {
                (Some(a), Some(b)) => a + b,
                _ => {
                    assert(false);
                    0
                },
            };
            let site = match &job.site {
                Some(s) => s,
                None => {
                    assert(false);
                    return;
                },
            };
            if now >= t {
                match self.last_serving_exec(site) {
                    Some(k) => {
                        self._jobref.insert(id, (job.copied(), k));
                    },
                    None => {},
                }
            }
            proof {
                let m_old = Map::new(
                    |x: usize| (exists|j: int| 0 <= j < i && ents[j].0 == x) && db@.jobs.dom().contains(x) && due_entry(db@.jobs[x], scrs, now).is_some(),
                    |x: usize| due_entry(db@.jobs[x], scrs, now).unwrap(),
                );
                let m_new = Map::new(
                    |x: usize| (exists|j: int| 0 <= j < i + 1 && ents[j].0 == x) && db@.jobs.dom().contains(x) && due_entry(db@.jobs[x], scrs, now).is_some(),
                    |x: usize| due_entry(db@.jobs[x], scrs, now).unwrap(),
                );
                assert forall|x: usize| #[trigger] m_new.dom().contains(x) == (m_old.dom().contains(x) || (x == id && due_entry(db@.jobs[id], scrs, now).is_some())) by {
                    if exists|j: int| 0 <= j < i + 1 && ents[j].0 == x {
                        let j = choose|j: int| 0 <= j < i + 1 && ents[j].0 == x;
                        if j < i {
                            assert(exists|j: int| 0 <= j < i && ents[j].0 == x);
                        }
                    }
                    if x == id {
                        assert(ents[i as int].0 == x);
                    }
                    if exists|j: int| 0 <= j < i && ents[j].0 == x {
                        let j = choose|j: int| 0 <= j < i && ents[j].0 == x;
                        assert(0 <= j < i + 1);
                    }
                }
                if due_entry(db@.jobs[id], scrs, now).is_some() {
                    assert(m_new =~= m_old.insert(id, due_entry(db@.jobs[id], scrs, now).unwrap()));
                    assert(self@ =~= start.union_prefer_right(m_new));
                } else {
                    assert(m_new =~= m_old);
                }
            }
            i = i + 1;
        }
        proof {
            let m = Map::new(
                |id: usize| (exists|j: int| 0 <= j < n && ents[j].0 == id) && db@.jobs.dom().contains(id) && due_entry(db@.jobs[id], scrs, now).is_some(),
                |id: usize| due_entry(db@.jobs[id], scrs, now).unwrap(),
            );
            assert forall|id: usize| #[trigger] m.dom().contains(id) == due_map(db@.jobs, scrs, now).dom().contains(id) by {
                if db@.jobs.dom().contains(id) {
                    assert(crate::idmap::has_key(ents, id));
                }
            }
            assert(m =~= due_map(db@.jobs, scrs, now));
        }
    }

    /// Queues the jobs due now, by the system clock; `false`, with nothing
    /// queued, where the clock cannot be read.
    pub fn jobs_get(&mut self, db: &Main) -> (read: bool)
        requires
            old(self).wf(),
            db.wf(),
            jobs_timed(db@.jobs),
        ensures
            final(self).wf(),
            final(self).scrapers() == old(self).scrapers(),
            !read ==> final(self)@ == old(self)@,
            read ==> exists|now: usize| final(self)@ == #[trigger] old(self)@.union_prefer_right(due_map(db@.jobs, old(self).scrapers(), now)),
    {
        match time_secs() {
            None => false,
            Some(now) => {
                self.jobs_get_at(db, now);
                true
            },
        }
    }

    /// The jobs queued for the scraper at a position, with their ids.
    pub fn jobs_for(&self, k: usize) -> (r: Vec<(usize, DbJobsObj)>)
        requires
            self.wf(),
        ensures
            forall|i: int| 0 <= i < r@.len() ==> #[trigger] self@.dom().contains(r@[i].0) && self@[r@[i].0] == (r@[i].1, k),
            forall|id: usize| #[trigger] self@.dom().contains(id) && self@[id].1 == k ==> exists|i: int| 0 <= i < r@.len() && r@[i].0 == id,
    {
        let mut out: Vec<(usize, DbJobsObj)> = Vec::new();
        let n = self._jobref.len();
        let ghost ents = self._jobref.entries();
        proof {
            self._jobref.lemma_entries();
        }
        let mut i: usize = 0;
        while i < n
            invariant
                self.wf(),
                n == ents.len(),
                ents == self._jobref.entries(),
                i <= n,
                forall|q: int| 0 <= q < out@.len() ==> #[trigger] self@.dom().contains(out@[q].0) && self@[out@[q].0] == (out@[q].1, k),
                forall|j: int| 0 <= j < i && (#[trigger] ents[j]).1.1 == k ==> exists|q: int| 0 <= q < out@.len() && out@[q].0 == ents[j].0,
            decreases n - i,
        {
            let id = self._jobref.key_at(i);
            let e = self._jobref.value_at(i);
            proof {
                self._jobref.lemma_entries();
                assert(self@.dom().contains(ents[i as int].0));
            }
            if e.1 == k {
                let ghost before = out@;
                out.push((id, e.0.copied()));
                proof {
                    assert forall|j: int| 0 <= j < i + 1 && (#[trigger] ents[j]).1.1 == k implies exists|q: int| 0 <= q < out@.len() && out@[q].0 == ents[j].0 by {
                        if j < i {
                            let q = choose|q: int| 0 <= q < before.len() && before[q].0 == ents[j].0;
                            assert(out@[q].0 == ents[j].0);
                        } else {
                            assert(out@[before.len() as int].0 == ents[j].0);
                        }
                    }
                }
            }
            i = i + 1;
        }
        proof {
            self._jobref.lemma_entries();
            assert forall|id: usize| #[trigger] self@.dom().contains(id) && self@[id].1 == k implies exists|i: int| 0 <= i < out@.len() && out@[i].0 == id by {
                assert(crate::idmap::has_key(ents, id));
                let j = choose|j: int| 0 <= j < ents.len() && ents[j].0 == id;
                assert(ents[j].1.1 == k);
            }
        }
        out
    }
}

/// The name of the setting a scraper's stored parameter is kept under:
/// its type, `_`, and its name.
pub fn scraper_setting_key(s: &InternalScraper) -> (r: String)
    ensures
        r@ == scraper_setting_name(s.scraper_type(), s.name()),
{
    let mut key = s.type_get().name();
    key.append("_");
    key.append(s.name_get().as_str());
    key
}

/// Stores a scraper's setting, holding the parameter the user gave for it,
/// unless the setting is there; `true` where it was added.
pub fn scraper_setting_ensure(db: &mut Main, s: &InternalScraper, cookie: String) -> (added: bool)
    requires
        old(db).wf(),
    ensures
        final(db).wf(),
        added == !old(db)@.settings.dom().contains(scraper_setting_name(s.scraper_type(), s.name())),
        !added ==> final(db)@ == old(db)@,
        added ==> exists|key: String, pretty: String|
            key@ == scraper_setting_name(s.scraper_type(), s.name()) && pretty@ == "Automatic Scraper"@
            && final(db)@ == #[trigger] setting_add_spec(old(db)@, DbSettingObj { name: key, pretty: Some(pretty), num: None, param: Some(cookie) }, true),
{
    let key = scraper_setting_key(s);
    match db.settings_get_name(&key) {
        Some(_) => false,
        None => {
            let pretty = String::from_str("Automatic Scraper");
            let ghost k = key;
            let ghost p = pretty;
            db.setting_add(key, Some(pretty), None, Some(cookie), true);
            assert(db@ == setting_add_spec(old(db)@, DbSettingObj { name: k, pretty: Some(p), num: None, param: Some(cookie) }, true));
            true
        },
    }
}

/// The scraper found for a site serves it, and no later one does; none is
/// found only where none serves it.
pub proof fn lemma_last_serving(scrs: Seq<InternalScraper>, site: Seq<char>)
    ensures
        match last_serving(scrs, site) {
            Some(k) => k < scrs.len() && scrs[k as int].sites().contains(site)
                && forall|j: int| k < j < scrs.len() ==> !(#[trigger] scrs[j]).sites().contains(site),
            None => forall|j: int| 0 <= j < scrs.len() ==> !(#[trigger] scrs[j]).sites().contains(site),
        },
    decreases scrs.len(),
{
    if scrs.len() > 0 && !scrs.last().sites().contains(site) {
        let t = scrs.drop_last();
        lemma_last_serving(t, site);
        match last_serving(t, site) {
            Some(k) => {
                assert(scrs[k as int] == t[k as int]);
                assert forall|j: int| k < j < scrs.len() implies !(#[trigger] scrs[j]).sites().contains(site) by {
                    if j < scrs.len() - 1 {
                        assert(scrs[j] == t[j]);
                    }
                }
            },
            None => {
                assert forall|j: int| 0 <= j < scrs.len() implies !(#[trigger] scrs[j]).sites().contains(site) by {
                    if j < scrs.len() - 1 {
                        assert(scrs[j] == t[j]);
                    }
                }
            },
        }
    }
}

/// A stored job is queued at a time exactly when its time plus its repeat
/// time has come and some scraper serves its site; it is queued with the
/// last scraper of the list that serves the site.
pub proof fn law_jobs_due(jobs: Map<usize, DbJobsObj>, scrs: Seq<InternalScraper>, now: usize, id: usize)
    requires
        jobs_timed(jobs),
        jobs.dom().contains(id),
        scrs.len() <= usize::MAX,
    ensures
        due_map(jobs, scrs, now).dom().contains(id) <==> (
            now >= jobs[id].time.unwrap() + jobs[id].reptime.unwrap()
            && exists|k: int| 0 <= k < scrs.len() && (#[trigger] scrs[k]).sites().contains(jobs[id].site.unwrap()@)),
        due_map(jobs, scrs, now).dom().contains(id) ==> ({
            let k = due_map(jobs, scrs, now)[id].1 as int;
            &&& due_map(jobs, scrs, now)[id].0 == jobs[id]
            &&& 0 <= k < scrs.len()
            &&& scrs[k].sites().contains(jobs[id].site.unwrap()@)
            &&& forall|j: int| k < j < scrs.len() ==> !(#[trigger] scrs[j]).sites().contains(jobs[id].site.unwrap()@)
        }),
{
    lemma_last_serving(scrs, jobs[id].site.unwrap()@);
}

} // verus!
