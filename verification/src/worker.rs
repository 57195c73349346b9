//! The decisions a scraping worker makes: the scraper job a stored job
//! becomes, the urls it asks for, what a parser's answer means for the job,
//! whether a file must be downloaded, and how scraped tags enter the
//! database. The worker's loop, its downloads and its waits are the
//! caller's.

use vstd::prelude::*;
use crate::database::{
    DbView, Main, files_of_tag, namespace_add_spec, ns_id_for, parents_add_spec, relationship_add_spec,
    tag_add_spec, tag_id_for, file_add_spec, flushed, with_op, OpView, view_wf, tag_is, lemma_ns_id_for, lemma_tag_id_for,
    file_id_for, lemma_file_id_for,
};
use crate::db_laws::{lemma_file_add_step, lemma_namespace_add_step, lemma_tag_add_step};
use crate::sharedtypes::{
    DbJobType, DbJobsObj, DbParentsObj, JobScraper, JobV, ParamV, ScraperParam, ScraperParamType,
    ScraperReturn, ScraperType, SkipIf, SkipV, TagObject, TagType, job_v, param_v, scraper_type_name_spec, DbRelationshipObj,
};

verus! {

/// Whether a character has the Unicode `White_Space` property, as
/// `char::is_whitespace` reads it: tab to carriage return, space, next
/// line, no-break space, ogham space mark, the spaces from en quad to hair
/// space, the line and paragraph separators, narrow no-break space, medium
/// mathematical space and ideographic space.
pub open spec fn white_space(c: char) -> bool {
    let n = c as u32;
    ||| 0x9 <= n <= 0xD
    ||| n == 0x20
    ||| n == 0x85
    ||| n == 0xA0
    ||| n == 0x1680
    ||| 0x2000 <= n <= 0x200A
    ||| n == 0x2028
    ||| n == 0x2029
    ||| n == 0x202F
    ||| n == 0x205F
    ||| n == 0x3000
}

/// Whether a character is white space (see `white_space`).
pub fn is_white(c: char) -> (b: bool)
    ensures
        b == white_space(c),
{
    let n = c as u32;
    (0x9 <= n && n <= 0xD) || n == 0x20 || n == 0x85 || n == 0xA0 || n == 0x1680
        || (0x2000 <= n && n <= 0x200A) || n == 0x2028 || n == 0x2029 || n == 0x202F
        || n == 0x205F || n == 0x3000
}

/// The words found so far in the first `n` characters, and the word being
/// read.
pub open spec fn words_upto(s: Seq<char>, n: nat) -> (Seq<Seq<char>>, Seq<char>)
    decreases n,
{
    if n == 0 || n > s.len() {
        (Seq::empty(), Seq::empty())
    } else {
        let (ws, cur) = words_upto(s, (n - 1) as nat);
        let c = s[n - 1];
        if white_space(c) {
            if cur.len() > 0 { (ws.push(cur), Seq::empty()) } else { (ws, cur) }
        } else {
            (ws, cur.push(c))
        }
    }
}

/// The words of a text: its runs of characters between white space
/// (`split_whitespace`).
pub open spec fn words(s: Seq<char>) -> Seq<Seq<char>> {
    let (ws, cur) = words_upto(s, s.len());
    if cur.len() > 0 { ws.push(cur) } else { ws }
}

pub open spec fn strs_v(v: Seq<String>) -> Seq<Seq<char>> {
    v.map_values(|s: String| s@)
}

/// The words of a text.
pub fn split_words(s: &str) -> (r: Vec<String>)
    ensures
        strs_v(r@) == words(s@),
{
    let cs = crate::text::chars_of(s);
    let mut ws: Vec<String> = Vec::new();
    let mut cur = String::new();
    let mut i: usize = 0;
    while i < cs.len()
        invariant
            cs@ == s@,
            i <= cs@.len(),
            (strs_v(ws@), cur@) == words_upto(s@, i as nat),
        decreases cs@.len() - i,
    {
        let c = cs[i];
        let ghost before = ws@;
        if is_white(c) {
            if cur.unicode_len() > 0 {
                let mut done = String::new();
                std::mem::swap(&mut done, &mut cur);
                ws.push(done);
                assert(strs_v(ws@) =~= strs_v(before).push(done@));
            }
        } else {
            crate::text::push_char(&mut cur, c);
        }
        i = i + 1;
    }
    if cur.unicode_len() > 0 {
        let ghost before = ws@;
        ws.push(cur);
        assert(strs_v(ws@) =~= strs_v(before).push(cur@));
    }
    ws
}

/// The setting a scraper keeps its stored parameter under: its type's
/// name, `_`, and its name.
pub open spec fn scraper_setting_name(t: ScraperType, name: Seq<char>) -> Seq<char> {
    scraper_type_name_spec(t) + "_"@ + name
}

/// The scraper job a stored job becomes: its words as normal parameters,
/// then the scraper's stored parameter, where it has one, as a database
/// parameter.
pub open spec fn job_scraper_spec(v: DbView, job: DbJobsObj, t: ScraperType, name: Seq<char>) -> JobV {
    let normal = words(job.param.unwrap()@).map_values(|w: Seq<char>| ParamV { data: w, ptype: ScraperParamType::Normal });
    let stored = v.settings[scraper_setting_name(t, name)].param;
    JobV {
        site: job.site.unwrap()@,
        param: match stored {
            Some(p) => normal.push(ParamV { data: p, ptype: ScraperParamType::Database }),
            None => normal,
        },
        original: job.param.unwrap()@,
        job_type: job.jobtype,
    }
}

/// Builds the scraper job for a stored job. The job has a site and a
/// parameter, and the scraper's setting is stored.
pub fn job_scraper(db: &Main, job: &DbJobsObj, scraper_type: ScraperType, scraper_name: &String) -> (r: JobScraper)
    requires
        db.wf(),
        job.param is Some,
        job.site is Some,
        db@.settings.dom().contains(scraper_setting_name(scraper_type, scraper_name@)),
    ensures
        job_v(r) == job_scraper_spec(db@, *job, scraper_type, scraper_name@),
{
    let (param, site) = match (&job.param, &job.site) {
        (Some(p), Some(s)) => (p, s),
        _ => {
            assert(false);
            return JobScraper { site: String::new(), param: Vec::new(), original_param: String::new(), job_type: job.jobtype };
        },
    };
    let ws = split_words(param.as_str());
    let mut par_vec: Vec<ScraperParam> = Vec::new();
    let mut i: usize = 0;
    while i < ws.len()
        invariant
            i <= ws@.len(),
            par_vec@.map_values(|p: ScraperParam| param_v(p))
                == strs_v(ws@).take(i as int).map_values(|w: Seq<char>| ParamV { data: w, ptype: ScraperParamType::Normal }),
        decreases ws@.len() - i,
    {
        let ghost before = par_vec@;
        par_vec.push(ScraperParam { param_data: ws[i].clone(), param_type: ScraperParamType::Normal });
        proof {
            assert(strs_v(ws@).take(i + 1) =~= strs_v(ws@).take(i as int).push(ws@[i as int]@));
            assert(par_vec@.map_values(|p: ScraperParam| param_v(p)) =~= before.map_values(|p: ScraperParam| param_v(p)).push(ParamV { data: ws@[i as int]@, ptype: ScraperParamType::Normal }));
        }
        i = i + 1;
    }
    assert(strs_v(ws@).take(ws@.len() as int) =~= strs_v(ws@));
    let mut key = scraper_type.name();
    key.append("_");
    key.append(scraper_name.as_str());
    let ghost normal = par_vec@.map_values(|p: ScraperParam| param_v(p));
    match db.settings_get_name(&key) {
        Some(st) => match &st.param {
            Some(p) => {
                par_vec.push(ScraperParam { param_data: p.clone(), param_type: ScraperParamType::Database });
                assert(par_vec@.map_values(|p: ScraperParam| param_v(p)) =~= normal.push(ParamV { data: p@, ptype: ScraperParamType::Database }));
            },
            None => {},
        },
        None => {
            assert(false);
        },
    }
    JobScraper { site: site.clone(), param: par_vec, original_param: param.clone(), job_type: job.jobtype }
}

/// Where the urls of a scraper job come from.
pub enum UrlSource {
    /// The scraper's own list of urls for these parameters.
    Scraper(Vec<ScraperParam>),
    /// These urls.
    Urls(Vec<String>),
    /// Nothing to fetch.
    Skip,
}

/// Where a job's urls come from: the scraper for parameters, the words of
/// the parameter for file urls, the parameter itself for a scraper url;
/// plugin jobs fetch nothing.
pub fn job_urls(job: &JobScraper) -> (r: UrlSource)
    ensures
        match job.job_type {
            DbJobType::Params => r matches UrlSource::Scraper(ps) && ps@.map_values(|p: ScraperParam| param_v(p)) == job_v(*job).param,
            DbJobType::Plugin => r is Skip,
            DbJobType::FileUrl => r matches UrlSource::Urls(us) && strs_v(us@) == words(job.original_param@),
            DbJobType::Scraper => r matches UrlSource::Urls(us) && strs_v(us@) == seq![job.original_param@],
        },
{
    match job.job_type {
        DbJobType::Params => UrlSource::Scraper(job.copied().param),
        DbJobType::Plugin => UrlSource::Skip,
        DbJobType::FileUrl => UrlSource::Urls(split_words(job.original_param.as_str())),
        DbJobType::Scraper => {
            let us = vec![job.original_param.clone()];
            assert(strs_v(us@) =~= seq![job.original_param@]);
            UrlSource::Urls(us)
        },
    }
}

/// What a worker does when a parser returns no object.
pub enum WorkerAction {
    /// Drop the job and leave its urls.
    EndJob,
    /// Drop the job, and fetch the url again.
    DropJobRetry,
    /// Wait this many seconds and fetch the url again.
    WaitRetry(u64),
    /// Stop everything, for this reason.
    Halt(String),
}

/// The action for a parser's reason: nothing ends the job, a stop drops it
/// (the url is fetched again), a timeout waits, an emergency stop halts.
pub fn return_action(r: &ScraperReturn) -> (a: WorkerAction)
    ensures
        match r {
            ScraperReturn::Nothing => a is EndJob,
            ScraperReturn::EMCStop(m) => a matches WorkerAction::Halt(h) && h@ == m@,
            ScraperReturn::Stop(_) => a is DropJobRetry,
            ScraperReturn::Timeout(t) => a == WorkerAction::WaitRetry(*t),
        },
{
    match r {
        ScraperReturn::Nothing => WorkerAction::EndJob,
        ScraperReturn::EMCStop(m) => WorkerAction::Halt(m.clone()),
        ScraperReturn::Stop(_) => WorkerAction::DropJobRetry,
        ScraperReturn::Timeout(t) => WorkerAction::WaitRetry(*t),
    }
}

/// Room for two new namespaces and two new tags.
pub open spec fn room_for_tags(v: DbView) -> bool {
    v.ns_next + 2 <= usize::MAX && v.tag_next + 2 <= usize::MAX
}

/// What a normal tag does to the database: its namespace and tag added,
/// the tag it relates to (with its namespace) added and made its parent,
/// and the file, if any, related to it.
pub open spec fn normal_tag_spec(v: DbView, tag: TagObject, file_id: Option<usize>) -> DbView {
    let (ns, v1) = namespace_add_spec(v, tag.namespace.name, tag.namespace.description, true);
    let (tid, v2) = tag_add_spec(v1, tag.tag, ns, true, None);
    let v3 = match tag.relates_to {
        None => v2,
        Some(rel) => {
            let (rns, w1) = namespace_add_spec(v2, rel.namespace.name, rel.namespace.description, true);
            let (rid, w2) = tag_add_spec(w1, rel.tag, rns, true, None);
            parents_add_spec(w2, DbParentsObj { tag_namespace_id: ns, tag_id: tid, relate_tag_id: rid, relate_namespace_id: rns }, true)
        },
    };
    match file_id {
        None => v3,
        Some(id) => relationship_add_spec(v3, id, tid, true),
    }
}

/// Whether a url job is to be run: always without a skip condition;
/// with one, unless its tag is known (and, where asked, has a file).
pub open spec fn url_job_needed(v: DbView, skip: SkipV) -> bool {
    match skip {
        SkipV::Never => true,
        SkipV::Tag { tag, namespace, needsrelationship } => match ns_id_for(v.namespaces, namespace.name) {
            None => true,
            Some(nid) => match tag_id_for(v.tags, tag, nid) {
                None => true,
                Some(tid) => needsrelationship && files_of_tag(v, tid).is_empty(),
            },
        },
    }
}

/// The url jobs a tag yields.
pub open spec fn tag_jobs_spec(v: DbView, tag: TagObject) -> Seq<JobV> {
    match tag.tag_type {
        TagType::ParseUrl(job, skip) => if url_job_needed(v, crate::sharedtypes::skip_v(skip)) { seq![job_v(job)] } else { Seq::empty() },
        _ => Seq::empty(),
    }
}

/// Entering a normal tag stores it under its namespace and, where a file
/// is given, makes the file carry it. Where it relates to another tag,
/// that tag is stored under its own namespace too and the scraped tag is
/// made its child: the parent row has the scraped tag (and its namespace)
/// on the tag side and the tag it relates to (and its namespace) on the
/// relate side.
pub proof fn law_parse_tags_parent(v: DbView, tag: TagObject, file_id: Option<usize>)
    requires
        view_wf(v),
        room_for_tags(v),
        tag.tag_type matches TagType::Normal,
    ensures
        ({
            let w = parse_tags_state(v, tag, file_id);
            ns_id_for(w.namespaces, tag.namespace.name@) matches Some(ns)
            && tag_id_for(w.tags, tag.tag@, ns) matches Some(tid)
            && (file_id matches Some(f) ==> w.relationships.contains(DbRelationshipObj { fileid: f, tagid: tid }))
            && (tag.relates_to matches Some(rel) ==> {
                ns_id_for(w.namespaces, rel.namespace.name@) matches Some(rns)
                && tag_id_for(w.tags, rel.tag@, rns) matches Some(rid)
                && w.parents.contains(DbParentsObj { tag_namespace_id: ns, tag_id: tid, relate_tag_id: rid, relate_namespace_id: rns })
            })
        }),
{
    lemma_namespace_add_step(v, tag.namespace.name, tag.namespace.description);
    let (ns, v1) = namespace_add_spec(v, tag.namespace.name, tag.namespace.description, true);
    lemma_tag_add_step(v1, tag.tag, ns);
    let (tid, v2) = tag_add_spec(v1, tag.tag, ns, true, None);
    let w = parse_tags_state(v, tag, file_id);
    match tag.relates_to {
        None => {
            assert(w.namespaces == v2.namespaces && w.tags == v2.tags);
            lemma_ns_id_for(v2.namespaces, ns, tag.namespace.name@);
            lemma_tag_id_for(v2.tags, tid, tag.tag@, ns);
        },
        Some(rel) => {
            lemma_namespace_add_step(v2, rel.namespace.name, rel.namespace.description);
            let (rns, w1) = namespace_add_spec(v2, rel.namespace.name, rel.namespace.description, true);
            lemma_tag_add_step(w1, rel.tag, rns);
            let (rid, w2) = tag_add_spec(w1, rel.tag, rns, true, None);
            let p = DbParentsObj { tag_namespace_id: ns, tag_id: tid, relate_tag_id: rid, relate_namespace_id: rns };
            let w3 = parents_add_spec(w2, p, true);
            assert(w3.namespaces == w2.namespaces && w3.tags == w2.tags && w3.parents.contains(p));
            assert(w.namespaces == w2.namespaces && w.tags == w2.tags && w.parents == w3.parents);
            assert(w2.namespaces.dom().contains(ns) && w2.namespaces[ns].name@ == tag.namespace.name@);
            assert(w2.tags.dom().contains(tid) && tag_is(w2.tags[tid], tag.tag@, ns));
            lemma_ns_id_for(w2.namespaces, ns, tag.namespace.name@);
            lemma_ns_id_for(w2.namespaces, rns, rel.namespace.name@);
            lemma_tag_id_for(w2.tags, tid, tag.tag@, ns);
            lemma_tag_id_for(w2.tags, rid, rel.tag@, rns);
        },
    }
}

/// What a tag leaves: a normal tag enters the database; the others leave
/// it as it is.
pub open spec fn parse_tags_state(v: DbView, tag: TagObject, file_id: Option<usize>) -> DbView {
    match tag.tag_type {
        TagType::Normal => normal_tag_spec(v, tag, file_id),
        _ => v,
    }
}

fn add_namespace_tag(db: &mut Main, name: String, description: Option<String>, tag: String) -> (r: (usize, usize))
    requires
        old(db).wf(),
        old(db)@.ns_next < usize::MAX,
        old(db)@.tag_next < usize::MAX,
    ensures
        final(db).wf(),
        final(db)@.ns_next <= old(db)@.ns_next + 1,
        final(db)@.tag_next <= old(db)@.tag_next + 1,
        ({
            let (ns, v1) = namespace_add_spec(old(db)@, name, description, true);
            let (tid, v2) = tag_add_spec(v1, tag, ns, true, None);
            r == (ns, tid) && final(db)@ == v2
        }),
{
    let ns = db.namespace_add(name, description, true);
    let tid = db.tag_add(tag, ns, true, None);
    (ns, tid)
}

/// Enters a scraped tag into the database and gives the url jobs it
/// yields: a normal tag is added with its namespace, made the child of
/// the tag it relates to, and related to the file; a url tag yields its
/// job unless its skip condition holds.
pub fn parse_tags(db: &mut Main, tag: TagObject, file_id: Option<usize>) -> (r: Vec<JobScraper>)
    requires
        old(db).wf(),
        room_for_tags(old(db)@),
    ensures
        final(db).wf(),
        final(db)@ == parse_tags_state(old(db)@, tag, file_id),
        r@.map_values(|j: JobScraper| job_v(j)) == tag_jobs_spec(old(db)@, tag),
{
    let ghost v0 = db@;
    let ghost t0 = tag;
    let mut url_return: Vec<JobScraper> = Vec::new();
    match tag.tag_type {
        TagType::Normal => {
            let (namespace_id, tag_id) = add_namespace_tag(db, tag.namespace.name, tag.namespace.description, tag.tag);
            match tag.relates_to {
                None => {},
                Some(relate) => {
                    let (relate_ns_id, relate_id) = add_namespace_tag(db, relate.namespace.name, relate.namespace.description, relate.tag);
                    db.parents_add(namespace_id, tag_id, relate_ns_id, relate_id, true);
                },
            }
            match file_id {
                None => {},
                Some(id) => db.relationship_add(id, tag_id, true),
            }
            assert(url_return@.map_values(|j: JobScraper| job_v(j)) =~= Seq::empty());
            url_return
        },
        TagType::ParseUrl(jobscraped, skippy) => {
            let ghost jv = job_v(jobscraped);
            let needed = match skippy {
                SkipIf::Never => true,
                SkipIf::Tag(taginfo) => match db.namespace_get(&taginfo.namespace.name) {
                    None => true,
                    Some(id) => match db.tag_get_name(taginfo.tag, id) {
                        None => true,
                        Some(tag_id) => {
                            if taginfo.needsrelationship {
                                db.relationship_get_fileid(&tag_id).is_none()
                            } else {
                                false
                            }
                        },
                    },
                },
            };
            if needed {
                url_return.push(jobscraped);
                assert(url_return@.map_values(|j: JobScraper| job_v(j)) =~= seq![jv]);
            } else {
                assert(url_return@.map_values(|j: JobScraper| job_v(j)) =~= Seq::empty());
            }
            url_return
        },
        TagType::Special => {
            assert(url_return@.map_values(|j: JobScraper| job_v(j)) =~= Seq::empty());
            url_return
        },
    }
}

/// The namespace urls of files are kept under, added where missing.
pub fn source_url_namespace(db: &mut Main) -> (r: usize)
    requires
        old(db).wf(),
        old(db)@.ns_next < usize::MAX,
    ensures
        final(db).wf(),
        exists|name: String, d: String| name@ == "source_url"@ && d@ == "Source URL for a file."@
            && (r, final(db)@) == #[trigger] namespace_add_spec(old(db)@, name, Some(d), true),
        ns_id_for(final(db)@.namespaces, "source_url"@) == Some(r),
{
    let name = String::from_str("source_url");
    let d = String::from_str("Source URL for a file.");
    match db.namespace_get(&name) {
        Some(id) => {
            assert(namespace_add_spec(db@, name, Some(d), true) == (id, db@));
            id
        },
        None => db.namespace_add(name, Some(d), true),
    }
}

/// Every file related to the tag of a source url is stored.
pub open spec fn url_files_stored(v: DbView, source: Seq<char>, ns: usize) -> bool {
    match tag_id_for(v.tags, source, ns) {
        Some(t) => forall|f: usize| #[trigger] files_of_tag(v, t).contains(f) ==> v.files.dom().contains(f),
        None => true,
    }
}

/// The file already stored for a source url: a file of the url's tag,
/// where the url is known and has one.
pub fn known_file(db: &Main, source: &String, ns: usize) -> (r: Option<usize>)
    requires
        db.wf(),
        url_files_stored(db@, source@, ns),
    ensures
        match tag_id_for(db@.tags, source@, ns) {
            None => r.is_none(),
            Some(t) => match r {
                Some(f) => files_of_tag(db@, t).contains(f) && db@.files.dom().contains(f),
                None => files_of_tag(db@, t).is_empty(),
            },
        },
{
    match db.tag_get_name(source.clone(), ns) {
        None => None,
        Some(url_id) => db.relationship_get_one_fileid(&url_id),
    }
}

/// Records a downloaded file: the file stored and queued, the source url
/// added as a tag of its namespace, and the two related. Gives the file's
/// id.
pub fn file_registered(db: &mut Main, hash: &String, ext: &String, location: &String, source: String, ns: usize) -> (r: usize)
    requires
        old(db).wf(),
        old(db)@.file_next < usize::MAX,
        old(db)@.tag_next < usize::MAX,
    ensures
        final(db).wf(),
        ({
            let (fid, v1) = file_add_spec(old(db)@, None, *hash, *ext, *location, true);
            let (tid, v2) = tag_add_spec(v1, source, ns, true, None);
            r == fid && final(db)@ == relationship_add_spec(v2, fid, tid, true)
        }),
{
    let fileid = db.file_add(None, hash, ext, location, true);
    let tagid = db.tag_add(source, ns, true, None);
    db.relationship_add(fileid, tagid, true);
    fileid
}

/// Recording a download leaves the file found by its hash under the id
/// given back, the source url found as a tag of the namespace, and the file
/// carrying that tag.
pub proof fn law_file_registered(v: DbView, hash: String, ext: String, location: String, source: String, ns: usize)
    requires
        view_wf(v),
        v.file_next < usize::MAX,
        v.tag_next < usize::MAX,
    ensures
        ({
            let (fid, v1) = file_add_spec(v, None, hash, ext, location, true);
            let (tid, v2) = tag_add_spec(v1, source, ns, true, None);
            let w = relationship_add_spec(v2, fid, tid, true);
            &&& file_id_for(w.files, hash@) == Some(fid)
            &&& (tag_id_for(w.tags, source@, ns) matches Some(t)
                && w.relationships.contains(DbRelationshipObj { fileid: fid, tagid: t }))
        }),
{
    lemma_file_add_step(v, hash, ext, location);
    let (fid, v1) = file_add_spec(v, None, hash, ext, location, true);
    assert(view_wf(v1));
    assert(v1.files.dom().contains(fid) && v1.files[fid].hash@ == hash@);
    lemma_tag_add_step(v1, source, ns);
    let (tid, v2) = tag_add_spec(v1, source, ns, true, None);
    assert(v2.files == v1.files);
    lemma_file_id_for(v2.files, fid, hash@);
    lemma_tag_id_for(v2.tags, tid, source@, ns);
}

/// Closes a finished job: its rows are deleted from the file (by its
/// parameter) and the pending writes flushed.
pub fn job_finished(db: &mut Main, original_param: &String)
    requires
        old(db).wf(),
    ensures
        final(db).wf(),
        final(db)@ == flushed(with_op(old(db)@, OpView::Execute("DELETE FROM Jobs WHERE "@ + "param"@ + " LIKE '"@ + original_param@ + "'"@))),
{
    db.del_from_jobs_table(&String::from_str("param"), original_param);
    db.transaction_flush();
}

/// The views of a list of jobs.
pub open spec fn jobs_v(l: Seq<JobScraper>) -> Seq<JobV> {
    l.map_values(|j: JobScraper| job_v(j))
}

/// Whether two jobs are the same: site, parameters, original parameter and
/// type alike.
pub fn job_same(a: &JobScraper, b: &JobScraper) -> (r: bool)
    ensures
        r == (job_v(*a) == job_v(*b)),
{
    if a.site != b.site || a.original_param != b.original_param || a.job_type != b.job_type || a.param.len() != b.param.len() {
        proof {
            if job_v(*a) == job_v(*b) {
                assert(job_v(*a).param.len() == a.param@.len());
            }
        }
        return false;
    }
    let mut i: usize = 0;
    while i < a.param.len()
        invariant
            i <= a.param@.len(),
            a.param@.len() == b.param@.len(),
            forall|k: int| 0 <= k < i ==> param_v(#[trigger] a.param@[k]) == param_v(b.param@[k]),
        decreases a.param@.len() - i,
    {
        if a.param[i].param_data != b.param[i].param_data || a.param[i].param_type != b.param[i].param_type {
            proof {
                if job_v(*a) == job_v(*b) {
                    assert(job_v(*a).param[i as int] == param_v(a.param@[i as int]));
                    assert(job_v(*b).param[i as int] == param_v(b.param@[i as int]));
                }
            }
            return false;
        }
        i = i + 1;
    }
    assert(job_v(*a).param =~= job_v(*b).param);
    true
}

/// Adds a job to a list of jobs unless the same job is there already;
/// returns whether it was added.
pub fn job_list_add(list: &mut Vec<JobScraper>, job: JobScraper) -> (added: bool)
    ensures
        added == !jobs_v(old(list)@).contains(job_v(job)),
        jobs_v(final(list)@) == (if added { jobs_v(old(list)@).push(job_v(job)) } else { jobs_v(old(list)@) }),
{
    let mut i: usize = 0;
    while i < list.len()
        invariant
            i <= list@.len(),
            list@ == old(list)@,
            forall|k: int| 0 <= k < i ==> job_v(#[trigger] list@[k]) != job_v(job),
        decreases list@.len() - i,
    {
        if job_same(&list[i], &job) {
            assert(jobs_v(list@)[i as int] == job_v(job));
            return false;
        }
        i = i + 1;
    }
    proof {
        assert forall|k: int| 0 <= k < jobs_v(list@).len() implies jobs_v(list@)[k] != job_v(job) by {
            assert(jobs_v(list@)[k] == job_v(list@[k]));
        }
    }
    let ghost g = job;
    list.push(job);
    assert(jobs_v(list@) =~= jobs_v(old(list)@).push(job_v(g)));
    true
}

/// Takes every copy of a job out of a list of jobs, keeping the others in
/// order.
pub fn job_list_remove(list: &mut Vec<JobScraper>, job: &JobScraper)
    ensures
        jobs_v(final(list)@) == jobs_v(old(list)@).filter(|j: JobV| j != job_v(*job)),
{
    let ghost orig = list@;
    let mut kept: Vec<JobScraper> = Vec::new();
    let mut rest: Vec<JobScraper> = Vec::new();
    std::mem::swap(&mut rest, list);
    let mut i: usize = 0;
    let n = rest.len();
    while rest.len() > 0
        invariant
            i <= n,
            n == orig.len(),
            rest@ == orig.subrange(i as int, n as int),
            jobs_v(kept@) == jobs_v(orig.take(i as int)).filter(|j: JobV| j != job_v(*job)),
        decreases rest@.len(),
    {
        let x = rest.remove(0);
        proof {
            assert(x == orig[i as int]);
            assert(jobs_v(orig.take(i + 1)) =~= jobs_v(orig.take(i as int)).push(job_v(x)));
            assert(jobs_v(orig.take(i + 1)).filter(|j: JobV| j != job_v(*job))
                == jobs_v(orig.take(i as int)).push(job_v(x)).filter(|j: JobV| j != job_v(*job)));
            jobs_v(orig.take(i as int)).lemma_filter_push(job_v(x), |j: JobV| j != job_v(*job));
        }
        let ghost kb = kept@;
        if !job_same(&x, job) {
            kept.push(x);
            assert(jobs_v(kept@) =~= jobs_v(kb).push(job_v(x)));
        }
        i = i + 1;
        assert(rest@ =~= orig.subrange(i as int, n as int));
    }
    assert(orig.take(n as int) =~= orig);
    *list = kept;
}

} // verus!
