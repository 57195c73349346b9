//! The database: in-memory tables that answer every query, and an outbox of
//! SQL statements that the caller runs against the sqlite file in order.

use vstd::prelude::*;
use std::collections::HashSet;
use crate::idmap::{IdMap, has_key};
use crate::tables::{RelTable, VecSet, SettingsTable};
use crate::time_func::{is_now, is_now_text, time_conv, time_conv_checked, time_conv_spec, time_secs};
use crate::text::{chars_of, parse_usize, parse_usize_spec};
use crate::sharedtypes::{copy_opt_string, CommitType, DbFileObj, DbJobType, DbJobsObj, DbNamespaceObj, DbParentsObj, DbRelationshipObj, DbSettingObj, DbTagNNS, LoadDBTable, SearchHolder, SearchObj, DbSearchObject, DbSearchQuery};

verus! {

broadcast use vstd::std_specs::hash::group_hash_axioms;

/// A statement for the sqlite file, with its parameters.
#[derive(Debug, Clone)]
pub enum SqlOp {
    Begin,
    Commit,
    Vacuum,
    SynchronousOff,
    /// A statement given as text (table creation, renames, drops, deletes).
    Execute(String),
    InsertFile { id: usize, hash: String, ext: String, location: String },
    InsertNamespace { id: usize, name: String, description: Option<String> },
    InsertTag { id: usize, name: String, namespace: usize },
    /// A tag row carried over whole, its parents column included.
    InsertTagRow { id: usize, name: String, parents: String, namespace: usize },
    InsertRelationship { file: usize, tag: usize },
    InsertParent { tag_namespace_id: usize, tag_id: usize, relate_namespace_id: usize, relate_tag_id: usize },
    UpsertSetting { name: String, pretty: Option<String>, num: Option<usize>, param: Option<String> },
    InsertJob { time: usize, reptime: usize, site: String, param: String, committype: CommitType, jobtype: DbJobType },
    DeleteRelationship { file: usize, tag: usize },
    DeleteParent { tag_id: usize, relate_tag_id: usize },
    DeleteTag { id: usize },
    DeleteNamespace { id: usize },
}


/// A queued statement as the specifications see it: texts by their
/// characters.
pub enum OpView {
    Begin,
    Commit,
    Vacuum,
    SynchronousOff,
    Execute(Seq<char>),
    InsertFile { id: usize, hash: Seq<char>, ext: Seq<char>, location: Seq<char> },
    InsertNamespace { id: usize, name: Seq<char>, description: Option<Seq<char>> },
    InsertTag { id: usize, name: Seq<char>, namespace: usize },
    InsertTagRow { id: usize, name: Seq<char>, parents: Seq<char>, namespace: usize },
    InsertRelationship { file: usize, tag: usize },
    InsertParent { tag_namespace_id: usize, tag_id: usize, relate_namespace_id: usize, relate_tag_id: usize },
    UpsertSetting { name: Seq<char>, pretty: Option<Seq<char>>, num: Option<usize>, param: Option<Seq<char>> },
    InsertJob { time: usize, reptime: usize, site: Seq<char>, param: Seq<char>, committype: CommitType, jobtype: DbJobType },
    DeleteRelationship { file: usize, tag: usize },
    DeleteParent { tag_id: usize, relate_tag_id: usize },
    DeleteTag { id: usize },
    DeleteNamespace { id: usize },
}

pub open spec fn opt_view(o: Option<String>) -> Option<Seq<char>> {
    match o {
        Some(s) => Some(s@),
        None => None,
    }
}

pub open spec fn op_view(op: SqlOp) -> OpView {
    match op {
        SqlOp::Begin => OpView::Begin,
        SqlOp::Commit => OpView::Commit,
        SqlOp::Vacuum => OpView::Vacuum,
        SqlOp::SynchronousOff => OpView::SynchronousOff,
        SqlOp::Execute(t) => OpView::Execute(t@),
        SqlOp::InsertFile { id, hash, ext, location } => OpView::InsertFile { id: id, hash: hash@, ext: ext@, location: location@ },
        SqlOp::InsertNamespace { id, name, description } => OpView::InsertNamespace { id: id, name: name@, description: opt_view(description) },
        SqlOp::InsertTag { id, name, namespace } => OpView::InsertTag { id: id, name: name@, namespace: namespace },
        SqlOp::InsertTagRow { id, name, parents, namespace } => OpView::InsertTagRow { id: id, name: name@, parents: parents@, namespace: namespace },
        SqlOp::InsertRelationship { file, tag } => OpView::InsertRelationship { file: file, tag: tag },
        SqlOp::InsertParent { tag_namespace_id, tag_id, relate_namespace_id, relate_tag_id } => OpView::InsertParent {
            tag_namespace_id: tag_namespace_id, tag_id: tag_id, relate_namespace_id: relate_namespace_id, relate_tag_id: relate_tag_id },
        SqlOp::UpsertSetting { name, pretty, num, param } => OpView::UpsertSetting { name: name@, pretty: opt_view(pretty), num: num, param: opt_view(param) },
        SqlOp::InsertJob { time, reptime, site, param, committype, jobtype } => OpView::InsertJob {
            time: time, reptime: reptime, site: site@, param: param@, committype: committype, jobtype: jobtype },
        SqlOp::DeleteRelationship { file, tag } => OpView::DeleteRelationship { file: file, tag: tag },
        SqlOp::DeleteParent { tag_id, relate_tag_id } => OpView::DeleteParent { tag_id: tag_id, relate_tag_id: relate_tag_id },
        SqlOp::DeleteTag { id } => OpView::DeleteTag { id: id },
        SqlOp::DeleteNamespace { id } => OpView::DeleteNamespace { id: id },
    }
}

/// A setting as the specifications see it.
pub struct SettingView {
    pub name: Seq<char>,
    pub pretty: Option<Seq<char>>,
    pub num: Option<usize>,
    pub param: Option<Seq<char>>,
}

pub open spec fn setting_view(s: DbSettingObj) -> SettingView {
    SettingView { name: s.name@, pretty: opt_view(s.pretty), num: s.num, param: opt_view(s.param) }
}

/// The abstract state of the database.
#[verifier::ext_equal]
pub struct DbView {
    pub path: Seq<char>,
    pub vers: int,
    pub files: Map<usize, DbFileObj>,
    pub file_next: nat,
    pub tags: Map<usize, DbTagNNS>,
    pub tag_next: nat,
    pub namespaces: Map<usize, DbNamespaceObj>,
    pub ns_next: nat,
    pub relationships: Set<DbRelationshipObj>,
    pub parents: Set<DbParentsObj>,
    pub settings: Map<Seq<char>, SettingView>,
    pub jobs: Map<usize, DbJobsObj>,
    pub job_next: nat,
    pub commit_num: nat,
    pub commit_static: nat,
    pub loaded: Seq<LoadDBTable>,
    pub outbox: Seq<OpView>,
}

pub open spec fn tag_is(t: DbTagNNS, name: Seq<char>, ns: usize) -> bool {
    t.name@ == name && t.namespace == ns
}

/// The id of the tag with this name and namespace, if there is one.
pub open spec fn tag_id_for(tags: Map<usize, DbTagNNS>, name: Seq<char>, ns: usize) -> Option<usize> {
    if exists|id: usize| tags.dom().contains(id) && tag_is(tags[id], name, ns) {
        Some(choose|id: usize| tags.dom().contains(id) && tag_is(tags[id], name, ns))
    } else {
        None
    }
}

/// The id of the namespace with this name, if there is one.
pub open spec fn ns_id_for(nss: Map<usize, DbNamespaceObj>, name: Seq<char>) -> Option<usize> {
    if exists|id: usize| nss.dom().contains(id) && nss[id].name@ == name {
        Some(choose|id: usize| nss.dom().contains(id) && nss[id].name@ == name)
    } else {
        None
    }
}

/// The id of the file with this hash, if there is one.
pub open spec fn file_id_for(files: Map<usize, DbFileObj>, hash: Seq<char>) -> Option<usize> {
    if exists|id: usize| files.dom().contains(id) && files[id].hash@ == hash {
        Some(choose|id: usize| files.dom().contains(id) && files[id].hash@ == hash)
    } else {
        None
    }
}

/// The files that carry a tag.
pub open spec fn files_of_tag(v: DbView, tag: usize) -> Set<usize> {
    Set::new(|f: usize| v.relationships.contains(DbRelationshipObj { fileid: f, tagid: tag }))
}

/// The tags a file carries.
pub open spec fn tags_of_file(v: DbView, file: usize) -> Set<usize> {
    Set::new(|t: usize| v.relationships.contains(DbRelationshipObj { fileid: file, tagid: t }))
}

/// The tags in a namespace.
pub open spec fn tags_of_namespace(v: DbView, ns: usize) -> Set<usize> {
    Set::new(|t: usize| v.tags.dom().contains(t) && v.tags[t].namespace == ns)
}

pub open spec fn tags_unique(tags: Map<usize, DbTagNNS>) -> bool {
    forall|a: usize, b: usize|
        #![trigger tags[a], tags[b]]
        tags.dom().contains(a) && tags.dom().contains(b) && a != b ==> !tag_is(tags[a], tags[b].name@, tags[b].namespace)
}

pub open spec fn ns_unique(nss: Map<usize, DbNamespaceObj>) -> bool {
    &&& forall|a: usize| #[trigger] nss.dom().contains(a) ==> nss[a].id == a
    &&& forall|a: usize, b: usize|
        #![trigger nss[a], nss[b]]
        nss.dom().contains(a) && nss.dom().contains(b) && a != b ==> nss[a].name@ != nss[b].name@
}

pub open spec fn files_unique(files: Map<usize, DbFileObj>) -> bool {
    &&& forall|a: usize| #[trigger] files.dom().contains(a) ==> files[a].id == Some(a)
    &&& forall|a: usize, b: usize|
        #![trigger files[a], files[b]]
        files.dom().contains(a) && files.dom().contains(b) && a != b ==> files[a].hash@ != files[b].hash@
}

/// The invariant of the abstract state: names, hashes and tags are unique,
/// and every id lies below the next id to be given out.
pub open spec fn view_wf(v: DbView) -> bool {
    &&& tags_unique(v.tags)
    &&& ns_unique(v.namespaces)
    &&& files_unique(v.files)
    &&& forall|a: usize| #[trigger] v.tags.dom().contains(a) ==> a < v.tag_next
    &&& forall|a: usize| #[trigger] v.namespaces.dom().contains(a) ==> a < v.ns_next
    &&& forall|a: usize| #[trigger] v.files.dom().contains(a) ==> a < v.file_next
    &&& forall|a: usize| #[trigger] v.jobs.dom().contains(a) ==> a < v.job_next
    &&& v.tag_next <= usize::MAX
    &&& v.ns_next <= usize::MAX
    &&& v.file_next <= usize::MAX
    &&& v.job_next <= usize::MAX
    &&& v.commit_num < usize::MAX
    &&& v.commit_static <= usize::MAX
}

pub proof fn lemma_tag_id_for(tags: Map<usize, DbTagNNS>, id: usize, name: Seq<char>, ns: usize)
    requires
        tags_unique(tags),
        tags.dom().contains(id),
        tag_is(tags[id], name, ns),
    ensures
        tag_id_for(tags, name, ns) == Some(id),
{
    let c = choose|c: usize| tags.dom().contains(c) && tag_is(tags[c], name, ns);
    if c != id {
        assert(tag_is(tags[c], tags[id].name@, tags[id].namespace));
    }
}

pub proof fn lemma_ns_id_for(nss: Map<usize, DbNamespaceObj>, id: usize, name: Seq<char>)
    requires
        ns_unique(nss),
        nss.dom().contains(id),
        nss[id].name@ == name,
    ensures
        ns_id_for(nss, name) == Some(id),
{
    let c = choose|c: usize| nss.dom().contains(c) && nss[c].name@ == name;
    if c != id {
        assert(nss[c].name@ != nss[id].name@);
    }
}

pub proof fn lemma_file_id_for(files: Map<usize, DbFileObj>, id: usize, hash: Seq<char>)
    requires
        files_unique(files),
        files.dom().contains(id),
        files[id].hash@ == hash,
    ensures
        file_id_for(files, hash) == Some(id),
{
    let c = choose|c: usize| files.dom().contains(c) && files[c].hash@ == hash;
    if c != id {
        assert(files[c].hash@ != files[id].hash@);
    }
}

/// The namespace that one side of a search names.
pub open spec fn search_namespace(v: DbView, search: DbSearchObject) -> Option<usize> {
    match search.namespace {
        None => search.namespace_id,
        Some(name) => ns_id_for(v.namespaces, name@),
    }
}

/// The state after a statement is queued.
pub open spec fn with_op(v: DbView, op: OpView) -> DbView {
    DbView { outbox: v.outbox.push(op), ..v }
}

/// The state after a flush: the counter is reset and `COMMIT`, `BEGIN` queued.
pub open spec fn flushed(v: DbView) -> DbView {
    DbView { commit_num: 0, outbox: v.outbox.push(OpView::Commit).push(OpView::Begin), ..v }
}

/// The state after one more pending write is counted: a flush once the
/// count reaches the commit threshold.
pub open spec fn commit_step(v: DbView) -> DbView {
    if v.commit_num + 1 >= v.commit_static {
        flushed(v)
    } else {
        DbView { commit_num: v.commit_num + 1, ..v }
    }
}

pub open spec fn next_after(next: nat, id: usize) -> nat {
    if id >= next { (id + 1) as nat } else { next }
}

/// The state after a tag is stored under an id.
pub open spec fn with_tag(v: DbView, id: usize, t: DbTagNNS) -> DbView {
    DbView { tags: v.tags.insert(id, t), tag_next: next_after(v.tag_next, id), ..v }
}

/// The state after a namespace is stored under its id.
pub open spec fn with_namespace(v: DbView, ns: DbNamespaceObj) -> DbView {
    DbView { namespaces: v.namespaces.insert(ns.id, ns), ns_next: next_after(v.ns_next, ns.id), ..v }
}

/// The state after a file is stored under an id.
pub open spec fn with_file(v: DbView, id: usize, f: DbFileObj) -> DbView {
    DbView { files: v.files.insert(id, f), file_next: next_after(v.file_next, id), ..v }
}


/// The state after a job is stored under the next job id.
pub open spec fn with_job(v: DbView, j: DbJobsObj) -> DbView {
    DbView { jobs: v.jobs.insert(v.job_next as usize, j), job_next: v.job_next + 1, ..v }
}

/// Counts a write twice, as adding a tag does.
pub open spec fn commit_twice(v: DbView) -> DbView {
    commit_step(commit_step(v))
}

/// What adding a tag returns and leaves: an existing tag of that name and
/// namespace keeps its id; otherwise the tag is stored under the requested
/// id, or the next free one. The row is queued for the file when `addtodb`
/// holds and the tag is new, or an id was requested.
pub open spec fn tag_add_spec(v: DbView, name: String, ns: usize, addtodb: bool, id: Option<usize>) -> (usize, DbView) {
    match tag_id_for(v.tags, name@, ns) {
        Some(t) => (t, if addtodb && id.is_some() {
            commit_twice(with_op(v, OpView::InsertTag { id: t, name: name@, namespace: ns }))
        } else {
            v
        }),
        None => {
            let nid = match id { Some(i) => i, None => v.tag_next as usize };
            let v1 = with_tag(v, nid, DbTagNNS { name: name, namespace: ns });
            (nid, if addtodb {
                commit_twice(with_op(v1, OpView::InsertTag { id: nid, name: name@, namespace: ns }))
            } else {
                v1
            })
        },
    }
}

/// The machine limit for adding a tag: a new id must leave room for the next.
pub open spec fn tag_add_fits(v: DbView, name: Seq<char>, ns: usize, id: Option<usize>) -> bool {
    tag_id_for(v.tags, name, ns).is_none() ==> match id {
        Some(i) => i < usize::MAX,
        None => v.tag_next < usize::MAX,
    }
}

/// What adding a namespace returns and leaves: an existing namespace of that
/// name keeps its id; otherwise it gets the next free id and is queued for
/// the file when `addtodb` holds.
pub open spec fn namespace_add_spec(v: DbView, name: String, description: Option<String>, addtodb: bool) -> (usize, DbView) {
    match ns_id_for(v.namespaces, name@) {
        Some(n) => (n, v),
        None => {
            let nid = v.ns_next as usize;
            let v1 = if addtodb {
                commit_step(with_op(v, OpView::InsertNamespace { id: nid, name: name@, description: opt_view(description) }))
            } else {
                v
            };
            (nid, with_namespace(v1, DbNamespaceObj { id: nid, name: name, description: description }))
        },
    }
}

/// What adding a file returns and leaves: an existing file of that hash
/// keeps its id; otherwise it is stored under the requested id, or the next
/// free one, and queued for the file when `addtodb` holds.
pub open spec fn file_add_spec(v: DbView, id: Option<usize>, hash: String, ext: String, location: String, addtodb: bool) -> (usize, DbView) {
    match file_id_for(v.files, hash@) {
        Some(f) => (f, v),
        None => {
            let nid = match id { Some(i) => i, None => v.file_next as usize };
            let v1 = with_file(v, nid, DbFileObj { id: Some(nid), hash: hash, ext: ext, location: location });
            (nid, if addtodb {
                commit_step(with_op(v1, OpView::InsertFile { id: nid, hash: hash@, ext: ext@, location: location@ }))
            } else {
                v1
            })
        },
    }
}

pub open spec fn file_add_fits(v: DbView, id: Option<usize>, hash: Seq<char>) -> bool {
    file_id_for(v.files, hash).is_none() ==> match id {
        Some(i) => i < usize::MAX,
        None => v.file_next < usize::MAX,
    }
}

/// What adding a relationship leaves: nothing changes if it is present;
/// otherwise it is queued for the file when `addtodb` holds, and stored.
pub open spec fn relationship_add_spec(v: DbView, file: usize, tag: usize, addtodb: bool) -> DbView {
    let rel = DbRelationshipObj { fileid: file, tagid: tag };
    if v.relationships.contains(rel) {
        v
    } else {
        let v1 = if addtodb { commit_step(with_op(v, OpView::InsertRelationship { file: file, tag: tag })) } else { v };
        DbView { relationships: v1.relationships.insert(rel), ..v1 }
    }
}

/// What adding a parent leaves: it is queued for the file when `addtodb`
/// holds and it is new, and stored.
pub open spec fn parents_add_spec(v: DbView, p: DbParentsObj, addtodb: bool) -> DbView {
    let v1 = if addtodb && !v.parents.contains(p) {
        commit_step(with_op(v, OpView::InsertParent {
            tag_namespace_id: p.tag_namespace_id,
            tag_id: p.tag_id,
            relate_namespace_id: p.relate_namespace_id,
            relate_tag_id: p.relate_tag_id,
        }))
    } else {
        v
    };
    DbView { parents: v1.parents.insert(p), ..v1 }
}

/// What adding a setting leaves: queued (as an upsert) when `addtodb`
/// holds, stored under its name, then flushed.
pub open spec fn setting_add_spec(v: DbView, s: DbSettingObj, addtodb: bool) -> DbView {
    let v1 = if addtodb {
        commit_step(with_op(v, OpView::UpsertSetting { name: s.name@, pretty: opt_view(s.pretty), num: s.num, param: opt_view(s.param) }))
    } else {
        v
    };
    flushed(DbView { settings: v1.settings.insert(s.name@, setting_view(s)), ..v1 })
}

pub proof fn lemma_commit_step_wf(v: DbView)
    requires
        view_wf(v),
    ensures
        view_wf(commit_step(v)),
        view_wf(flushed(v)),
        view_wf(with_op(v, OpView::Begin)),
{
}

pub proof fn lemma_with_tag_wf(v: DbView, id: usize, t: DbTagNNS)
    requires
        view_wf(v),
        tag_id_for(v.tags, t.name@, t.namespace).is_none(),
        id < usize::MAX,
    ensures
        view_wf(with_tag(v, id, t)),
        tag_id_for(with_tag(v, id, t).tags, t.name@, t.namespace) == Some(id),
{
    let w = with_tag(v, id, t);
    assert forall|a: usize| v.tags.dom().contains(a) implies !tag_is(#[trigger] v.tags[a], t.name@, t.namespace) by {
        if tag_is(v.tags[a], t.name@, t.namespace) {
            assert(exists|x: usize| v.tags.dom().contains(x) && tag_is(v.tags[x], t.name@, t.namespace));
        }
    }
    assert forall|a: usize, b: usize|
        #![trigger w.tags[a], w.tags[b]]
        w.tags.dom().contains(a) && w.tags.dom().contains(b) && a != b implies !tag_is(w.tags[a], w.tags[b].name@, w.tags[b].namespace) by {
        if a == id {
            assert(!tag_is(v.tags[b], t.name@, t.namespace));
        } else if b == id {
            assert(!tag_is(v.tags[a], t.name@, t.namespace));
        } else {
            assert(!tag_is(v.tags[a], v.tags[b].name@, v.tags[b].namespace));
        }
    }
    lemma_tag_id_for(w.tags, id, t.name@, t.namespace);
}

pub proof fn lemma_with_namespace_wf(v: DbView, ns: DbNamespaceObj)
    requires
        view_wf(v),
        ns_id_for(v.namespaces, ns.name@).is_none(),
        ns.id < usize::MAX,
    ensures
        view_wf(with_namespace(v, ns)),
        ns_id_for(with_namespace(v, ns).namespaces, ns.name@) == Some(ns.id),
{
    let w = with_namespace(v, ns);
    assert forall|a: usize| v.namespaces.dom().contains(a) implies (#[trigger] v.namespaces[a]).name@ != ns.name@ by {
        if v.namespaces[a].name@ == ns.name@ {
            assert(exists|x: usize| v.namespaces.dom().contains(x) && v.namespaces[x].name@ == ns.name@);
        }
    }
    assert forall|a: usize, b: usize|
        #![trigger w.namespaces[a], w.namespaces[b]]
        w.namespaces.dom().contains(a) && w.namespaces.dom().contains(b) && a != b implies w.namespaces[a].name@ != w.namespaces[b].name@ by {
        if a == ns.id {
            assert(v.namespaces[b].name@ != ns.name@);
        } else if b == ns.id {
            assert(v.namespaces[a].name@ != ns.name@);
        } else {
            assert(v.namespaces[a].name@ != v.namespaces[b].name@);
        }
    }
    lemma_ns_id_for(w.namespaces, ns.id, ns.name@);
}

pub proof fn lemma_with_file_wf(v: DbView, id: usize, f: DbFileObj)
    requires
        view_wf(v),
        file_id_for(v.files, f.hash@).is_none(),
        id < usize::MAX,
        f.id == Some(id),
    ensures
        view_wf(with_file(v, id, f)),
        file_id_for(with_file(v, id, f).files, f.hash@) == Some(id),
{
    let w = with_file(v, id, f);
    assert forall|a: usize| v.files.dom().contains(a) implies (#[trigger] v.files[a]).hash@ != f.hash@ by {
        if v.files[a].hash@ == f.hash@ {
            assert(exists|x: usize| v.files.dom().contains(x) && v.files[x].hash@ == f.hash@);
        }
    }
    assert forall|a: usize, b: usize|
        #![trigger w.files[a], w.files[b]]
        w.files.dom().contains(a) && w.files.dom().contains(b) && a != b implies w.files[a].hash@ != w.files[b].hash@ by {
        if a == id {
            assert(v.files[b].hash@ != f.hash@);
        } else if b == id {
            assert(v.files[a].hash@ != f.hash@);
        } else {
            assert(v.files[a].hash@ != v.files[b].hash@);
        }
    }
    lemma_file_id_for(w.files, id, f.hash@);
}




/// The two tag ids (or step numbers) of a search step.
pub open spec fn holder_pair(s: SearchHolder) -> (usize, usize) {
    match s {
        SearchHolder::AND(p) => p,
        SearchHolder::OR(p) => p,
        SearchHolder::NOT(p) => p,
    }
}

/// The files a search step selects: the files of its two tags combined by
/// intersection, union or difference. `None` when either tag has no files.
pub open spec fn step_files(v: DbView, s: SearchHolder) -> Option<Set<usize>> {
    let fa = files_of_tag(v, holder_pair(s).0);
    let fb = files_of_tag(v, holder_pair(s).1);
    if fa.is_empty() || fb.is_empty() {
        None
    } else {
        Some(match s {
            SearchHolder::AND(_) => fa.intersect(fb),
            SearchHolder::OR(_) => fa.union(fb),
            SearchHolder::NOT(_) => fa.difference(fb),
        })
    }
}

/// The files step `k` of a search selects.
pub open spec fn step_at(v: DbView, search: SearchObj, k: usize) -> Option<Set<usize>> {
    if k < search.searches@.len() { step_files(v, search.searches@[k as int]) } else { None }
}

/// Every intersecting pair of a relate list names steps that select files.
pub open spec fn pairs_answerable(v: DbView, search: SearchObj, rel: Seq<SearchHolder>) -> bool {
    forall|i: int| 0 <= i < rel.len() ==> match #[trigger] rel[i] {
        SearchHolder::AND((a, b)) => step_at(v, search, a).is_some() && step_at(v, search, b).is_some(),
        _ => true,
    }
}

/// Whether a search can be answered: with a relate list, every intersecting
/// pair of it names steps that select files; without one, every step
/// selects files.
pub open spec fn search_answerable(v: DbView, search: SearchObj) -> bool {
    match search.search_relate {
        Some(rel) => pairs_answerable(v, search, rel@),
        None => forall|k: int| 0 <= k < search.searches@.len() ==> (#[trigger] step_at(v, search, k as usize)).is_some(),
    }
}

/// The files a relate list finds: for each intersecting pair, the files
/// selected by both of its steps. Union and difference pairs add nothing.
pub open spec fn pairs_result(v: DbView, search: SearchObj, rel: Seq<SearchHolder>) -> Set<usize> {
    Set::new(|f: usize| exists|i: int| 0 <= i < rel.len() && match #[trigger] rel[i] {
        SearchHolder::AND((a, b)) => step_at(v, search, a).unwrap().contains(f) && step_at(v, search, b).unwrap().contains(f),
        _ => false,
    })
}

/// The files selected by every step (none where there are no steps).
pub open spec fn all_steps_result(v: DbView, search: SearchObj) -> Set<usize> {
    if search.searches@.len() == 0 {
        Set::empty()
    } else {
        Set::new(|f: usize| forall|k: int| 0 <= k < search.searches@.len() ==> (#[trigger] step_at(v, search, k as usize)).unwrap().contains(f))
    }
}

/// The files a search finds: by its relate list where it has one, else the
/// files that every step selects.
pub open spec fn search_result(v: DbView, search: SearchObj) -> Set<usize> {
    match search.search_relate {
        Some(rel) => pairs_result(v, search, rel@),
        None => all_steps_result(v, search),
    }
}

/// The numbers of a list, as a set.
fn set_of(v: &Vec<usize>) -> (r: HashSet<usize>)
    ensures
        r@ == v@.to_set(),
{
    let mut out: HashSet<usize> = HashSet::new();
    let mut i: usize = 0;
    while i < v.len()
        invariant
            i <= v@.len(),
            out@ == v@.take(i as int).to_set(),
        decreases v@.len() - i,
    {
        let ghost before = out@;
        out.insert(v[i]);
        i = i + 1;
        proof {
            let t = v@.take(i as int);
            let t0 = v@.take(i - 1);
            assert(t =~= t0.push(v@[i - 1]));
            assert forall|x: usize| #[trigger] out@.contains(x) <==> t.to_set().contains(x) by {
                if t0.contains(x) {
                    let j = choose|j: int| 0 <= j < t0.len() && t0[j] == x;
                    assert(t[j] == x);
                }
                if x == v@[i - 1] {
                    assert(t[i - 1] == x);
                }
                if t.contains(x) {
                    let j = choose|j: int| 0 <= j < t.len() && t[j] == x;
                    if j < i - 1 {
                        assert(t0[j] == x);
                    }
                }
            }
            assert(out@ =~= t.to_set());
        }
    }
    assert(v@.take(v@.len() as int) =~= v@);
    out
}

fn vec_contains(v: &Vec<usize>, x: usize) -> (b: bool)
    ensures
        b == v@.contains(x),
{
    let mut i: usize = 0;
    while i < v.len()
        invariant
            i <= v@.len(),
            forall|j: int| 0 <= j < i ==> v@[j] != x,
        decreases v@.len() - i,
    {
        if v[i] == x {
            return true;
        }
        i = i + 1;
    }
    false
}

/// The numbers that every list of `sets` holds (all of them are there).
fn intersect_all(sets: &Vec<Option<Vec<usize>>>) -> (r: HashSet<usize>)
    requires
        sets@.len() >= 1,
        forall|k: int| 0 <= k < sets@.len() ==> (#[trigger] sets@[k]).is_some(),
    ensures
        r@ == Set::new(|f: usize| forall|k: int| 0 <= k < sets@.len() ==> (#[trigger] sets@[k]).unwrap()@.contains(f)),
{
    let first = match &sets[0] {
        Some(x) => x,
        None => {
            assert(false);
            return HashSet::new();
        },
    };
    let mut fin: HashSet<usize> = HashSet::new();
    let mut i: usize = 0;
    while i < first.len()
        invariant
            i <= first@.len(),
            sets@[0] == Some(*first),
            sets@.len() >= 1,
            forall|k: int| 0 <= k < sets@.len() ==> (#[trigger] sets@[k]).is_some(),
            fin@ == Set::new(|f: usize| (exists|j: int| 0 <= j < i && first@[j] == f)
                && forall|k: int| 0 <= k < sets@.len() ==> (#[trigger] sets@[k]).unwrap()@.contains(f)),
        decreases first@.len() - i,
    {
        let x = first[i];
        let mut ok = true;
        let mut k: usize = 1;
        while k < sets.len()
            invariant
                1 <= k <= sets@.len(),
                sets@[0] == Some(*first),
                x == first@[i as int],
                i < first@.len(),
                forall|k: int| 0 <= k < sets@.len() ==> (#[trigger] sets@[k]).is_some(),
                ok == forall|j: int| 0 <= j < k ==> (#[trigger] sets@[j]).unwrap()@.contains(x),
            decreases sets@.len() - k,
        {
            let found = match &sets[k] {
                Some(l) => vec_contains(l, x),
                None => false,
            };
            if !found {
                ok = false;
            }
            k = k + 1;
        }
        let ghost pre = fin@;
        if ok {
            fin.insert(x);
        }
        proof {
            assert(fin@ =~= Set::new(|f: usize| (exists|j: int| 0 <= j < i + 1 && first@[j] == f)
                && forall|k: int| 0 <= k < sets@.len() ==> (#[trigger] sets@[k]).unwrap()@.contains(f))) by {
                assert forall|f: usize| ((exists|j: int| 0 <= j < i + 1 && first@[j] == f)
                    && forall|k: int| 0 <= k < sets@.len() ==> (#[trigger] sets@[k]).unwrap()@.contains(f)) implies fin@.contains(f) by {
                    if f != x {
                        let j = choose|j: int| 0 <= j < i + 1 && first@[j] == f;
                        assert(j < i);
                    }
                }
            }
        }
        i = i + 1;
    }
    proof {
        assert forall|f: usize| fin@.contains(f) <== forall|k: int| 0 <= k < sets@.len() ==> (#[trigger] sets@[k]).unwrap()@.contains(f) by {
            if forall|k: int| 0 <= k < sets@.len() ==> (#[trigger] sets@[k]).unwrap()@.contains(f) {
                assert(sets@[0].unwrap()@.contains(f));
            }
        }
        assert(fin@ =~= Set::new(|f: usize| forall|k: int| 0 <= k < sets@.len() ==> (#[trigger] sets@[k]).unwrap()@.contains(f)));
    }
    fin
}

/// The elements of `a` that `b` holds (or, with `keep == false`, lacks).
fn vec_filter(a: &Vec<usize>, b: &Vec<usize>, keep: bool) -> (r: Vec<usize>)
    ensures
        r@.to_set() == (if keep { a@.to_set().intersect(b@.to_set()) } else { a@.to_set().difference(b@.to_set()) }),
{
    let mut r: Vec<usize> = Vec::new();
    let mut i: usize = 0;
    while i < a.len()
        invariant
            i <= a@.len(),
            forall|x: usize| #[trigger] r@.contains(x) == ((exists|j: int| 0 <= j < i && a@[j] == x) && b@.contains(x) == keep),
        decreases a@.len() - i,
    {
        let x = a[i];
        let ghost pre = r@;
        if vec_contains(b, x) == keep {
            r.push(x);
        }
        proof {
            assert forall|y: usize| #[trigger] r@.contains(y) == ((exists|j: int| 0 <= j < i + 1 && a@[j] == y) && b@.contains(y) == keep) by {
                if pre.contains(y) {
                    let k = choose|k: int| 0 <= k < pre.len() && pre[k] == y;
                    assert(r@[k] == y);
                    let j = choose|j: int| 0 <= j < i && a@[j] == y;
                    assert(0 <= j < i + 1);
                }
                if r@.contains(y) && !pre.contains(y) {
                    let k = choose|k: int| 0 <= k < r@.len() && r@[k] == y;
                    if k < pre.len() {
                        assert(pre[k] == y);
                    }
                    assert(y == x);
                    assert(a@[i as int] == y);
                }
                if (exists|j: int| 0 <= j < i + 1 && a@[j] == y) && b@.contains(y) == keep {
                    let j = choose|j: int| 0 <= j < i + 1 && a@[j] == y;
                    if j == i {
                        assert(r@[r@.len() - 1] == y);
                    } else {
                        assert(pre.contains(y));
                        let k = choose|k: int| 0 <= k < pre.len() && pre[k] == y;
                        assert(r@[k] == y);
                    }
                }
            }
        }
        i = i + 1;
    }
    proof {
        if keep {
            assert(r@.to_set() =~= a@.to_set().intersect(b@.to_set()));
        } else {
            assert(r@.to_set() =~= a@.to_set().difference(b@.to_set()));
        }
    }
    r
}

/// The elements of both vectors.
fn vec_union(a: &Vec<usize>, b: &Vec<usize>) -> (r: Vec<usize>)
    ensures
        r@.to_set() == a@.to_set().union(b@.to_set()),
{
    let extra = vec_filter(b, a, false);
    let mut r = a.clone();
    let mut i: usize = 0;
    while i < extra.len()
        invariant
            i <= extra@.len(),
            r@ == a@ + extra@.take(i as int),
        decreases extra@.len() - i,
    {
        r.push(extra[i]);
        i = i + 1;
        assert(r@ =~= a@ + extra@.take(i as int));
    }
    assert(extra@.take(extra@.len() as int) =~= extra@);
    assert forall|x: usize| #[trigger] r@.to_set().contains(x) == a@.to_set().union(b@.to_set()).contains(x) by {
        if r@.contains(x) {
            let j = choose|j: int| 0 <= j < r@.len() && r@[j] == x;
            if j >= a@.len() {
                assert(extra@[j - a@.len()] == x);
                assert(extra@.to_set().contains(x));
            }
        }
        if a@.contains(x) {
            let j = choose|j: int| 0 <= j < a@.len() && a@[j] == x;
            assert(r@[j] == x);
        }
        if b@.contains(x) && !a@.contains(x) {
            assert(extra@.to_set().contains(x));
            let j = choose|j: int| 0 <= j < extra@.len() && extra@[j] == x;
            assert(r@[a@.len() + j] == x);
        }
    }
    assert(r@.to_set() =~= a@.to_set().union(b@.to_set()));
    r
}


/// The job a timed job request stores.
pub open spec fn timed_job(site: String, query: String, time_offset: usize, current_time: usize, committype: Option<CommitType>, jobtype: DbJobType) -> DbJobsObj {
    DbJobsObj {
        time: Some(current_time),
        reptime: Some(time_offset),
        site: Some(site),
        param: Some(query),
        jobtype: jobtype,
        committype: committype,
    }
}


/// What adding a timed job leaves: nothing changes where the time is `now`
/// (in any case).
pub open spec fn jobs_add_new_spec(v: DbView, site: String, query: String, time: Seq<char>, committype: Option<CommitType>, addtodb: bool, jobtype: DbJobType, now: usize) -> DbView {
    let off = time_conv_spec(time).unwrap() as usize;
    if is_now_text(time) {
        v
    } else {
    let v1 = with_job(v, timed_job(site, query, off, now, committype, jobtype));
    if addtodb {
        commit_step(with_op(v1, OpView::InsertJob {
            time: now,
            reptime: off,
            site: site@,
            param: query@,
            committype: committype.unwrap(),
            jobtype: jobtype,
        }))
    } else {
        v1
    }
    }
}

/// What `str::parse::<bool>` accepts.
pub open spec fn parse_bool_spec(s: Seq<char>) -> Option<bool> {
    if s == "true"@ { Some(true) } else if s == "false"@ { Some(false) } else { None }
}

fn parse_bool(s: &String) -> (r: Option<bool>)
    ensures
        r == parse_bool_spec(s@),
{
    let t = String::from_str("true");
    let f = String::from_str("false");
    if *s == t {
        Some(true)
    } else if *s == f {
        Some(false)
    } else {
        None
    }
}


/// The texts of a sequence of strings.
pub open spec fn strs_view(s: Seq<String>) -> Seq<Seq<char>> {
    s.map_values(|x: String| x@)
}

/// `key type, ` for the first `m` columns.
pub open spec fn cols_prefix(keys: Seq<Seq<char>>, types: Seq<Seq<char>>, m: nat) -> Seq<char>
    decreases m,
{
    if m == 0 {
        Seq::empty()
    } else {
        cols_prefix(keys, types, (m - 1) as nat) + keys[m - 1] + " "@ + types[m - 1] + ", "@
    }
}

/// The statement `table_create` runs: each column, its name and type, once
/// and in order, separated by `, `.
pub open spec fn create_table_sql(name: Seq<char>, keys: Seq<Seq<char>>, types: Seq<Seq<char>>) -> Seq<char> {
    let n = keys.len();
    "CREATE TABLE IF NOT EXISTS "@ + name + " ("@ + cols_prefix(keys, types, (n - 1) as nat) + keys[n - 1] + " "@ + types[n - 1] + ")"@
}

/// The tables of a fresh database: name, column names, column types.
pub open spec fn first_db_schema() -> Seq<(Seq<char>, Seq<Seq<char>>, Seq<Seq<char>>)> {
    seq![
        ("File"@, seq!["id"@, "hash"@, "extension"@, "location"@], seq!["INTEGER"@, "TEXT"@, "TEXT"@, "TEXT"@]),
        ("Relationship"@, seq!["fileid"@, "tagid"@], seq!["INTEGER"@, "INTEGER"@]),
        ("Tags"@, seq!["id"@, "name"@, "parents"@, "namespace"@], seq!["INTEGER"@, "TEXT"@, "INTEGER"@, "INTEGER"@]),
        ("Parents"@, seq!["tag_namespace_id"@, "tag_id"@, "relate_namespace_id"@, "relate_tag_id"@], seq!["INTEGER"@, "INTEGER"@, "INTEGER"@, "INTEGER"@]),
        ("Namespace"@, seq!["id"@, "name"@, "description"@], seq!["INTEGER"@, "TEXT"@, "TEXT"@]),
        ("Settings"@, seq!["name"@, "pretty"@, "num"@, "param"@], seq!["TEXT PRIMARY KEY"@, "TEXT"@, "INTEGER"@, "TEXT"@]),
        ("Jobs"@, seq!["time"@, "reptime"@, "site"@, "param"@, "CommitType"@], seq!["INTEGER"@, "INTEGER"@, "TEXT"@, "TEXT"@, "TEXT"@]),
    ]
}

/// The table creations of a fresh database, in order.
pub open spec fn first_db_ops() -> Seq<OpView> {
    Seq::new(7, |i: int| OpView::Execute(create_table_sql(first_db_schema()[i].0, first_db_schema()[i].1, first_db_schema()[i].2)))
}

/// The state after statements are queued.
pub open spec fn with_ops(v: DbView, ops: Seq<OpView>) -> DbView {
    DbView { outbox: v.outbox + ops, ..v }
}

/// What adding a setting leaves, by the texts of the setting.
pub open spec fn setting_add_view(v: DbView, sv: SettingView, addtodb: bool) -> DbView {
    let v1 = if addtodb {
        commit_step(with_op(v, OpView::UpsertSetting { name: sv.name, pretty: sv.pretty, num: sv.num, param: sv.param }))
    } else {
        v
    };
    flushed(DbView { settings: v1.settings.insert(sv.name, sv), ..v1 })
}

/// The settings a fresh database starts with, in the order they are added.
pub open spec fn default_settings(vers: usize) -> Seq<SettingView> {
    let commitnum = SettingView {
        name: "DBCOMMITNUM"@,
        pretty: Some("Number of transactional items before pushing to db."@),
        num: Some(3000),
        param: None,
    };
    seq![
        commitnum,
        SettingView { name: "VERSION"@, pretty: Some("Version that the database is currently on."@), num: Some(vers), param: None },
        SettingView { name: "DEFAULTRATELIMIT"@, pretty: None, num: Some(5), param: None },
        SettingView { name: "FilesLoc"@, pretty: None, num: None, param: Some("./Files/"@) },
        SettingView { name: "DEFAULTUSERAGENT"@, pretty: None, num: None, param: Some("DIYHydrus/1.0"@) },
        SettingView { name: "pluginloadloc"@, pretty: Some("Where plugins get loaded into."@), num: None, param: Some("./Plugins/"@) },
        commitnum,
    ]
}

/// Adding settings one after another, each stored and queued.
pub open spec fn add_settings(v: DbView, list: Seq<SettingView>) -> DbView
    decreases list.len(),
{
    if list.len() == 0 {
        v
    } else {
        add_settings(setting_add_view(v, list[0], true), list.drop_first())
    }
}

/// What a database starts as: an empty one with `PRAGMA synchronous = OFF`
/// and `BEGIN` queued; a database whose file is new also gets its tables,
/// its default settings and the commit threshold they give.
pub open spec fn new_spec(path: Seq<char>, vers: isize, dbexist: bool) -> DbView {
    let v0 = DbView {
        path: path,
        vers: vers as int,
        files: Map::empty(),
        file_next: 0,
        tags: Map::empty(),
        tag_next: 0,
        namespaces: Map::empty(),
        ns_next: 0,
        relationships: Set::empty(),
        parents: Set::empty(),
        settings: Map::empty(),
        jobs: Map::empty(),
        job_next: 0,
        commit_num: 0,
        commit_static: 3000,
        loaded: Seq::empty(),
        outbox: seq![OpView::SynchronousOff, OpView::Begin],
    };
    if dbexist {
        v0
    } else {
        let v1 = flushed(add_settings(flushed(with_ops(v0, first_db_ops())), default_settings(vers as usize)));
        DbView { commit_static: 3000, ..v1 }
    }
}


/// Whether a parent relation involves a tag.
pub open spec fn parent_involves(p: DbParentsObj, tag: usize) -> bool {
    p.tag_id == tag || p.relate_tag_id == tag
}

/// The delete statements for a list of files' relationships with a tag.
pub open spec fn rel_delete_ops(fs: Seq<usize>, tag: usize) -> Seq<OpView> {
    fs.map_values(|f: usize| OpView::DeleteRelationship { file: f, tag: tag })
}

/// The delete statements for a list of parent relations.
pub open spec fn parent_delete_ops(ps: Seq<DbParentsObj>) -> Seq<OpView> {
    ps.map_values(|p: DbParentsObj| OpView::DeleteParent { tag_id: p.tag_id, relate_tag_id: p.relate_tag_id })
}

/// What removing a tag's relationships leaves, given the order in which its
/// files are visited.
pub open spec fn delete_tag_relationship_spec(v: DbView, tag: usize, fs: Seq<usize>) -> DbView {
    DbView {
        relationships: v.relationships.filter(|r: DbRelationshipObj| r.tagid != tag),
        outbox: v.outbox + rel_delete_ops(fs, tag),
        ..v
    }
}

/// What removing a tag leaves, given the order in which its parent relations
/// are visited: the tag and every parent relation involving it are gone,
/// and their deletes queued.
pub open spec fn tag_remove_spec(v: DbView, id: usize, ps: Seq<DbParentsObj>) -> DbView {
    DbView {
        tags: v.tags.remove(id),
        parents: v.parents.filter(|p: DbParentsObj| !parent_involves(p, id)),
        outbox: v.outbox.push(OpView::DeleteTag { id: id }) + parent_delete_ops(ps),
        ..v
    }
}

/// Adds, in order, the relationship of each file of `fs` with a tag, each
/// queued for the file.
pub open spec fn rels_add_all(v: DbView, fs: Seq<usize>, tag: usize) -> DbView
    decreases fs.len(),
{
    if fs.len() == 0 {
        v
    } else {
        relationship_add_spec(rels_add_all(v, fs.drop_last(), tag), fs.last(), tag, true)
    }
}

/// The state after a vacuum: committed, `VACUUM` run, a transaction begun.
pub open spec fn vacuumed(v: DbView) -> DbView {
    DbView {
        commit_num: 0,
        outbox: v.outbox + seq![OpView::Commit, OpView::Begin, OpView::Commit, OpView::Vacuum, OpView::Begin],
        ..v
    }
}

/// One tag moved to the id `last`: flushed; its relationships deleted (files
/// in the order `fs`) and flushed again when it has any; the tag removed
/// (its parent relations in the order `ps`); re-added under `last`; and its
/// files related to `last` again.
pub open spec fn condense_tag(v: DbView, tid: usize, last: usize, fs: Seq<usize>, ps: Seq<DbParentsObj>) -> DbView {
    let t = v.tags[tid];
    let v1 = flushed(v);
    let v2 = if fs.len() == 0 { v1 } else { flushed(delete_tag_relationship_spec(v1, tid, fs)) };
    let v3 = tag_remove_spec(v2, tid, ps);
    let v4 = tag_add_spec(v3, t.name, t.namespace, true, Some(last)).1;
    rels_add_all(v4, fs, last)
}

/// The state and the next id once the tag ids below `n` of `v` have been
/// condensed; `orders[i]` gives the visiting orders for tag `i`.
pub open spec fn condense_upto(v: DbView, n: nat, orders: Seq<(Seq<usize>, Seq<DbParentsObj>)>) -> (DbView, nat)
    decreases n,
{
    if n == 0 {
        (v, 0)
    } else {
        let (w, last) = condense_upto(v, (n - 1) as nat, orders);
        let tid = (n - 1) as usize;
        if v.tags.dom().contains(tid) {
            (condense_tag(w, tid, last as usize, orders[n - 1].0, orders[n - 1].1), last + 1)
        } else {
            (w, last)
        }
    }
}

/// Whether `orders` are visiting orders condensing can take: for each tag,
/// its files and the parent relations involving it, each once.
pub open spec fn condense_orders_ok(v: DbView, n: nat, orders: Seq<(Seq<usize>, Seq<DbParentsObj>)>) -> bool
    decreases n,
{
    if n == 0 {
        true
    } else {
        let tid = (n - 1) as usize;
        let w = condense_upto(v, (n - 1) as nat, orders).0;
        &&& condense_orders_ok(v, (n - 1) as nat, orders)
        &&& v.tags.dom().contains(tid) ==> {
            &&& orders[n - 1].0.to_set() == files_of_tag(w, tid)
            &&& orders[n - 1].0.no_duplicates()
            &&& orders[n - 1].1.to_set() == w.parents.filter(|p: DbParentsObj| parent_involves(p, tid))
            &&& orders[n - 1].1.no_duplicates()
        }
    }
}

/// Whether `ps` and `fs` are visiting orders removing the tags `tids` can
/// take: the parent relations and the files of each tag, each once.
pub open spec fn remove_tags_ok(v: DbView, tids: Seq<usize>, ps: Seq<Seq<DbParentsObj>>, fs: Seq<Seq<usize>>) -> bool
    decreases tids.len(),
{
    if tids.len() == 0 {
        true
    } else {
        let n = (tids.len() - 1) as int;
        let w = remove_tags_all(v, tids.drop_last(), ps, fs);
        &&& remove_tags_ok(v, tids.drop_last(), ps, fs)
        &&& ps[n].to_set() == w.parents.filter(|p: DbParentsObj| parent_involves(p, tids[n]))
        &&& ps[n].no_duplicates()
        &&& fs[n].to_set() == files_of_tag(w, tids[n])
        &&& fs[n].no_duplicates()
    }
}

/// The state once a namespace's tags `tids` are removed (with the given
/// visiting orders), the namespace removed and its delete queued.
pub open spec fn namespace_removed(v: DbView, id: usize, tids: Seq<usize>, ps: Seq<Seq<DbParentsObj>>, fs: Seq<Seq<usize>>) -> DbView {
    let v2 = remove_tags_all(v, tids, ps, fs);
    with_op(DbView { namespaces: v2.namespaces.remove(id), ..v2 }, OpView::DeleteNamespace { id: id })
}

/// Whether the visiting orders are ones deleting a namespace can take.
pub open spec fn namespace_delete_ok(v: DbView, id: usize, tids: Seq<usize>, ps: Seq<Seq<DbParentsObj>>, fs: Seq<Seq<usize>>, orders: Seq<(Seq<usize>, Seq<DbParentsObj>)>) -> bool {
    let v3 = namespace_removed(flushed(v), id, tids, ps, fs);
    v.namespaces.dom().contains(id) ==> {
        &&& tids.to_set() == tags_of_namespace(v, id)
        &&& tids.no_duplicates()
        &&& ps.len() == tids.len()
        &&& fs.len() == tids.len()
        &&& remove_tags_ok(flushed(v), tids, ps, fs)
        &&& condense_orders_ok(v3, v3.tag_next, orders)
    }
}

/// What deleting a namespace leaves: a flush; then, when the namespace
/// exists, its tags and their relationships removed, the namespace removed,
/// and the tags condensed.
pub open spec fn namespace_delete_spec(v: DbView, id: usize, tids: Seq<usize>, ps: Seq<Seq<DbParentsObj>>, fs: Seq<Seq<usize>>, orders: Seq<(Seq<usize>, Seq<DbParentsObj>)>) -> DbView {
    let v1 = flushed(v);
    if !v.namespaces.dom().contains(id) {
        v1
    } else {
        condense_spec(namespace_removed(v1, id, tids, ps, fs), orders)
    }
}

/// Queues, in order, the relationship of each file of `fs` with a tag.
pub open spec fn rel_sql_all(v: DbView, fs: Seq<usize>, tag: usize) -> DbView
    decreases fs.len(),
{
    if fs.len() == 0 {
        v
    } else {
        commit_step(with_op(rel_sql_all(v, fs.drop_last(), tag), OpView::InsertRelationship { file: fs.last(), tag: tag }))
    }
}

/// Queues the tags `tids` of `src` under the ids 0, 1, ..., each followed
/// by its files `fss[i]`.
pub open spec fn recreate_all(v: DbView, src: Map<usize, DbTagNNS>, tids: Seq<usize>, fss: Seq<Seq<usize>>) -> DbView
    decreases tids.len(),
{
    if tids.len() == 0 {
        v
    } else {
        let n = (tids.len() - 1) as int;
        let w = recreate_all(v, src, tids.drop_last(), fss);
        let t = src[tids[n]];
        rel_sql_all(commit_step(with_op(w, OpView::InsertTag { id: n as usize, name: t.name@, namespace: t.namespace })), fss[n], n as usize)
    }
}

/// The statements that drop the tag tables before they are made anew.
pub open spec fn drop_tag_tables_ops() -> Seq<OpView> {
    seq![
        OpView::Execute("DROP TABLE IF EXISTS Relationship;"@),
        OpView::Execute("DROP TABLE IF EXISTS Tags;"@),
        OpView::Execute("DROP TABLE IF EXISTS Parents;"@),
    ]
}

/// Whether the visiting orders are ones rebuilding a namespace can take.
pub open spec fn drop_recreate_ok(v: DbView, id: usize, tids: Seq<usize>, fss: Seq<Seq<usize>>) -> bool {
    !tags_of_namespace(v, id).is_empty() ==> {
        &&& tids.to_set() == tags_of_namespace(v, id)
        &&& tids.no_duplicates()
        &&& fss.len() == tids.len()
        &&& forall|i: int| 0 <= i < tids.len() ==> (#[trigger] fss[i]).to_set() == files_of_tag(v, tids[i]) && fss[i].no_duplicates()
    }
}

/// What rebuilding the tag tables around one namespace leaves: the tables
/// dropped and made anew; then, when the namespace has tags, those tags
/// queued under the ids 0, 1, ... with their relationships, the in-memory
/// tags, parents and relationships emptied, and the file vacuumed.
pub open spec fn drop_recreate_spec(v: DbView, id: usize, tids: Seq<usize>, fss: Seq<Seq<usize>>) -> DbView {
    let v1 = flushed(flushed(with_ops(with_ops(v, drop_tag_tables_ops()), first_db_ops())));
    if tags_of_namespace(v, id).is_empty() {
        v1
    } else {
        let w = recreate_all(v1, v.tags, tids, fss);
        flushed(flushed(vacuumed(DbView { tags: Map::empty(), tag_next: 0, parents: Set::empty(), relationships: Set::empty(), ..w })))
    }
}

/// What condensing leaves: every tag id below the next id visited in turn,
/// the next id set to the number of tags, and the file vacuumed.
pub open spec fn condense_spec(v: DbView, orders: Seq<(Seq<usize>, Seq<DbParentsObj>)>) -> DbView {
    let (w, last) = condense_upto(v, v.tag_next, orders);
    vacuumed(DbView { tag_next: last, ..w })
}

/// Removing a tag and then its relationships, for each tag of `tids` in
/// turn, with the given visiting orders.
pub open spec fn remove_tags_all(v: DbView, tids: Seq<usize>, ps: Seq<Seq<DbParentsObj>>, fs: Seq<Seq<usize>>) -> DbView
    decreases tids.len(),
{
    if tids.len() == 0 {
        v
    } else {
        let n = (tids.len() - 1) as int;
        let w = remove_tags_all(v, tids.drop_last(), ps, fs);
        delete_tag_relationship_spec(tag_remove_spec(w, tids[n], ps[n]), tids[n], fs[n])
    }
}

pub proof fn lemma_rels_add_all_tables(v: DbView, fs: Seq<usize>, tag: usize)
    ensures
        rels_add_all(v, fs, tag).tags == v.tags,
        rels_add_all(v, fs, tag).tag_next == v.tag_next,
        rels_add_all(v, fs, tag).parents == v.parents,
        rels_add_all(v, fs, tag).files == v.files,
        rels_add_all(v, fs, tag).namespaces == v.namespaces,
        rels_add_all(v, fs, tag).settings == v.settings,
        rels_add_all(v, fs, tag).jobs == v.jobs,
    decreases fs.len(),
{
    if fs.len() > 0 {
        lemma_rels_add_all_tables(v, fs.drop_last(), tag);
    }
}


pub proof fn lemma_rel_sql_all_tables(v: DbView, fs: Seq<usize>, tag: usize)
    ensures
        rel_sql_all(v, fs, tag).tags == v.tags,
        rel_sql_all(v, fs, tag).relationships == v.relationships,
    decreases fs.len(),
{
    if fs.len() > 0 {
        lemma_rel_sql_all_tables(v, fs.drop_last(), tag);
    }
}

pub proof fn lemma_recreate_prefix(v: DbView, src: Map<usize, DbTagNNS>, tids: Seq<usize>, f1: Seq<Seq<usize>>, f2: Seq<Seq<usize>>)
    requires
        tids.len() <= f1.len(),
        tids.len() <= f2.len(),
        forall|i: int| 0 <= i < tids.len() ==> f1[i] == f2[i],
    ensures
        recreate_all(v, src, tids, f1) == recreate_all(v, src, tids, f2),
    decreases tids.len(),
{
    if tids.len() > 0 {
        lemma_recreate_prefix(v, src, tids.drop_last(), f1, f2);
    }
}

pub proof fn lemma_condense_prefix(v: DbView, n: nat, o1: Seq<(Seq<usize>, Seq<DbParentsObj>)>, o2: Seq<(Seq<usize>, Seq<DbParentsObj>)>)
    requires
        n <= o1.len(),
        n <= o2.len(),
        forall|i: int| 0 <= i < n ==> o1[i] == o2[i],
    ensures
        condense_upto(v, n, o1) == condense_upto(v, n, o2),
        condense_orders_ok(v, n, o1) == condense_orders_ok(v, n, o2),
    decreases n,
{
    if n > 0 {
        lemma_condense_prefix(v, (n - 1) as nat, o1, o2);
    }
}

pub proof fn lemma_remove_tags_prefix(v: DbView, tids: Seq<usize>, p1: Seq<Seq<DbParentsObj>>, p2: Seq<Seq<DbParentsObj>>, f1: Seq<Seq<usize>>, f2: Seq<Seq<usize>>)
    requires
        tids.len() <= p1.len(),
        tids.len() <= p2.len(),
        tids.len() <= f1.len(),
        tids.len() <= f2.len(),
        forall|i: int| 0 <= i < tids.len() ==> p1[i] == p2[i] && f1[i] == f2[i],
    ensures
        remove_tags_all(v, tids, p1, f1) == remove_tags_all(v, tids, p2, f2),
        remove_tags_ok(v, tids, p1, f1) == remove_tags_ok(v, tids, p2, f2),
    decreases tids.len(),
{
    if tids.len() > 0 {
        lemma_remove_tags_prefix(v, tids.drop_last(), p1, p2, f1, f2);
    }
}

/// Where the database keeps what it has read.
#[derive(Debug, Clone)]
pub enum CacheType {
    /// In memory, in the database's own tables (the default).
    InMemdb,
    /// In an in-memory sqlite database.
    InMemory,
    /// Nowhere: the file at this path is asked each time.
    Bare(String),
}

/// The database: in-memory tables, the pending statements for the sqlite
/// file, and the commit counter that decides when to flush.
pub struct Main {
    _dbpath: String,
    _vers: isize,
    files: IdMap<DbFileObj>,
    file_next: usize,
    tags: IdMap<DbTagNNS>,
    tag_next: usize,
    namespaces: IdMap<DbNamespaceObj>,
    ns_next: usize,
    relationships: RelTable,
    parents: VecSet<DbParentsObj>,
    settings: SettingsTable,
    jobs: IdMap<DbJobsObj>,
    job_next: usize,
    _dbcommitnum: usize,
    _dbcommitnum_static: usize,
    _tables_loaded: Vec<LoadDBTable>,
    outbox: Vec<SqlOp>,
}

impl Main {
    pub closed spec fn view(&self) -> DbView {
        DbView {
            path: self._dbpath@,
            vers: self._vers as int,
            files: self.files@,
            file_next: self.file_next as nat,
            tags: self.tags@,
            tag_next: self.tag_next as nat,
            namespaces: self.namespaces@,
            ns_next: self.ns_next as nat,
            relationships: self.relationships@,
            parents: self.parents@,
            settings: self.settings@.map_values(|st: DbSettingObj| setting_view(st)),
            jobs: self.jobs@,
            job_next: self.job_next as nat,
            commit_num: self._dbcommitnum as nat,
            commit_static: self._dbcommitnum_static as nat,
            loaded: self._tables_loaded@,
            outbox: self.outbox@.map_values(|op: SqlOp| op_view(op)),
        }
    }

    /// The tables are well formed and the abstract state keeps its invariant.
    pub closed spec fn wf(&self) -> bool {
        &&& self.files.wf()
        &&& self.tags.wf()
        &&& self.namespaces.wf()
        &&& self.relationships.wf()
        &&& self.parents.wf()
        &&& self.settings.wf()
        &&& self.jobs.wf()
        &&& view_wf(self@)
    }

    /// A well-formed database has a well-formed abstract state, so the laws
    /// stated over the state apply to it.
    pub proof fn lemma_wf(&self)
        requires
            self.wf(),
        ensures
            view_wf(self@),
    {
    }

    /// An empty database for the file at `path`, nothing queued.
    pub fn empty(path: String, vers: isize) -> (r: Main)
        ensures
            r.wf(),
            r@.path == path@,
            r@.vers == vers as int,
            r@.files.is_empty(),
            r@.tags.is_empty(),
            r@.namespaces.is_empty(),
            r@.relationships.is_empty(),
            r@.parents.is_empty(),
            r@.settings.is_empty(),
            r@.jobs.is_empty(),
            r@.file_next == 0,
            r@.tag_next == 0,
            r@.ns_next == 0,
            r@.job_next == 0,
            r@.commit_num == 0,
            r@.commit_static == 3000,
            r@.loaded.len() == 0,
            r@.outbox.len() == 0,
    {
        Main {
            _dbpath: path,
            _vers: vers,
            files: IdMap::new(),
            file_next: 0,
            tags: IdMap::new(),
            tag_next: 0,
            namespaces: IdMap::new(),
            ns_next: 0,
            relationships: RelTable::new(),
            parents: VecSet::new(),
            settings: SettingsTable::new(),
            jobs: IdMap::new(),
            job_next: 0,
            _dbcommitnum: 0,
            _dbcommitnum_static: 3000,
            _tables_loaded: Vec::new(),
            outbox: Vec::new(),
        }
    }

    /// Hands over the queued statements, oldest first, and empties the queue.
    pub fn take_outbox(&mut self) -> (r: Vec<SqlOp>)
        requires
            old(self).wf(),
        ensures
            final(self).wf(),
            r@.map_values(|op: SqlOp| op_view(op)) == old(self)@.outbox,
            final(self)@ == (DbView { outbox: Seq::empty(), ..old(self)@ }),
    {
        let mut r: Vec<SqlOp> = Vec::new();
        std::mem::swap(&mut r, &mut self.outbox);
        assert(self.outbox@.map_values(|op: SqlOp| op_view(op)) =~= Seq::empty());
        assert(self@ =~= (DbView { outbox: Seq::empty(), ..old(self)@ }));
        r
    }

    pub(crate) fn push_op(&mut self, op: SqlOp)
        requires
            old(self).wf(),
        ensures
            final(self).wf(),
            final(self)@ == with_op(old(self)@, op_view(op)),
    {
        self.outbox.push(op);
        assert(self.outbox@.map_values(|o: SqlOp| op_view(o)) =~= old(self).outbox@.map_values(|o: SqlOp| op_view(o)).push(op_view(op)));
        assert(self@ =~= with_op(old(self)@, op_view(op)));
    }

    /// Starts a transaction for bulk inserts.
    pub fn transaction_start(&mut self)
        requires
            old(self).wf(),
        ensures
            final(self).wf(),
            final(self)@ == with_op(old(self)@, OpView::Begin),
    {
        self.push_op(SqlOp::Begin);
    }

    /// Commits what is pending and opens a new transaction.
    pub fn transaction_flush(&mut self)
        requires
            old(self).wf(),
        ensures
            final(self).wf(),
            final(self)@ == flushed(old(self)@),
    {
        self._dbcommitnum = 0;
        self.outbox.push(SqlOp::Commit);
        self.outbox.push(SqlOp::Begin);
        assert(self.outbox@.map_values(|o: SqlOp| op_view(o)) =~= old(self).outbox@.map_values(|o: SqlOp| op_view(o)).push(OpView::Commit).push(OpView::Begin));
        assert(self@ =~= flushed(old(self)@));
    }

    /// Commits what is pending without opening a new transaction.
    pub fn transaction_close(&mut self)
        requires
            old(self).wf(),
        ensures
            final(self).wf(),
            final(self)@ == (DbView { commit_num: 0, outbox: old(self)@.outbox.push(OpView::Commit), ..old(self)@ }),
    {
        self.outbox.push(SqlOp::Commit);
        self._dbcommitnum = 0;
        assert(self.outbox@.map_values(|o: SqlOp| op_view(o)) =~= old(self).outbox@.map_values(|o: SqlOp| op_view(o)).push(OpView::Commit));
        assert(self@ =~= (DbView { commit_num: 0, outbox: old(self)@.outbox.push(OpView::Commit), ..old(self)@ }));
    }

    /// Counts one pending write and flushes once the threshold is reached.
    pub(crate) fn db_commit_man(&mut self)
        requires
            old(self).wf(),
        ensures
            final(self).wf(),
            final(self)@ == commit_step(old(self)@),
    {
        let n = self._dbcommitnum + 1;
        if n >= self._dbcommitnum_static {
            self.transaction_flush();
        } else {
            self._dbcommitnum = n;
        }
        assert(self@ =~= commit_step(old(self)@));
    }
}

impl Main {
    fn find_tag(&self, name: &String, ns: usize) -> (r: Option<usize>)
        requires
            self.wf(),
        ensures
            r == tag_id_for(self@.tags, name@, ns),
    {
        let n = self.tags.len();
        let mut i: usize = 0;
        while i < n
            invariant
                self.wf(),
                n == self.tags.entries().len(),
                i <= n,
                forall|j: int| 0 <= j < i ==> !tag_is(#[trigger] self.tags.entries()[j].1, name@, ns),
            decreases n - i,
        {
            let t = self.tags.value_at(i);
            if t.namespace == ns && t.name == *name {
                let k = self.tags.key_at(i);
                proof {
                    self.tags.lemma_entries();
                    assert(self@.tags.dom().contains(self.tags.entries()[i as int].0));
                    lemma_tag_id_for(self@.tags, k, name@, ns);
                }
                return Some(k);
            }
            i = i + 1;
        }
        proof {
            self.tags.lemma_entries();
            assert forall|id: usize| self@.tags.dom().contains(id) implies !tag_is(#[trigger] self@.tags[id], name@, ns) by {
                assert(has_key(self.tags.entries(), id));
                let j = choose|j: int| 0 <= j < self.tags.entries().len() && self.tags.entries()[j].0 == id;
                assert(!tag_is(self.tags.entries()[j].1, name@, ns));
            }
        }
        None
    }

    fn find_namespace(&self, name: &String) -> (r: Option<usize>)
        requires
            self.wf(),
        ensures
            r == ns_id_for(self@.namespaces, name@),
    {
        let n = self.namespaces.len();
        let mut i: usize = 0;
        while i < n
            invariant
                self.wf(),
                n == self.namespaces.entries().len(),
                i <= n,
                forall|j: int| 0 <= j < i ==> (#[trigger] self.namespaces.entries()[j].1).name@ != name@,
            decreases n - i,
        {
            let t = self.namespaces.value_at(i);
            if t.name == *name {
                let k = self.namespaces.key_at(i);
                proof {
                    self.namespaces.lemma_entries();
                    assert(self@.namespaces.dom().contains(self.namespaces.entries()[i as int].0));
                    lemma_ns_id_for(self@.namespaces, k, name@);
                }
                return Some(k);
            }
            i = i + 1;
        }
        proof {
            self.namespaces.lemma_entries();
            assert forall|id: usize| self@.namespaces.dom().contains(id) implies (#[trigger] self@.namespaces[id]).name@ != name@ by {
                assert(has_key(self.namespaces.entries(), id));
                let j = choose|j: int| 0 <= j < self.namespaces.entries().len() && self.namespaces.entries()[j].0 == id;
                assert(self.namespaces.entries()[j].1.name@ != name@);
            }
        }
        None
    }

    fn find_file(&self, hash: &String) -> (r: Option<usize>)
        requires
            self.wf(),
        ensures
            r == file_id_for(self@.files, hash@),
    {
        let n = self.files.len();
        let mut i: usize = 0;
        while i < n
            invariant
                self.wf(),
                n == self.files.entries().len(),
                i <= n,
                forall|j: int| 0 <= j < i ==> (#[trigger] self.files.entries()[j].1).hash@ != hash@,
            decreases n - i,
        {
            let t = self.files.value_at(i);
            if t.hash == *hash {
                let k = self.files.key_at(i);
                proof {
                    self.files.lemma_entries();
                    assert(self@.files.dom().contains(self.files.entries()[i as int].0));
                    lemma_file_id_for(self@.files, k, hash@);
                }
                return Some(k);
            }
            i = i + 1;
        }
        proof {
            self.files.lemma_entries();
            assert forall|id: usize| self@.files.dom().contains(id) implies (#[trigger] self@.files[id]).hash@ != hash@ by {
                assert(has_key(self.files.entries(), id));
                let j = choose|j: int| 0 <= j < self.files.entries().len() && self.files.entries()[j].0 == id;
                assert(self.files.entries()[j].1.hash@ != hash@);
            }
        }
        None
    }

    fn tag_add_sql(&mut self, tag_id: usize, tags: String, namespace: usize)
        requires
            old(self).wf(),
        ensures
            final(self).wf(),
            final(self)@ == commit_step(with_op(old(self)@, OpView::InsertTag { id: tag_id, name: tags@, namespace: namespace })),
    {
        self.push_op(SqlOp::InsertTag { id: tag_id, name: tags, namespace: namespace });
        self.db_commit_man();
    }

    /// Adds a tag, unless one of that name and namespace exists, and returns
    /// its id. With `id`, a new tag is stored under that id. The row is
    /// queued for the file when `addtodb` holds and the tag is new (or an id
    /// was given).
    pub fn tag_add(&mut self, tags: String, namespace: usize, addtodb: bool, id: Option<usize>) -> (r: usize)
        requires
            old(self).wf(),
            tag_add_fits(old(self)@, tags@, namespace, id),
        ensures
            final(self).wf(),
            (r, final(self)@) == tag_add_spec(old(self)@, tags, namespace, addtodb, id),
            tag_id_for(final(self)@.tags, tags@, namespace) == Some(r),
    {
        match self.find_tag(&tags, namespace) {
            Some(t) => {
                if addtodb && id.is_some() {
                    self.tag_add_sql(t, tags, namespace);
                    self.db_commit_man();
                }
                t
            },
            None => {
                let nid = match id {
                    Some(i) => i,
                    None => self.tag_next,
                };
                let t = DbTagNNS { name: tags.clone(), namespace: namespace };
                let ghost v0 = self@;
                self.tags.insert(nid, t);
                if nid >= self.tag_next {
                    self.tag_next = nid + 1;
                }
                proof {
                    assert(self@ =~= with_tag(v0, nid, t));
                    lemma_with_tag_wf(v0, nid, t);
                }
                if addtodb {
                    self.tag_add_sql(nid, tags, namespace);
                    self.db_commit_man();
                }
                nid
            },
        }
    }
}

impl Main {
    /// Adds a namespace unless one of that name exists, and returns its id.
    /// A new namespace gets the next free id and is queued for the file when
    /// `addtodb` holds.
    pub fn namespace_add(&mut self, name: String, description: Option<String>, addtodb: bool) -> (r: usize)
        requires
            old(self).wf(),
            ns_id_for(old(self)@.namespaces, name@).is_none() ==> old(self)@.ns_next < usize::MAX,
        ensures
            final(self).wf(),
            (r, final(self)@) == namespace_add_spec(old(self)@, name, description, addtodb),
            ns_id_for(final(self)@.namespaces, name@) == Some(r),
    {
        match self.find_namespace(&name) {
            Some(n) => n,
            None => {
                let nid = self.ns_next;
                if addtodb {
                    self.push_op(SqlOp::InsertNamespace {
                        id: nid,
                        name: name.clone(),
                        description: copy_opt_string(&description),
                    });
                    self.db_commit_man();
                }
                let ns = DbNamespaceObj { id: nid, name: name, description: description };
                let ghost v0 = self@;
                self.namespaces.insert(nid, ns);
                self.ns_next = nid + 1;
                proof {
                    assert(self@ =~= with_namespace(v0, ns));
                    lemma_with_namespace_wf(v0, ns);
                }
                nid
            },
        }
    }

    /// Adds a file unless one of that hash exists, and returns its id. A new
    /// file is stored under `id`, or the next free id, and queued for the
    /// file when `addtodb` holds.
    pub fn file_add(&mut self, id: Option<usize>, hash: &String, extension: &String, location: &String, addtodb: bool) -> (r: usize)
        requires
            old(self).wf(),
            file_add_fits(old(self)@, id, hash@),
        ensures
            final(self).wf(),
            (r, final(self)@) == file_add_spec(old(self)@, id, *hash, *extension, *location, addtodb),
            file_id_for(final(self)@.files, hash@) == Some(r),
    {
        match self.find_file(hash) {
            Some(f) => f,
            None => {
                let nid = self.file_add_db(id, hash.clone(), extension.clone(), location.clone());
                if addtodb {
                    self.push_op(SqlOp::InsertFile {
                        id: nid,
                        hash: hash.clone(),
                        ext: extension.clone(),
                        location: location.clone(),
                    });
                    self.db_commit_man();
                }
                nid
            },
        }
    }

    /// Stores a file row under `id_insert`, or the next free id, and returns
    /// the id. No statement is queued.
    pub fn file_add_db(&mut self, id_insert: Option<usize>, hash_insert: String, extension_insert: String, location_insert: String) -> (r: usize)
        requires
            old(self).wf(),
            file_id_for(old(self)@.files, hash_insert@).is_none(),
            file_add_fits(old(self)@, id_insert, hash_insert@),
        ensures
            final(self).wf(),
            r == (match id_insert { Some(i) => i, None => old(self)@.file_next as usize }),
            final(self)@ == with_file(old(self)@, r, DbFileObj { id: Some(r), hash: hash_insert, ext: extension_insert, location: location_insert }),
            file_id_for(final(self)@.files, hash_insert@) == Some(r),
    {
        let nid = match id_insert {
            Some(i) => i,
            None => self.file_next,
        };
        let f = DbFileObj { id: Some(nid), hash: hash_insert, ext: extension_insert, location: location_insert };
        let ghost v0 = self@;
        self.files.insert(nid, f);
        if nid >= self.file_next {
            self.file_next = nid + 1;
        }
        proof {
            assert(self@ =~= with_file(v0, nid, f));
            lemma_with_file_wf(v0, nid, f);
        }
        nid
    }

    /// Adds the relationship "file carries tag" unless present; it is queued
    /// for the file when `addtodb` holds and it is new.
    pub fn relationship_add(&mut self, file: usize, tag: usize, addtodb: bool)
        requires
            old(self).wf(),
        ensures
            final(self).wf(),
            final(self)@ == relationship_add_spec(old(self)@, file, tag, addtodb),
            final(self)@.relationships.contains(DbRelationshipObj { fileid: file, tagid: tag }),
    {
        let rel = DbRelationshipObj { fileid: file, tagid: tag };
        let existcheck = self.relationships.contains(&rel);
        if addtodb && !existcheck {
            self.push_op(SqlOp::InsertRelationship { file: file, tag: tag });
            self.db_commit_man();
        }
        if !existcheck {
            let ghost v1 = self@;
            self.relationships.insert(rel);
            assert(self@ =~= (DbView { relationships: v1.relationships.insert(rel), ..v1 }));
        }
    }

    /// Adds a parent relation between two tags; it is queued for the file
    /// when `addtodb` holds and it is new.
    pub fn parents_add(&mut self, tag_namespace_id: usize, tag_id: usize, relate_namespace_id: usize, relate_tag_id: usize, addtodb: bool)
        requires
            old(self).wf(),
        ensures
            final(self).wf(),
            final(self)@ == parents_add_spec(old(self)@, DbParentsObj {
                tag_namespace_id: tag_namespace_id,
                tag_id: tag_id,
                relate_tag_id: relate_tag_id,
                relate_namespace_id: relate_namespace_id,
            }, addtodb),
    {
        let p = DbParentsObj {
            tag_namespace_id: tag_namespace_id,
            tag_id: tag_id,
            relate_tag_id: relate_tag_id,
            relate_namespace_id: relate_namespace_id,
        };
        let present = self.parents.contains(&p);
        if addtodb && !present {
            self.push_op(SqlOp::InsertParent {
                tag_namespace_id: tag_namespace_id,
                tag_id: tag_id,
                relate_namespace_id: relate_namespace_id,
                relate_tag_id: relate_tag_id,
            });
            self.db_commit_man();
        }
        let ghost v1 = self@;
        self.parents.insert(p);
        assert(self@ =~= (DbView { parents: v1.parents.insert(p), ..v1 }));
    }

    /// Stores a setting under its name (queued as an upsert when `addtodb`
    /// holds), then flushes.
    pub fn setting_add(&mut self, name: String, pretty: Option<String>, num: Option<usize>, param: Option<String>, addtodb: bool)
        requires
            old(self).wf(),
        ensures
            final(self).wf(),
            final(self)@ == setting_add_spec(old(self)@, DbSettingObj { name: name, pretty: pretty, num: num, param: param }, addtodb),
            final(self)@.settings.dom().contains(name@),
            final(self)@.settings[name@] == setting_view(DbSettingObj { name: name, pretty: pretty, num: num, param: param }),
    {
        if addtodb {
            self.push_op(SqlOp::UpsertSetting {
                name: name.clone(),
                pretty: copy_opt_string(&pretty),
                num: num,
                param: copy_opt_string(&param),
            });
            self.db_commit_man();
        }
        let s = DbSettingObj { name: name, pretty: pretty, num: num, param: param };
        let ghost v1 = self@;
        let ghost old_settings = self.settings@;
        self.settings.put(s);
        assert(self.settings@.map_values(|st: DbSettingObj| setting_view(st)) =~= old_settings.map_values(|st: DbSettingObj| setting_view(st)).insert(s.name@, setting_view(s)));
        assert(self@ =~= (DbView { settings: v1.settings.insert(s.name@, setting_view(s)), ..v1 }));
        self.transaction_flush();
    }

    fn jobref_new(&mut self, job: DbJobsObj)
        requires
            old(self).wf(),
            old(self)@.job_next < usize::MAX,
        ensures
            final(self).wf(),
            final(self)@ == with_job(old(self)@, job),
    {
        let id = self.job_next;
        self.jobs.insert(id, job);
        self.job_next = id + 1;
        assert(self@ =~= with_job(old(self)@, job));
    }

    /// Stores a job under the next job id. No statement is queued.
    pub fn jobs_add_new_todb(
        &mut self,
        site: Option<String>,
        query: Option<String>,
        time_offset: Option<usize>,
        current_time: Option<usize>,
        committype: Option<CommitType>,
        jobtype: DbJobType,
    )
        requires
            old(self).wf(),
            old(self)@.job_next < usize::MAX,
        ensures
            final(self).wf(),
            final(self)@ == with_job(old(self)@, DbJobsObj {
                time: current_time,
                reptime: time_offset,
                site: site,
                param: query,
                jobtype: jobtype,
                committype: committype,
            }),
    {
        let wrap = DbJobsObj {
            site: site,
            param: query,
            time: current_time,
            reptime: time_offset,
            jobtype: jobtype,
            committype: committype,
        };
        self.jobref_new(wrap);
    }

    /// Stores a job with its times under the next job id; when `addtodb`
    /// holds the row is queued for the file as well.
    pub fn jobs_add(
        &mut self,
        time: usize,
        reptime: usize,
        site: &String,
        param: &String,
        filler: bool,
        addtodb: bool,
        committype: &CommitType,
        jobtype: DbJobType,
    )
        requires
            old(self).wf(),
            old(self)@.job_next < usize::MAX,
        ensures
            final(self).wf(),
            final(self)@ == ({
                let v1 = with_job(old(self)@, DbJobsObj {
                    time: Some(time),
                    reptime: Some(reptime),
                    site: Some(*site),
                    param: Some(*param),
                    jobtype: jobtype,
                    committype: None,
                });
                if addtodb {
                    commit_step(with_op(v1, OpView::InsertJob {
                        time: time,
                        reptime: reptime,
                        site: site@,
                        param: param@,
                        committype: *committype,
                        jobtype: jobtype,
                    }))
                } else {
                    v1
                }
            }),
    {
        self.jobref_new(DbJobsObj {
            time: Some(time),
            reptime: Some(reptime),
            site: Some(site.clone()),
            param: Some(param.clone()),
            committype: None,
            jobtype: jobtype,
        });
        if addtodb {
            self.push_op(SqlOp::InsertJob {
                time: time,
                reptime: reptime,
                site: site.clone(),
                param: param.clone(),
                committype: *committype,
                jobtype: jobtype,
            });
            self.db_commit_man();
        }
    }
}

impl Main {
    /// The tag stored under an id.
    pub fn tag_id_get(&self, uid: &usize) -> (r: Option<&DbTagNNS>)
        requires
            self.wf(),
        ensures
            match r {
                Some(t) => self@.tags.dom().contains(*uid) && *t == self@.tags[*uid],
                None => !self@.tags.dom().contains(*uid),
            },
    {
        self.tags.get(*uid)
    }

    /// The files that carry a tag; `None` when there are none.
    pub fn relationship_get_fileid(&self, tag: &usize) -> (r: Option<HashSet<usize>>)
        requires
            self.wf(),
        ensures
            match r {
                Some(s) => s@ == files_of_tag(self@, *tag) && !s@.is_empty(),
                None => files_of_tag(self@, *tag).is_empty(),
            },
    {
        let fs = self.relationships.files_of(*tag);
        let out = set_of(&fs);
        assert(out@ =~= files_of_tag(self@, *tag));
        if out.is_empty() {
            None
        } else {
            Some(out)
        }
    }

    /// The tags a file carries; `None` when there are none.
    pub fn relationship_get_tagid(&self, file: &usize) -> (r: Option<HashSet<usize>>)
        requires
            self.wf(),
        ensures
            match r {
                Some(s) => s@ == tags_of_file(self@, *file) && !s@.is_empty(),
                None => tags_of_file(self@, *file).is_empty(),
            },
    {
        let ts = self.relationships.tags_of(*file);
        let out = set_of(&ts);
        assert(out@ =~= tags_of_file(self@, *file));
        if out.is_empty() {
            None
        } else {
            Some(out)
        }
    }

    /// One file that carries a tag, if any does.
    pub fn relationship_get_one_fileid(&self, tag: &usize) -> (r: Option<usize>)
        requires
            self.wf(),
        ensures
            match r {
                Some(f) => files_of_tag(self@, *tag).contains(f),
                None => files_of_tag(self@, *tag).is_empty(),
            },
    {
        let fs = self.relationships.files_of(*tag);
        if fs.len() == 0 {
            assert(files_of_tag(self@, *tag) =~= fs@.to_set());
            None
        } else {
            assert(fs@.to_set().contains(fs@[0]));
            Some(fs[0])
        }
    }

    /// The setting stored under a name.
    pub fn settings_get_name(&self, name: &String) -> (r: Option<&DbSettingObj>)
        requires
            self.wf(),
        ensures
            match r {
                Some(st) => self@.settings.dom().contains(name@) && setting_view(*st) == self@.settings[name@],
                None => !self@.settings.dom().contains(name@),
            },
    {
        self.settings.get(name)
    }

    /// The id the next job gets, which is the number of jobs added so far.
    pub fn jobs_get_max(&self) -> (r: usize)
        ensures
            r == self@.job_next,
    {
        self.job_next
    }

    /// All jobs, by id.
    pub fn jobs_get_all(&self) -> (r: &IdMap<DbJobsObj>)
        requires
            self.wf(),
        ensures
            r@ == self@.jobs,
            r.wf(),
    {
        &self.jobs
    }

    /// The id of the file with a hash.
    pub fn file_get_hash(&self, hash: &String) -> (r: Option<usize>)
        requires
            self.wf(),
        ensures
            r == file_id_for(self@.files, hash@),
    {
        self.find_file(hash)
    }

    /// The id of the tag with a name and namespace.
    pub fn tag_get_name(&self, tag: String, namespace: usize) -> (r: Option<usize>)
        requires
            self.wf(),
        ensures
            r == tag_id_for(self@.tags, tag@, namespace),
    {
        self.find_tag(&tag, namespace)
    }

    /// The id of the namespace with a name.
    pub fn namespace_get(&self, inp: &String) -> (r: Option<usize>)
        requires
            self.wf(),
        ensures
            r == ns_id_for(self@.namespaces, inp@),
    {
        self.find_namespace(inp)
    }

    /// The namespace that one side of a search names: by its name where it
    /// gives one, else the id it gives.
    fn search_for_namespace(&self, search: &DbSearchObject) -> (r: Option<usize>)
        requires
            self.wf(),
        ensures
            r == search_namespace(self@, *search),
    {
        match &search.namespace {
            None => search.namespace_id,
            Some(name) => self.namespace_get(name),
        }
    }

    /// The advanced search: the namespace of its first tag, `None` where
    /// that cannot be found (the caller reports it).
    pub fn db_search_adv(&self, db_search: DbSearchQuery) -> (r: Option<usize>)
        requires
            self.wf(),
        ensures
            r == search_namespace(self@, db_search.tag_one),
    {
        self.search_for_namespace(&db_search.tag_one)
    }

    /// The namespace stored under an id.
    pub fn namespace_get_string(&self, inp: &usize) -> (r: Option<&DbNamespaceObj>)
        requires
            self.wf(),
        ensures
            match r {
                Some(n) => self@.namespaces.dom().contains(*inp) && *n == self@.namespaces[*inp],
                None => !self@.namespaces.dom().contains(*inp),
            },
    {
        self.namespaces.get(*inp)
    }

    /// The file stored under an id.
    pub fn file_get_id(&self, fileid: &usize) -> (r: Option<&DbFileObj>)
        requires
            self.wf(),
        ensures
            match r {
                Some(f) => self@.files.dom().contains(*fileid) && *f == self@.files[*fileid],
                None => !self@.files.dom().contains(*fileid),
            },
    {
        self.files.get(*fileid)
    }

    /// The tags of a namespace; `None` when there are none.
    pub fn namespage_get_tagids(&self, id: &usize) -> (r: Option<HashSet<usize>>)
        requires
            self.wf(),
        ensures
            match r {
                Some(s) => s@ == tags_of_namespace(self@, *id) && !s@.is_empty(),
                None => tags_of_namespace(self@, *id).is_empty(),
            },
    {
        let mut out: HashSet<usize> = HashSet::new();
        let n = self.tags.len();
        let mut i: usize = 0;
        let ghost ents = self.tags.entries();
        while i < n
            invariant
                self.wf(),
                n == ents.len(),
                ents == self.tags.entries(),
                i <= n,
                out@ == Set::new(|t: usize| exists|j: int| 0 <= j < i && ents[j].0 == t && ents[j].1.namespace == *id),
            decreases n - i,
        {
            let k = self.tags.key_at(i);
            let ghost before = out@;
            if self.tags.value_at(i).namespace == *id {
                out.insert(k);
            }
            proof {
                assert forall|t: usize| #[trigger] out@.contains(t) == (exists|j: int| 0 <= j < i + 1 && ents[j].0 == t && ents[j].1.namespace == *id) by {
                    if out@.contains(t) && !before.contains(t) {
                        assert(ents[i as int].0 == t);
                    }
                    if before.contains(t) {
                        let j = choose|j: int| 0 <= j < i && ents[j].0 == t && ents[j].1.namespace == *id;
                        assert(0 <= j < i + 1);
                    }
                }
                assert(out@ =~= Set::new(|t: usize| exists|j: int| 0 <= j < i + 1 && ents[j].0 == t && ents[j].1.namespace == *id));
            }
            i = i + 1;
        }
        proof {
            self.tags.lemma_entries();
            assert forall|t: usize| #[trigger] out@.contains(t) == tags_of_namespace(self@, *id).contains(t) by {
                if self@.tags.dom().contains(t) {
                    assert(has_key(ents, t));
                    let j = choose|j: int| 0 <= j < ents.len() && ents[j].0 == t;
                    if self@.tags[t].namespace == *id {
                        assert(ents[j].1.namespace == *id);
                    }
                }
                if out@.contains(t) {
                    let j = choose|j: int| 0 <= j < n && ents[j].0 == t && ents[j].1.namespace == *id;
                    assert(self@.tags.dom().contains(ents[j].0));
                }
            }
            assert(out@ =~= tags_of_namespace(self@, *id));
        }
        if out.is_empty() {
            None
        } else {
            Some(out)
        }
    }

    /// The ids of all namespaces, each once.
    pub fn namespace_keys(&self) -> (r: Vec<usize>)
        requires
            self.wf(),
        ensures
            r@.to_set() == self@.namespaces.dom(),
            r@.no_duplicates(),
    {
        self.namespaces.keys()
    }

    /// The ids of all files.
    pub fn file_get_list_id(&self) -> (r: HashSet<usize>)
        requires
            self.wf(),
        ensures
            r@ == self@.files.dom(),
    {
        let keys = self.files.keys();
        let mut out: HashSet<usize> = HashSet::new();
        let mut i: usize = 0;
        while i < keys.len()
            invariant
                i <= keys@.len(),
                out@ == Set::new(|k: usize| exists|j: int| 0 <= j < i && keys@[j] == k),
            decreases keys@.len() - i,
        {
            let ghost before = out@;
            out.insert(keys[i]);
            proof {
                assert forall|k: usize| #[trigger] out@.contains(k) == (exists|j: int| 0 <= j < i + 1 && keys@[j] == k) by {
                    if before.contains(k) {
                        let j = choose|j: int| 0 <= j < i && keys@[j] == k;
                        assert(0 <= j < i + 1);
                    }
                }
                assert(out@ =~= Set::new(|k: usize| exists|j: int| 0 <= j < i + 1 && keys@[j] == k));
            }
            i = i + 1;
        }
        assert(out@ =~= keys@.to_set());
        out
    }

    /// All files, by id.
    pub fn file_get_list_all(&self) -> (r: &IdMap<DbFileObj>)
        requires
            self.wf(),
        ensures
            r@ == self@.files,
            r.wf(),
    {
        &self.files
    }

    /// The location files are stored at: the text of the `FilesLoc` setting.
    pub fn location_get(&self) -> (r: String)
        requires
            self.wf(),
            self@.settings.dom().contains("FilesLoc"@),
            self@.settings["FilesLoc"@].param.is_some(),
        ensures
            r@ == self@.settings["FilesLoc"@].param.unwrap(),
    {
        let key = String::from_str("FilesLoc");
        match self.settings_get_name(&key) {
            Some(st) => match &st.param {
                Some(p) => p.clone(),
                None => {
                    assert(false);
                    String::new()
                },
            },
            None => {
                assert(false);
                String::new()
            },
        }
    }

    /// The location of the database file.
    pub fn get_db_loc(&self) -> (r: String)
        ensures
            r@ == self@.path,
    {
        self._dbpath.clone()
    }

    /// Reads the commit threshold from the `DBCOMMITNUM` setting.
    pub fn db_commit_man_set(&mut self)
        requires
            old(self).wf(),
            old(self)@.settings.dom().contains("DBCOMMITNUM"@),
            old(self)@.settings["DBCOMMITNUM"@].num.is_some(),
        ensures
            final(self).wf(),
            final(self)@ == (DbView { commit_static: old(self)@.settings["DBCOMMITNUM"@].num.unwrap() as nat, ..old(self)@ }),
    {
        let key = String::from_str("DBCOMMITNUM");
        let n = match self.settings_get_name(&key) {
            Some(st) => match st.num {
                Some(n) => n,
                None => {
                    assert(false);
                    0
                },
            },
            None => {
                assert(false);
                0
            },
        };
        self._dbcommitnum_static = n;
        assert(self@ =~= (DbView { commit_static: old(self)@.settings["DBCOMMITNUM"@].num.unwrap() as nat, ..old(self)@ }));
    }
}

impl Main {
    /// The files that carry a tag, each once.
    fn files_vec(&self, tag: usize) -> (r: Vec<usize>)
        requires
            self.wf(),
        ensures
            r@.to_set() == files_of_tag(self@, tag),
            r@.no_duplicates(),
    {
        let r = self.relationships.files_of(tag);
        assert(r@.to_set() =~= files_of_tag(self@, tag));
        r
    }

    /// The files one search step selects.
    fn step_vec(&self, s: &SearchHolder) -> (r: Option<Vec<usize>>)
        requires
            self.wf(),
        ensures
            match r {
                Some(v) => step_files(self@, *s) == Some(v@.to_set()),
                None => step_files(self@, *s).is_none(),
            },
    {
        let (a, b) = match s {
            SearchHolder::AND(p) => *p,
            SearchHolder::OR(p) => *p,
            SearchHolder::NOT(p) => *p,
        };
        let fa = self.files_vec(a);
        let fb = self.files_vec(b);
        if fa.len() == 0 || fb.len() == 0 {
            proof {
                if fa.len() == 0 {
                    assert(fa@.to_set() =~= Set::empty());
                } else {
                    assert(fb@.to_set() =~= Set::empty());
                }
            }
            return None;
        }
        proof {
            assert(fa@.to_set().contains(fa@[0]));
            assert(fb@.to_set().contains(fb@[0]));
        }
        match s {
            SearchHolder::AND(_) => Some(vec_filter(&fa, &fb, true)),
            SearchHolder::OR(_) => Some(vec_union(&fa, &fb)),
            SearchHolder::NOT(_) => Some(vec_filter(&fa, &fb, false)),
        }
    }

    /// Whether a search can be answered: with a relate list, every
    /// intersecting pair of it names steps that select files; without one,
    /// every step selects files.
    pub fn search_answerable_exec(&self, search: &SearchObj) -> (b: bool)
        requires
            self.wf(),
        ensures
            b == search_answerable(self@, *search),
    {
        let n = search.searches.len();
        match &search.search_relate {
            Some(rel) => {
                let mut i: usize = 0;
                while i < rel.len()
                    invariant
                        self.wf(),
                        i <= rel@.len(),
                        search.search_relate == Some(*rel),
                        n == search.searches@.len(),
                        forall|j: int| 0 <= j < i ==> match #[trigger] rel@[j] {
                            SearchHolder::AND((a, b)) => step_at(self@, *search, a).is_some() && step_at(self@, *search, b).is_some(),
                            _ => true,
                        },
                    decreases rel@.len() - i,
                {
                    match rel[i] {
                        SearchHolder::AND((a, b)) => {
                            assert(rel@[i as int] == SearchHolder::AND((a, b)));
                            if a >= n || b >= n {
                                assert(!pairs_answerable(self@, *search, rel@));
                                return false;
                            }
                            let sa = self.step_vec(&search.searches[a]);
                            let sb = self.step_vec(&search.searches[b]);
                            if sa.is_none() || sb.is_none() {
                                assert(!(step_at(self@, *search, a).is_some() && step_at(self@, *search, b).is_some()));
                                assert(!pairs_answerable(self@, *search, rel@));
                                return false;
                            }
                        },
                        _ => {},
                    }
                    i = i + 1;
                }
                true
            },
            None => {
                let mut k: usize = 0;
                while k < n
                    invariant
                        self.wf(),
                        k <= n,
                        search.search_relate.is_none(),
                        n == search.searches@.len(),
                        forall|j: int| 0 <= j < k ==> (#[trigger] step_at(self@, *search, j as usize)).is_some(),
                    decreases n - k,
                {
                    if self.step_vec(&search.searches[k]).is_none() {
                        assert(step_at(self@, *search, (k as int) as usize).is_none());
                        return false;
                    }
                    k = k + 1;
                }
                true
            },
        }
    }

    /// The next tag id to be given out.
    pub fn tag_next_get(&self) -> (r: usize)
        ensures
            r == self@.tag_next,
    {
        self.tag_next
    }

    /// The next namespace id to be given out.
    pub fn ns_next_get(&self) -> (r: usize)
        ensures
            r == self@.ns_next,
    {
        self.ns_next
    }

    /// Searches files by tags. Each step of `search.searches` selects the
    /// files of its two tags, intersected, united or differenced; the steps
    /// are then combined by the intersecting pairs of `search.search_relate`,
    /// or, where it has none, intersected all together. `None` when nothing
    /// is found. `limit` and `offset` are not used.
    pub fn search_db_files(&self, search: SearchObj, limit: Option<usize>, offset: Option<usize>) -> (r: Option<HashSet<usize>>)
        requires
            self.wf(),
            search_answerable(self@, search),
        ensures
            match r {
                Some(s) => s@ == search_result(self@, search) && !s@.is_empty(),
                None => search_result(self@, search).is_empty(),
            },
    {
        let ghost v = self@;
        let n = search.searches.len();
        let mut fin_temp: Vec<Option<Vec<usize>>> = Vec::new();
        let mut cnt: usize = 0;
        while cnt < n
            invariant
                self.wf(),
                v == self@,
                cnt <= n,
                n == search.searches@.len(),
                fin_temp@.len() == cnt,
                forall|k: int| 0 <= k < cnt ==> match #[trigger] fin_temp@[k] {
                    Some(x) => step_at(v, search, k as usize) == Some(x@.to_set()),
                    None => step_at(v, search, k as usize).is_none(),
                },
            decreases n - cnt,
        {
            let st = self.step_vec(&search.searches[cnt]);
            fin_temp.push(st);
            cnt = cnt + 1;
        }
        let stor: Vec<SearchHolder> = match &search.search_relate {
            Some(rel) => rel.clone(),
            None => {
                if n == 0 {
                    assert(search_result(v, search) =~= Set::empty());
                    return None;
                }
                proof {
                    assert forall|k: int| 0 <= k < fin_temp@.len() implies (#[trigger] fin_temp@[k]).is_some() by {
                        assert(step_at(v, search, k as usize).is_some());
                    }
                }
                let fin = intersect_all(&fin_temp);
                proof {
                    assert forall|f: usize| #[trigger] fin@.contains(f) == search_result(v, search).contains(f) by {
                        if fin@.contains(f) {
                            assert forall|k: int| 0 <= k < n implies (#[trigger] step_at(v, search, k as usize)).unwrap().contains(f) by {
                                assert(fin_temp@[k].unwrap()@.contains(f));
                                assert(fin_temp@[k].unwrap()@.to_set().contains(f));
                            }
                        }
                        if search_result(v, search).contains(f) {
                            assert forall|k: int| 0 <= k < fin_temp@.len() implies (#[trigger] fin_temp@[k]).unwrap()@.contains(f) by {
                                assert(step_at(v, search, k as usize).unwrap().contains(f));
                                assert(fin_temp@[k].unwrap()@.to_set().contains(f));
                            }
                        }
                    }
                    assert(fin@ =~= search_result(v, search));
                }
                if fin.is_empty() {
                    return None;
                } else {
                    return Some(fin);
                }
            },
        };
        assert(search.search_relate is Some && search.search_relate.unwrap()@ == stor@);
        let mut fin: HashSet<usize> = HashSet::new();
        let m = stor.len();
        let mut i: usize = 0;
        while i < m
            invariant
                i <= m,
                m == stor@.len(),
                search.search_relate is Some && search.search_relate.unwrap()@ == stor@,
                n == search.searches@.len(),
                fin_temp@.len() == n,
                pairs_answerable(v, search, stor@),
                forall|k: int| 0 <= k < n ==> match #[trigger] fin_temp@[k] {
                    Some(x) => step_at(v, search, k as usize) == Some(x@.to_set()),
                    None => step_at(v, search, k as usize).is_none(),
                },
                fin@ == Set::new(|f: usize| exists|j: int| 0 <= j < i && match #[trigger] stor@[j] {
                    SearchHolder::AND((a, b)) => step_at(v, search, a).unwrap().contains(f) && step_at(v, search, b).unwrap().contains(f),
                    _ => false,
                }),
            decreases m - i,
        {
            let ghost before = fin@;
            let entry = stor[i];
            match entry {
                SearchHolder::AND((a, b)) => {
                    assert(step_at(v, search, a).is_some() && step_at(v, search, b).is_some());
                    let fa = match &fin_temp[a] {
                        Some(x) => x,
                        None => {
                            assert(false);
                            return None;
                        },
                    };
                    let fb = match &fin_temp[b] {
                        Some(x) => x,
                        None => {
                            assert(false);
                            return None;
                        },
                    };
                    let both = vec_filter(fa, fb, true);
                    let mut k: usize = 0;
                    while k < both.len()
                        invariant
                            k <= both@.len(),
                            fin@ == before.union(Set::new(|f: usize| exists|j: int| 0 <= j < k && both@[j] == f)),
                        decreases both@.len() - k,
                    {
                        let ghost pre = fin@;
                        fin.insert(both[k]);
                        proof {
                            assert forall|f: usize| #[trigger] fin@.contains(f) == (before.contains(f) || exists|j: int| 0 <= j < k + 1 && both@[j] == f) by {
                                if pre.contains(f) && !before.contains(f) {
                                    let j = choose|j: int| 0 <= j < k && both@[j] == f;
                                    assert(0 <= j < k + 1);
                                }
                                if exists|j: int| 0 <= j < k + 1 && both@[j] == f {
                                    let j = choose|j: int| 0 <= j < k + 1 && both@[j] == f;
                                    if j < k {
                                        assert(pre.contains(f) || before.contains(f));
                                    }
                                }
                            }
                            assert(fin@ =~= before.union(Set::new(|f: usize| exists|j: int| 0 <= j < k + 1 && both@[j] == f)));
                        }
                        k = k + 1;
                    }
                    assert(Set::new(|f: usize| exists|j: int| 0 <= j < both@.len() && both@[j] == f) =~= both@.to_set());
                },
                _ => {},
            }
            proof {
                assert forall|f: usize| #[trigger] fin@.contains(f) == (exists|j: int| 0 <= j < i + 1 && match #[trigger] stor@[j] {
                    SearchHolder::AND((a, b)) => step_at(v, search, a).unwrap().contains(f) && step_at(v, search, b).unwrap().contains(f),
                    _ => false,
                }) by {
                    if before.contains(f) {
                        let j = choose|j: int| 0 <= j < i && match #[trigger] stor@[j] {
                            SearchHolder::AND((a, b)) => step_at(v, search, a).unwrap().contains(f) && step_at(v, search, b).unwrap().contains(f),
                            _ => false,
                        };
                        assert(0 <= j < i + 1);
                    }
                }
                assert(fin@ =~= Set::new(|f: usize| exists|j: int| 0 <= j < i + 1 && match #[trigger] stor@[j] {
                    SearchHolder::AND((a, b)) => step_at(v, search, a).unwrap().contains(f) && step_at(v, search, b).unwrap().contains(f),
                    _ => false,
                }));
            }
            i = i + 1;
        }
        assert(fin@ =~= pairs_result(v, search, stor@));
        if fin.is_empty() {
            None
        } else {
            Some(fin)
        }
    }
}

impl Main {
    /// Adds a job that repeats every `time` (an interval such as `1d`),
    /// stamped with `current_time`. When `addtodb` holds the row is queued
    /// for the file with its commit type. A job whose time is `now` (in any
    /// case) is not added.
    pub fn jobs_add_new(
        &mut self,
        site: &String,
        query: &String,
        time: &String,
        committype: Option<CommitType>,
        addtodb: bool,
        jobtype: DbJobType,
        current_time: usize,
    )
        requires
            old(self).wf(),
            old(self)@.job_next < usize::MAX,
            time_conv_spec(time@).is_some(),
            time_conv_spec(time@).unwrap() <= usize::MAX,
            addtodb ==> committype.is_some(),
        ensures
            final(self).wf(),
            final(self)@ == jobs_add_new_spec(old(self)@, *site, *query, time@, committype, addtodb, jobtype, current_time),
    {
        if is_now(time.as_str()) {
            return;
        }
        let time_offset = time_conv(time);
        self.jobs_add_new_todb(
            Some(site.clone()),
            Some(query.clone()),
            Some(time_offset),
            Some(current_time),
            committype,
            jobtype,
        );
        if addtodb {
            let ct = match committype {
                Some(c) => c,
                None => {
                    assert(false);
                    return;
                },
            };
            self.push_op(SqlOp::InsertJob {
                time: current_time,
                reptime: time_offset,
                site: site.clone(),
                param: query.clone(),
                committype: ct,
                jobtype: jobtype,
            });
            self.db_commit_man();
        }
    }

    /// `jobs_add_new` stamped with the system clock. Returns whether the job
    /// was added: not when its time is `now` (in any case), nor when the
    /// clock cannot be read as seconds since the epoch; nothing changes then.
    pub fn jobs_add_new_now(
        &mut self,
        site: &String,
        query: &String,
        time: &String,
        committype: Option<CommitType>,
        addtodb: bool,
        jobtype: DbJobType,
    ) -> (added: bool)
        requires
            old(self).wf(),
            old(self)@.job_next < usize::MAX,
            time_conv_spec(time@).is_some(),
            time_conv_spec(time@).unwrap() <= usize::MAX,
            addtodb ==> committype.is_some(),
        ensures
            final(self).wf(),
            added ==> exists|now: usize| final(self)@ == #[trigger] jobs_add_new_spec(old(self)@, *site, *query, time@, committype, addtodb, jobtype, now),
            added ==> !is_now_text(time@),
            !added ==> final(self)@ == old(self)@,
            is_now_text(time@) ==> !added,
    {
        if is_now(time.as_str()) {
            return false;
        }
        match time_secs() {
            Some(now) => {
                self.jobs_add_new(site, query, time, committype, addtodb, jobtype, now);
                true
            },
            None => false,
        }
    }

    /// `jobs_add_new_now` where the interval can be read: `None`, with
    /// nothing changed, where `time` does not convert to a number of seconds
    /// that fits a `usize`, or no job id is left; else whether the job was
    /// added (see `jobs_add_new_now`).
    pub fn jobs_add_new_now_checked(
        &mut self,
        site: &String,
        query: &String,
        time: &String,
        committype: Option<CommitType>,
        addtodb: bool,
        jobtype: DbJobType,
    ) -> (r: Option<bool>)
        requires
            old(self).wf(),
            addtodb ==> committype.is_some(),
        ensures
            final(self).wf(),
            r is None <==> !(time_conv_spec(time@).is_some() && time_conv_spec(time@).unwrap() <= usize::MAX
                && old(self)@.job_next < usize::MAX),
            r is None ==> final(self)@ == old(self)@,
            r == Some(true) ==> exists|now: usize| final(self)@ == #[trigger] jobs_add_new_spec(old(self)@, *site, *query, time@, committype, addtodb, jobtype, now),
            r == Some(false) ==> final(self)@ == old(self)@,
    {
        if time_conv_checked(time).is_none() || self.jobs_get_max() == usize::MAX {
            return None;
        }
        Some(self.jobs_add_new_now(site, query, time, committype, addtodb, jobtype))
    }

    /// Adds a job from text fields: `jobs_time` is the start time in seconds
    /// and `jobs_commit` is `true` or `false`. A looping job repeats every
    /// `jobs_rep` seconds; otherwise it does not repeat and is kept in memory
    /// only. A job whose time is `now` is not added.
    pub fn jobs_add_main(
        &mut self,
        jobs_time: String,
        jobs_rep: &str,
        jobs_site: String,
        jobs_param: String,
        does_loop: bool,
        jobs_commit: String,
        jobs_todo: CommitType,
        jobtype: DbJobType,
    )
        requires
            old(self).wf(),
            old(self)@.job_next < usize::MAX,
            jobs_time@ != "now"@ ==> parse_usize_spec(jobs_time@).is_some(),
            jobs_time@ != "now"@ ==> parse_bool_spec(jobs_commit@).is_some(),
            jobs_time@ != "now"@ && does_loop ==> parse_usize_spec(jobs_rep@).is_some(),
        ensures
            final(self).wf(),
            jobs_time@ == "now"@ ==> final(self)@ == old(self)@,
            jobs_time@ != "now"@ ==> final(self)@ == ({
                let a = parse_usize_spec(jobs_time@).unwrap() as usize;
                let b: usize = if does_loop { parse_usize_spec(jobs_rep@).unwrap() as usize } else { 0 };
                let v1 = with_job(old(self)@, DbJobsObj {
                    time: Some(a),
                    reptime: Some(b),
                    site: Some(jobs_site),
                    param: Some(jobs_param),
                    jobtype: jobtype,
                    committype: None,
                });
                if does_loop {
                    commit_step(with_op(v1, OpView::InsertJob {
                        time: a,
                        reptime: b,
                        site: jobs_site@,
                        param: jobs_param@,
                        committype: jobs_todo,
                        jobtype: jobtype,
                    }))
                } else {
                    v1
                }
            }),
    {
        let now = String::from_str("now");
        if jobs_time == now {
            return;
        }
        let tv = chars_of(jobs_time.as_str());
        let a = match parse_usize(&tv) {
            Some(a) => a,
            None => {
                assert(false);
                return;
            },
        };
        let com = match parse_bool(&jobs_commit) {
            Some(c) => c,
            None => {
                assert(false);
                return;
            },
        };
        if does_loop {
            let rv = chars_of(jobs_rep);
            let b = match parse_usize(&rv) {
                Some(b) => b,
                None => {
                    assert(false);
                    return;
                },
            };
            self.jobs_add(a, b, &jobs_site, &jobs_param, com, true, &jobs_todo, jobtype);
        } else {
            self.jobs_add(a, 0, &jobs_site, &jobs_param, com, false, &jobs_todo, jobtype);
        }
    }
}

impl Main {
    /// Queues `CREATE TABLE IF NOT EXISTS name (key type, ...)` for the
    /// given columns.
    pub fn table_create(&mut self, name: &String, key: &Vec<String>, dtype: &Vec<String>)
        requires
            old(self).wf(),
            key@.len() == dtype@.len(),
            key@.len() >= 1,
        ensures
            final(self).wf(),
            final(self)@ == with_op(old(self)@, OpView::Execute(create_table_sql(name@, strs_view(key@), strs_view(dtype@)))),
    {
        let ghost ks = strs_view(key@);
        let ghost ts = strs_view(dtype@);
        let n = key.len();
        let m: usize = n - 1;
        let mut stocat = String::new();
        let mut c: usize = 0;
        while c < m
            invariant
                c <= m,
                m <= n,
                n == key@.len(),
                n == dtype@.len(),
                ks == strs_view(key@),
                ts == strs_view(dtype@),
                stocat@ == cols_prefix(ks, ts, c as nat),
            decreases m - c,
        {
            stocat.append(key[c].as_str());
            stocat.append(" ");
            stocat.append(dtype[c].as_str());
            stocat.append(", ");
            c = c + 1;
            assert(stocat@ =~= cols_prefix(ks, ts, c as nat));
        }
        let mut endresult = String::from_str("CREATE TABLE IF NOT EXISTS ");
        endresult.append(name.as_str());
        endresult.append(" (");
        endresult.append(stocat.as_str());
        endresult.append(key[n - 1].as_str());
        endresult.append(" ");
        endresult.append(dtype[n - 1].as_str());
        endresult.append(")");
        assert(endresult@ =~= create_table_sql(name@, ks, ts));
        self.push_op(SqlOp::Execute(endresult));
    }

    fn create_schema_table(&mut self, i: usize, name: &str, keys: Vec<String>, types: Vec<String>)
        requires
            old(self).wf(),
            i < 7,
            name@ == first_db_schema()[i as int].0,
            strs_view(keys@) == first_db_schema()[i as int].1,
            strs_view(types@) == first_db_schema()[i as int].2,
            keys@.len() == types@.len(),
            keys@.len() >= 1,
        ensures
            final(self).wf(),
            final(self)@ == with_op(old(self)@, first_db_ops()[i as int]),
    {
        let nm = String::from_str(name);
        self.table_create(&nm, &keys, &types);
    }

    /// Queues the creation of the tables of a fresh database, then flushes.
    /// The caller checks first that the database file exists.
    pub fn first_db(&mut self)
        requires
            old(self).wf(),
        ensures
            final(self).wf(),
            final(self)@ == flushed(with_ops(old(self)@, first_db_ops())),
    {
        let ghost v0 = self@;
        let k = vec![String::from_str("id"), String::from_str("hash"), String::from_str("extension"), String::from_str("location")];
        let t = vec![String::from_str("INTEGER"), String::from_str("TEXT"), String::from_str("TEXT"), String::from_str("TEXT")];
        assert(strs_view(k@) =~= first_db_schema()[0].1);
        assert(strs_view(t@) =~= first_db_schema()[0].2);
        self.create_schema_table(0, "File", k, t);

        let k = vec![String::from_str("fileid"), String::from_str("tagid")];
        let t = vec![String::from_str("INTEGER"), String::from_str("INTEGER")];
        assert(strs_view(k@) =~= first_db_schema()[1].1);
        assert(strs_view(t@) =~= first_db_schema()[1].2);
        self.create_schema_table(1, "Relationship", k, t);

        let k = vec![String::from_str("id"), String::from_str("name"), String::from_str("parents"), String::from_str("namespace")];
        let t = vec![String::from_str("INTEGER"), String::from_str("TEXT"), String::from_str("INTEGER"), String::from_str("INTEGER")];
        assert(strs_view(k@) =~= first_db_schema()[2].1);
        assert(strs_view(t@) =~= first_db_schema()[2].2);
        self.create_schema_table(2, "Tags", k, t);

        let k = vec![String::from_str("tag_namespace_id"), String::from_str("tag_id"), String::from_str("relate_namespace_id"), String::from_str("relate_tag_id")];
        let t = vec![String::from_str("INTEGER"), String::from_str("INTEGER"), String::from_str("INTEGER"), String::from_str("INTEGER")];
        assert(strs_view(k@) =~= first_db_schema()[3].1);
        assert(strs_view(t@) =~= first_db_schema()[3].2);
        self.create_schema_table(3, "Parents", k, t);

        let k = vec![String::from_str("id"), String::from_str("name"), String::from_str("description")];
        let t = vec![String::from_str("INTEGER"), String::from_str("TEXT"), String::from_str("TEXT")];
        assert(strs_view(k@) =~= first_db_schema()[4].1);
        assert(strs_view(t@) =~= first_db_schema()[4].2);
        self.create_schema_table(4, "Namespace", k, t);

        let k = vec![String::from_str("name"), String::from_str("pretty"), String::from_str("num"), String::from_str("param")];
        let t = vec![String::from_str("TEXT PRIMARY KEY"), String::from_str("TEXT"), String::from_str("INTEGER"), String::from_str("TEXT")];
        assert(strs_view(k@) =~= first_db_schema()[5].1);
        assert(strs_view(t@) =~= first_db_schema()[5].2);
        self.create_schema_table(5, "Settings", k, t);

        let k = vec![String::from_str("time"), String::from_str("reptime"), String::from_str("site"), String::from_str("param"), String::from_str("CommitType")];
        let t = vec![String::from_str("INTEGER"), String::from_str("INTEGER"), String::from_str("TEXT"), String::from_str("TEXT"), String::from_str("TEXT")];
        assert(strs_view(k@) =~= first_db_schema()[6].1);
        assert(strs_view(t@) =~= first_db_schema()[6].2);
        self.create_schema_table(6, "Jobs", k, t);

        assert(self@ =~= with_ops(v0, first_db_ops()));
        self.transaction_flush();
    }

    fn add_default_setting(&mut self, name: &str, pretty: Option<&str>, num: Option<usize>, param: Option<&str>, ghost_list: Ghost<Seq<SettingView>>)
        requires
            old(self).wf(),
            ghost_list@.len() > 0,
            ghost_list@[0] == (SettingView {
                name: name@,
                pretty: match pretty { Some(p) => Some(p@), None => None },
                num: num,
                param: match param { Some(p) => Some(p@), None => None },
            }),
        ensures
            final(self).wf(),
            add_settings(final(self)@, ghost_list@.drop_first()) == add_settings(old(self)@, ghost_list@),
    {
        let p = match pretty { Some(x) => Some(String::from_str(x)), None => None };
        let q = match param { Some(x) => Some(String::from_str(x)), None => None };
        let nm = String::from_str(name);
        self.setting_add(nm, p, num, q, true);
    }

    /// Adds the default settings of a fresh database (each stored, queued and
    /// flushed), then flushes.
    pub fn updatedb(&mut self)
        requires
            old(self).wf(),
            old(self)@.vers >= 0,
        ensures
            final(self).wf(),
            final(self)@ == flushed(add_settings(old(self)@, default_settings(old(self)@.vers as usize))),
    {
        let ghost list = default_settings(self@.vers as usize);
        let vers: usize = self._vers as usize;
        self.add_default_setting("DBCOMMITNUM", Some("Number of transactional items before pushing to db."), Some(3000), None, Ghost(list));
        self.add_default_setting("VERSION", Some("Version that the database is currently on."), Some(vers), None, Ghost(list.drop_first()));
        self.add_default_setting("DEFAULTRATELIMIT", None, Some(5), None, Ghost(list.drop_first().drop_first()));
        self.add_default_setting("FilesLoc", None, None, Some("./Files/"), Ghost(list.drop_first().drop_first().drop_first()));
        self.add_default_setting("DEFAULTUSERAGENT", None, None, Some("DIYHydrus/1.0"), Ghost(list.drop_first().drop_first().drop_first().drop_first()));
        self.add_default_setting("pluginloadloc", Some("Where plugins get loaded into."), None, Some("./Plugins/"),
            Ghost(list.drop_first().drop_first().drop_first().drop_first().drop_first()));
        self.add_default_setting("DBCOMMITNUM", Some("Number of transactional items before pushing to db."), Some(3000), None,
            Ghost(list.drop_first().drop_first().drop_first().drop_first().drop_first().drop_first()));
        assert(list.drop_first().drop_first().drop_first().drop_first().drop_first().drop_first().drop_first().len() == 0);
        self.transaction_flush();
    }

    /// Opens the database at `path` of schema version `vers`. `dbexist`
    /// tells whether the file was there before: a new file gets its tables
    /// and default settings queued.
    pub fn new(path: String, vers: isize, dbexist: bool) -> (r: Main)
        requires
            vers >= 0,
        ensures
            r.wf(),
            r@ == new_spec(path@, vers, dbexist),
    {
        let mut main = Main::empty(path, vers);
        main.db_open();
        main.transaction_start();
        if !dbexist {
            main.first_db();
            main.updatedb();
            proof {
                reveal_with_fuel(add_settings, 8);
            }
            assert(main@.settings.dom().contains("DBCOMMITNUM"@));
            main.db_commit_man_set();
        }
        assert(main@ =~= new_spec(path@, vers, dbexist));
        main
    }

    /// Queues a rename of a table.
    pub fn alter_table(&mut self, original_table: &String, new_table: &String)
        requires
            old(self).wf(),
        ensures
            final(self).wf(),
            final(self)@ == with_op(old(self)@, OpView::Execute("ALTER TABLE "@ + original_table@ + " RENAME TO "@ + new_table@ + ";"@)),
    {
        let mut q = String::from_str("ALTER TABLE ");
        q.append(original_table.as_str());
        q.append(" RENAME TO ");
        q.append(new_table.as_str());
        q.append(";");
        self.push_op(SqlOp::Execute(q));
    }

    /// Queues the removal of a table.
    pub fn db_drop_table(&mut self, table: &String)
        requires
            old(self).wf(),
        ensures
            final(self).wf(),
            final(self)@ == with_op(old(self)@, OpView::Execute("DROP TABLE IF EXISTS "@ + table@ + ";"@)),
    {
        let mut q = String::from_str("DROP TABLE IF EXISTS ");
        q.append(table.as_str());
        q.append(";");
        self.push_op(SqlOp::Execute(q));
    }

    /// Queues the removal of the jobs whose `collumn` is like `critera`
    /// (the in-memory jobs stay).
    pub fn del_from_jobs_table(&mut self, collumn: &String, critera: &String)
        requires
            old(self).wf(),
        ensures
            final(self).wf(),
            final(self)@ == with_op(old(self)@, OpView::Execute("DELETE FROM Jobs WHERE "@ + collumn@ + " LIKE '"@ + critera@ + "'"@)),
    {
        let mut q = String::from_str("DELETE FROM Jobs WHERE ");
        q.append(collumn.as_str());
        q.append(" LIKE '");
        q.append(critera.as_str());
        q.append("'");
        self.push_op(SqlOp::Execute(q));
    }

    /// Flushes, closes the transaction, queues `VACUUM`, and begins anew.
    pub fn vacuum(&mut self)
        requires
            old(self).wf(),
        ensures
            final(self).wf(),
            final(self)@ == (DbView {
                commit_num: 0,
                outbox: old(self)@.outbox + seq![OpView::Commit, OpView::Begin, OpView::Commit, OpView::Vacuum, OpView::Begin],
                ..old(self)@
            }),
    {
        self.transaction_flush();
        self.transaction_close();
        self.push_op(SqlOp::Vacuum);
        self.transaction_start();
        assert(self@ =~= (DbView {
            commit_num: 0,
            outbox: old(self)@.outbox + seq![OpView::Commit, OpView::Begin, OpView::Commit, OpView::Vacuum, OpView::Begin],
            ..old(self)@
        }));
    }

    /// Queues `PRAGMA synchronous = OFF`.
    pub fn db_open(&mut self)
        requires
            old(self).wf(),
        ensures
            final(self).wf(),
            final(self)@ == with_op(old(self)@, OpView::SynchronousOff),
    {
        self.push_op(SqlOp::SynchronousOff);
    }
}

impl Main {
    /// Removes a tag and every relationship of it: a delete is queued for
    /// each of its files (visited in some order `fs`), then the tag is
    /// removed as `tag_remove` does (its parent relations visited in some
    /// order `ps`).
    pub fn delete_tag_relationship(&mut self, tagid: &usize)
        requires
            old(self).wf(),
        ensures
            final(self).wf(),
            exists|fs: Seq<usize>, ps: Seq<DbParentsObj>| fs.to_set() == files_of_tag(old(self)@, *tagid) && fs.no_duplicates()
                && ps.to_set() == old(self)@.parents.filter(|p: DbParentsObj| parent_involves(p, *tagid)) && ps.no_duplicates()
                && final(self)@ == #[trigger] tag_remove_spec(delete_tag_relationship_spec(old(self)@, *tagid, fs), *tagid, ps),
    {
        let fs = self.files_vec(*tagid);
        self.delete_tag_relationship_in(*tagid, &fs);
        let ps = self.parents_of(*tagid);
        self.tag_remove_in(*tagid, &ps);
    }

    /// Removes every relationship of a tag, visiting its files in the order
    /// `fs`.
    fn delete_tag_relationship_in(&mut self, tagid: usize, fs: &Vec<usize>)
        requires
            old(self).wf(),
            fs@.to_set() == files_of_tag(old(self)@, tagid),
        ensures
            final(self).wf(),
            final(self)@ == delete_tag_relationship_spec(old(self)@, tagid, fs@),
    {
        let tagid = &tagid;
        let ghost v0 = self@;
        let mut k: usize = 0;
        while k < fs.len()
            invariant
                self.wf(),
                k <= fs@.len(),
                fs@.to_set() == files_of_tag(v0, *tagid),
                self@ == (DbView {
                    relationships: v0.relationships.filter(|r: DbRelationshipObj| !(r.tagid == *tagid && fs@.take(k as int).contains(r.fileid))),
                    outbox: v0.outbox + rel_delete_ops(fs@.take(k as int), *tagid),
                    ..v0
                }),
            decreases fs@.len() - k,
        {
            let f = fs[k];
            let rel = DbRelationshipObj { fileid: f, tagid: *tagid };
            let ghost v1 = self@;
            self.relationships.remove(&rel);
            assert(self@ =~= (DbView { relationships: v1.relationships.remove(rel), ..v1 }));
            self.push_op(SqlOp::DeleteRelationship { file: f, tag: *tagid });
            proof {
                assert(fs@.take(k + 1) =~= fs@.take(k as int).push(f));
                assert(rel_delete_ops(fs@.take(k + 1), *tagid) =~= rel_delete_ops(fs@.take(k as int), *tagid).push(OpView::DeleteRelationship { file: f, tag: *tagid }));
                let t0 = fs@.take(k as int);
                let t1 = fs@.take(k + 1);
                assert forall|y: usize| #[trigger] t1.contains(y) == (t0.contains(y) || y == f) by {
                    if t1.contains(y) {
                        let j = choose|j: int| 0 <= j < t1.len() && t1[j] == y;
                        if j < t0.len() {
                            assert(t0[j] == y);
                        }
                    }
                    if t0.contains(y) {
                        let j = choose|j: int| 0 <= j < t0.len() && t0[j] == y;
                        assert(t1[j] == y);
                    }
                    if y == f {
                        assert(t1[k as int] == y);
                    }
                }
                assert(v0.relationships.filter(|r: DbRelationshipObj| !(r.tagid == *tagid && t1.contains(r.fileid)))
                    =~= v0.relationships.filter(|r: DbRelationshipObj| !(r.tagid == *tagid && t0.contains(r.fileid))).remove(rel));
            }
            k = k + 1;
        }
        proof {
            assert(fs@.take(fs@.len() as int) =~= fs@);
            assert forall|r: DbRelationshipObj| #[trigger] v0.relationships.contains(r) && r.tagid == *tagid implies fs@.contains(r.fileid) by {
                assert(files_of_tag(v0, *tagid).contains(r.fileid));
                assert(fs@.to_set().contains(r.fileid));
            }
            assert(v0.relationships.filter(|r: DbRelationshipObj| !(r.tagid == *tagid && fs@.contains(r.fileid)))
                =~= v0.relationships.filter(|r: DbRelationshipObj| r.tagid != *tagid));
            assert(self@ == delete_tag_relationship_spec(v0, *tagid, fs@));
        }
    }

    /// The parent relations involving a tag.
    fn parents_of(&self, id: usize) -> (r: Vec<DbParentsObj>)
        requires
            self.wf(),
        ensures
            r@.to_set() == self@.parents.filter(|p: DbParentsObj| parent_involves(p, id)),
            r@.no_duplicates(),
    {
        let mut out: Vec<DbParentsObj> = Vec::new();
        let n = self.parents.len();
        let mut i: usize = 0;
        let ghost elems = self.parents.elems();
        proof {
            self.parents.lemma_elems();
        }
        while i < n
            invariant
                n == elems.len(),
                elems == self.parents.elems(),
                elems.no_duplicates(),
                out@.no_duplicates(),
                i <= n,
                forall|p: DbParentsObj| #[trigger] out@.contains(p) == (exists|j: int| 0 <= j < i && elems[j] == p && parent_involves(p, id)),
            decreases n - i,
        {
            let p = self.parents.at(i);
            let ghost before = out@;
            if p.tag_id == id || p.relate_tag_id == id {
                proof {
                    if before.contains(p) {
                        let j = choose|j: int| 0 <= j < i && elems[j] == p && parent_involves(p, id);
                        assert(elems[j] == elems[i as int]);
                    }
                }
                out.push(p);
                proof {
                    assert forall|a: int, b: int| 0 <= a < b < out@.len() implies out@[a] != out@[b] by {
                        if b == out@.len() - 1 {
                            assert(before[a] == out@[a]);
                            assert(before.contains(out@[a]));
                        } else {
                            assert(before[a] == out@[a] && before[b] == out@[b]);
                        }
                    }
                }
            }
            proof {
                assert forall|q: DbParentsObj| #[trigger] out@.contains(q) == (exists|j: int| 0 <= j < i + 1 && elems[j] == q && parent_involves(q, id)) by {
                    if before.contains(q) {
                        let k = choose|k: int| 0 <= k < before.len() && before[k] == q;
                        assert(out@[k] == q);
                        let j = choose|j: int| 0 <= j < i && elems[j] == q && parent_involves(q, id);
                        assert(0 <= j < i + 1);
                    }
                    if out@.contains(q) && !before.contains(q) {
                        let k = choose|k: int| 0 <= k < out@.len() && out@[k] == q;
                        if k < before.len() {
                            assert(before[k] == q);
                        }
                        assert(elems[i as int] == q);
                    }
                    if exists|j: int| 0 <= j < i + 1 && elems[j] == q && parent_involves(q, id) {
                        let j = choose|j: int| 0 <= j < i + 1 && elems[j] == q && parent_involves(q, id);
                        if j == i {
                            assert(out@[out@.len() - 1] == q);
                        }
                    }
                }
            }
            i = i + 1;
        }
        proof {
            self.parents.lemma_elems();
            assert forall|p: DbParentsObj| #[trigger] out@.to_set().contains(p) == self@.parents.filter(|q: DbParentsObj| parent_involves(q, id)).contains(p) by {
                if elems.contains(p) {
                    let j = choose|j: int| 0 <= j < elems.len() && elems[j] == p;
                    assert(0 <= j < n);
                }
            }
            assert(out@.to_set() =~= self@.parents.filter(|p: DbParentsObj| parent_involves(p, id)));
        }
        out
    }

    /// Removes a tag and every parent relation involving it, queueing the
    /// tag's delete and a delete for each of those relations.
    pub fn tag_remove(&mut self, id: &usize)
        requires
            old(self).wf(),
        ensures
            final(self).wf(),
            exists|ps: Seq<DbParentsObj>| ps.to_set() == old(self)@.parents.filter(|p: DbParentsObj| parent_involves(p, *id)) && ps.no_duplicates()
                && final(self)@ == #[trigger] tag_remove_spec(old(self)@, *id, ps),
    {
        let ps = self.parents_of(*id);
        self.tag_remove_in(*id, &ps);
    }

    /// Removes a tag, visiting the parent relations involving it in the
    /// order `ps`.
    fn tag_remove_in(&mut self, id: usize, ps: &Vec<DbParentsObj>)
        requires
            old(self).wf(),
            ps@.to_set() == old(self)@.parents.filter(|p: DbParentsObj| parent_involves(p, id)),
        ensures
            final(self).wf(),
            final(self)@ == tag_remove_spec(old(self)@, id, ps@),
    {
        let id = &id;
        let ghost v0 = self@;
        let _ = self.tags.remove(*id);
        assert(self@ =~= (DbView { tags: v0.tags.remove(*id), ..v0 }));
        proof {
            assert forall|a: usize, b: usize|
                #![trigger self@.tags[a], self@.tags[b]]
                self@.tags.dom().contains(a) && self@.tags.dom().contains(b) && a != b implies !tag_is(self@.tags[a], self@.tags[b].name@, self@.tags[b].namespace) by {
                assert(v0.tags.dom().contains(a) && v0.tags.dom().contains(b));
                assert(!tag_is(v0.tags[a], v0.tags[b].name@, v0.tags[b].namespace));
            }
        }
        self.push_op(SqlOp::DeleteTag { id: *id });
        let ghost v1 = self@;
        let mut k: usize = 0;
        while k < ps.len()
            invariant
                self.wf(),
                k <= ps@.len(),
                ps@.to_set() == v1.parents.filter(|p: DbParentsObj| parent_involves(p, *id)),
                self@ == (DbView {
                    parents: v1.parents.filter(|p: DbParentsObj| !ps@.take(k as int).contains(p)),
                    outbox: v1.outbox + parent_delete_ops(ps@.take(k as int)),
                    ..v1
                }),
            decreases ps@.len() - k,
        {
            let p = ps[k];
            let ghost v2 = self@;
            self.parents.remove(&p);
            assert(self@ =~= (DbView { parents: v2.parents.remove(p), ..v2 }));
            self.push_op(SqlOp::DeleteParent { tag_id: p.tag_id, relate_tag_id: p.relate_tag_id });
            proof {
                assert(ps@.take(k + 1) =~= ps@.take(k as int).push(p));
                assert(parent_delete_ops(ps@.take(k + 1)) =~= parent_delete_ops(ps@.take(k as int)).push(OpView::DeleteParent { tag_id: p.tag_id, relate_tag_id: p.relate_tag_id }));
                let t0 = ps@.take(k as int);
                let t1 = ps@.take(k + 1);
                assert forall|y: DbParentsObj| #[trigger] t1.contains(y) == (t0.contains(y) || y == p) by {
                    if t1.contains(y) {
                        let j = choose|j: int| 0 <= j < t1.len() && t1[j] == y;
                        if j < t0.len() {
                            assert(t0[j] == y);
                        }
                    }
                    if t0.contains(y) {
                        let j = choose|j: int| 0 <= j < t0.len() && t0[j] == y;
                        assert(t1[j] == y);
                    }
                    if y == p {
                        assert(t1[k as int] == y);
                    }
                }
                assert(v1.parents.filter(|q: DbParentsObj| !t1.contains(q))
                    =~= v1.parents.filter(|q: DbParentsObj| !t0.contains(q)).remove(p));
            }
            k = k + 1;
        }
        proof {
            assert(ps@.take(ps@.len() as int) =~= ps@);
            assert forall|p: DbParentsObj| #[trigger] v1.parents.contains(p) implies (ps@.contains(p) == parent_involves(p, *id)) by {
                if parent_involves(p, *id) {
                    assert(ps@.to_set().contains(p));
                }
                if ps@.contains(p) {
                    assert(ps@.to_set().contains(p));
                }
            }
            assert(v1.parents.filter(|p: DbParentsObj| !ps@.contains(p)) =~= v1.parents.filter(|p: DbParentsObj| !parent_involves(p, *id)));
            assert(self@ =~= tag_remove_spec(v0, *id, ps@));
        }
    }

    /// Renumbers the tags 0, 1, 2, ... in the order of their ids, taking
    /// their relationships along, then vacuums. Parent relations of the
    /// moved tags are dropped. The tables are taken as they stand in memory.
    pub fn condese_relationships_tags(&mut self)
        requires
            old(self).wf(),
        ensures
            final(self).wf(),
            exists|orders: Seq<(Seq<usize>, Seq<DbParentsObj>)>| condense_orders_ok(old(self)@, old(self)@.tag_next, orders)
                && final(self)@ == #[trigger] condense_spec(old(self)@, orders),
    {
        let ghost v0 = self@;
        let n = self.tag_next;
        let mut tid: usize = 0;
        let mut lastvalid: usize = 0;
        let ghost mut orders: Seq<(Seq<usize>, Seq<DbParentsObj>)> = Seq::empty();
        while tid < n
            invariant
                self.wf(),
                n == v0.tag_next,
                tid <= n,
                lastvalid <= tid,
                orders.len() == tid,
                self@.tag_next == n,
                (self@, lastvalid as nat) == condense_upto(v0, tid as nat, orders),
                condense_orders_ok(v0, tid as nat, orders),
                forall|t: usize| tid <= t ==> (#[trigger] self@.tags.dom().contains(t) == v0.tags.dom().contains(t)),
                forall|t: usize| #[trigger] self@.tags.dom().contains(t) ==> t < lastvalid || tid <= t,
            decreases n - tid,
        {
            let ghost w = self@;
            let ghost before = orders;
            let got = match self.tag_id_get(&tid) {
                Some(t) => Some((t.name.clone(), t.namespace)),
                None => None,
            };
            match got {
                None => {
                    proof {
                        orders = orders.push((Seq::empty(), Seq::empty()));
                        lemma_condense_prefix(v0, tid as nat, before, orders);
                    }
                },
                Some((name, ns)) => {
                    self.transaction_flush();
                    let fs = self.files_vec(tid);
                    if fs.len() > 0 {
                        self.delete_tag_relationship_in(tid, &fs);
                        self.transaction_flush();
                    }
                    let ps = self.parents_of(tid);
                    self.tag_remove_in(tid, &ps);
                    let _ = self.tag_add(name, ns, true, Some(lastvalid));
                    let ghost v4 = self@;
                    let mut k: usize = 0;
                    while k < fs.len()
                        invariant
                            self.wf(),
                            k <= fs@.len(),
                            self@ == rels_add_all(v4, fs@.take(k as int), lastvalid),
                        decreases fs@.len() - k,
                    {
                        self.relationship_add(fs[k], lastvalid, true);
                        proof {
                            assert(fs@.take(k + 1).drop_last() =~= fs@.take(k as int));
                        }
                        k = k + 1;
                    }
                    proof {
                        assert(fs@.take(fs@.len() as int) =~= fs@);
                        orders = orders.push((fs@, ps@));
                        lemma_condense_prefix(v0, tid as nat, before, orders);
                        lemma_rels_add_all_tables(v4, fs@, lastvalid);
                    }
                    lastvalid = lastvalid + 1;
                },
            }
            tid = tid + 1;
        }
        let ghost w = self@;
        self.tag_next = lastvalid;
        assert(self@ =~= (DbView { tag_next: lastvalid as nat, ..w }));
        self.vacuum();
        assert(self@ == condense_spec(v0, orders));
    }


    /// The tags of a namespace, each once.
    fn namespace_tags_vec(&self, id: usize) -> (r: Vec<usize>)
        requires
            self.wf(),
        ensures
            r@.to_set() == tags_of_namespace(self@, id),
            r@.no_duplicates(),
    {
        let mut out: Vec<usize> = Vec::new();
        let n = self.tags.len();
        let mut i: usize = 0;
        let ghost ents = self.tags.entries();
        proof {
            self.tags.lemma_entries();
        }
        while i < n
            invariant
                self.wf(),
                n == ents.len(),
                ents == self.tags.entries(),
                i <= n,
                out@.no_duplicates(),
                forall|t: usize| #[trigger] out@.contains(t) == (exists|j: int| 0 <= j < i && ents[j].0 == t && ents[j].1.namespace == id),
            decreases n - i,
        {
            let k = self.tags.key_at(i);
            let ghost before = out@;
            if self.tags.value_at(i).namespace == id {
                proof {
                    self.tags.lemma_entries();
                    if before.contains(k) {
                        let j = choose|j: int| 0 <= j < i && ents[j].0 == k && ents[j].1.namespace == id;
                        assert(ents[j].0 == ents[i as int].0);
                    }
                }
                out.push(k);
                proof {
                    assert forall|a: int, b: int| 0 <= a < b < out@.len() implies out@[a] != out@[b] by {
                        if b == out@.len() - 1 {
                            assert(before[a] == out@[a]);
                            assert(before.contains(out@[a]));
                        } else {
                            assert(before[a] == out@[a] && before[b] == out@[b]);
                        }
                    }
                }
            }
            proof {
                assert forall|t: usize| #[trigger] out@.contains(t) == (exists|j: int| 0 <= j < i + 1 && ents[j].0 == t && ents[j].1.namespace == id) by {
                    if before.contains(t) {
                        let a = choose|a: int| 0 <= a < before.len() && before[a] == t;
                        assert(out@[a] == t);
                        let j = choose|j: int| 0 <= j < i && ents[j].0 == t && ents[j].1.namespace == id;
                        assert(0 <= j < i + 1);
                    }
                    if out@.contains(t) && !before.contains(t) {
                        let a = choose|a: int| 0 <= a < out@.len() && out@[a] == t;
                        if a < before.len() {
                            assert(before[a] == t);
                        }
                        assert(ents[i as int].0 == t);
                    }
                    if exists|j: int| 0 <= j < i + 1 && ents[j].0 == t && ents[j].1.namespace == id {
                        let j = choose|j: int| 0 <= j < i + 1 && ents[j].0 == t && ents[j].1.namespace == id;
                        if j == i {
                            assert(out@[out@.len() - 1] == t);
                        }
                    }
                }
            }
            i = i + 1;
        }
        proof {
            self.tags.lemma_entries();
            assert forall|t: usize| #[trigger] out@.to_set().contains(t) == tags_of_namespace(self@, id).contains(t) by {
                if self@.tags.dom().contains(t) {
                    assert(has_key(ents, t));
                    let j = choose|j: int| 0 <= j < ents.len() && ents[j].0 == t;
                    if self@.tags[t].namespace == id {
                        assert(ents[j].1.namespace == id);
                    }
                }
                if out@.contains(t) {
                    let j = choose|j: int| 0 <= j < n && ents[j].0 == t && ents[j].1.namespace == id;
                    assert(self@.tags.dom().contains(ents[j].0));
                }
            }
            assert(out@.to_set() =~= tags_of_namespace(self@, id));
        }
        out
    }

    /// Deletes a namespace with its tags and their relationships, then
    /// condenses the tag ids. Nothing but a flush happens when the namespace
    /// does not exist.
    pub fn namespace_delete_id(&mut self, id: &usize)
        requires
            old(self).wf(),
        ensures
            final(self).wf(),
            exists|tids: Seq<usize>, ps: Seq<Seq<DbParentsObj>>, fs: Seq<Seq<usize>>, orders: Seq<(Seq<usize>, Seq<DbParentsObj>)>|
                namespace_delete_ok(old(self)@, *id, tids, ps, fs, orders)
                && final(self)@ == #[trigger] namespace_delete_spec(old(self)@, *id, tids, ps, fs, orders),
    {
        let ghost v0 = self@;
        self.transaction_flush();
        let ghost v1 = self@;
        let tids = self.namespace_tags_vec(*id);
        if !self.namespaces.contains(*id) {
            proof {
                let ps: Seq<Seq<DbParentsObj>> = Seq::empty();
                let fs: Seq<Seq<usize>> = Seq::empty();
                let orders: Seq<(Seq<usize>, Seq<DbParentsObj>)> = Seq::empty();
                assert(namespace_delete_spec(v0, *id, tids@, ps, fs, orders) == self@);
                assert(namespace_delete_ok(v0, *id, tids@, ps, fs, orders));
            }
            return;
        }
        let ghost mut ps: Seq<Seq<DbParentsObj>> = Seq::empty();
        let ghost mut fs: Seq<Seq<usize>> = Seq::empty();
        let mut k: usize = 0;
        while k < tids.len()
            invariant
                self.wf(),
                k <= tids@.len(),
                ps.len() == k,
                fs.len() == k,
                self@ == remove_tags_all(v1, tids@.take(k as int), ps, fs),
                remove_tags_ok(v1, tids@.take(k as int), ps, fs),
            decreases tids@.len() - k,
        {
            let t = tids[k];
            let p = self.parents_of(t);
            self.tag_remove_in(t, &p);
            let f = self.files_vec(t);
            self.delete_tag_relationship_in(t, &f);
            proof {
                let ps0 = ps;
                let fs0 = fs;
                ps = ps.push(p@);
                fs = fs.push(f@);
                assert(tids@.take(k + 1).drop_last() =~= tids@.take(k as int));
                lemma_remove_tags_prefix(v1, tids@.take(k as int), ps0, ps, fs0, fs);
            }
            k = k + 1;
        }
        proof {
            assert(tids@.take(tids@.len() as int) =~= tids@);
        }
        let ghost v2 = self@;
        let _ = self.namespaces.remove(*id);
        assert(self@ =~= (DbView { namespaces: v2.namespaces.remove(*id), ..v2 }));
        self.delete_namespace_sql(id);
        let ghost v3 = self@;
        self.condese_relationships_tags();
        proof {
            let orders = choose|orders: Seq<(Seq<usize>, Seq<DbParentsObj>)>| condense_orders_ok(v3, v3.tag_next, orders)
                && self@ == #[trigger] condense_spec(v3, orders);
            assert(tids@.to_set() == tags_of_namespace(v0, *id));
            assert(v0.namespaces.dom().contains(*id));
            assert(v1 == flushed(v0));
            assert(v3 == namespace_removed(v1, *id, tids@, ps, fs));
            assert(namespace_delete_ok(v0, *id, tids@, ps, fs, orders));
            assert(self@ == namespace_delete_spec(v0, *id, tids@, ps, fs, orders));
        }
    }

    /// Queues the deletion of the namespace row with this id.
    pub fn delete_namespace_sql(&mut self, namespace_id: &usize)
        requires
            old(self).wf(),
        ensures
            final(self).wf(),
            final(self)@ == with_op(old(self)@, OpView::DeleteNamespace { id: *namespace_id }),
    {
        self.push_op(SqlOp::DeleteNamespace { id: *namespace_id });
    }

    fn relationship_add_sql(&mut self, file: usize, tag: usize)
        requires
            old(self).wf(),
        ensures
            final(self).wf(),
            final(self)@ == commit_step(with_op(old(self)@, OpView::InsertRelationship { file: file, tag: tag })),
    {
        self.push_op(SqlOp::InsertRelationship { file: file, tag: tag });
        self.db_commit_man();
    }

    /// Rebuilds the tag tables of the file around one namespace: the tables
    /// are dropped and made anew, and the namespace's tags are written under
    /// the ids 0, 1, ... with their relationships; the in-memory tags,
    /// parents and relationships are then emptied. Every tag of the
    /// namespace must carry a file.
    pub fn drop_recreate_ns(&mut self, id: &usize)
        requires
            old(self).wf(),
            forall|t: usize| tags_of_namespace(old(self)@, *id).contains(t) ==> !(#[trigger] files_of_tag(old(self)@, t)).is_empty(),
        ensures
            final(self).wf(),
            exists|tids: Seq<usize>, fss: Seq<Seq<usize>>| drop_recreate_ok(old(self)@, *id, tids, fss)
                && final(self)@ == #[trigger] drop_recreate_spec(old(self)@, *id, tids, fss),
    {
        let ghost v0 = self@;
        self.db_drop_table(&String::from_str("Relationship"));
        self.db_drop_table(&String::from_str("Tags"));
        self.db_drop_table(&String::from_str("Parents"));
        proof {
            reveal_strlit("Relationship");
            reveal_strlit("Tags");
            reveal_strlit("Parents");
            reveal_strlit("DROP TABLE IF EXISTS ");
            reveal_strlit(";");
            reveal_strlit("DROP TABLE IF EXISTS Relationship;");
            reveal_strlit("DROP TABLE IF EXISTS Tags;");
            reveal_strlit("DROP TABLE IF EXISTS Parents;");
            assert("DROP TABLE IF EXISTS "@ + "Relationship"@ + ";"@ =~= "DROP TABLE IF EXISTS Relationship;"@);
            assert("DROP TABLE IF EXISTS "@ + "Tags"@ + ";"@ =~= "DROP TABLE IF EXISTS Tags;"@);
            assert("DROP TABLE IF EXISTS "@ + "Parents"@ + ";"@ =~= "DROP TABLE IF EXISTS Parents;"@);
            assert(self@.outbox =~= v0.outbox + drop_tag_tables_ops());
            assert(self@ =~= with_ops(v0, drop_tag_tables_ops()));
        }
        self.first_db();
        self.transaction_flush();
        let ghost v1 = self@;
        let tids = self.namespace_tags_vec(*id);
        if tids.len() == 0 {
            proof {
                assert(tids@.to_set() =~= Set::empty());
                assert(drop_recreate_ok(v0, *id, tids@, Seq::empty()));
                assert(self@ == drop_recreate_spec(v0, *id, tids@, Seq::empty()));
            }
            return;
        }
        let ghost mut fss: Seq<Seq<usize>> = Seq::empty();
        let mut k: usize = 0;
        while k < tids.len()
            invariant
                self.wf(),
                k <= tids@.len(),
                fss.len() == k,
                tids@.to_set() == tags_of_namespace(v0, *id),
                self@.tags == v0.tags,
                self@.relationships == v0.relationships,
                self@ == recreate_all(v1, v0.tags, tids@.take(k as int), fss),
                forall|i: int| 0 <= i < k ==> (#[trigger] fss[i]).to_set() == files_of_tag(v0, tids@[i]) && fss[i].no_duplicates(),
            decreases tids@.len() - k,
        {
            let t = tids[k];
            proof {
                assert(tids@.to_set().contains(t));
            }
            let fs = self.files_vec(t);
            let got = match self.tag_id_get(&t) {
                Some(tg) => (tg.name.clone(), tg.namespace),
                None => {
                    assert(false);
                    (String::new(), 0)
                },
            };
            let (name, ns) = got;
            let ghost w = self@;
            self.tag_add_sql(k, name, ns);
            let ghost w1 = self@;
            let mut j: usize = 0;
            while j < fs.len()
                invariant
                    self.wf(),
                    j <= fs@.len(),
                    self@ == rel_sql_all(w1, fs@.take(j as int), k),
                    w1.tags == v0.tags,
                    w1.relationships == v0.relationships,
                decreases fs@.len() - j,
            {
                self.relationship_add_sql(fs[j], k);
                proof {
                    assert(fs@.take(j + 1).drop_last() =~= fs@.take(j as int));
                }
                j = j + 1;
            }
            proof {
                assert(fs@.take(fs@.len() as int) =~= fs@);
                let fss0 = fss;
                fss = fss.push(fs@);
                assert(tids@.take(k + 1).drop_last() =~= tids@.take(k as int));
                assert(recreate_all(v1, v0.tags, tids@.take(k as int), fss0) == recreate_all(v1, v0.tags, tids@.take(k as int), fss)) by {
                    lemma_recreate_prefix(v1, v0.tags, tids@.take(k as int), fss0, fss);
                }
                lemma_rel_sql_all_tables(w1, fs@, k);
            }
            k = k + 1;
        }
        proof {
            assert(tids@.take(tids@.len() as int) =~= tids@);
            assert(tids@.to_set().contains(tids@[0]));
        }
        let ghost w = self@;
        self.tags.clear();
        self.tag_next = 0;
        self.parents.clear();
        self.relationships.clear();
        assert(self@ =~= (DbView { tags: Map::empty(), tag_next: 0, parents: Set::empty(), relationships: Set::empty(), ..w }));
        self.vacuum();
        self.transaction_flush();
        self.transaction_flush();
        proof {
            assert(drop_recreate_ok(v0, *id, tids@, fss));
            assert(!tags_of_namespace(v0, *id).is_empty());
            assert(w == recreate_all(v1, v0.tags, tids@, fss));
            assert(self@ == drop_recreate_spec(v0, *id, tids@, fss));
        }
    }


    /// Whether a table has been loaded into memory.
    pub fn table_loaded(&self, table: &LoadDBTable) -> (b: bool)
        ensures
            b == self@.loaded.contains(*table),
    {
        let mut i: usize = 0;
        while i < self._tables_loaded.len()
            invariant
                i <= self._tables_loaded@.len(),
                forall|j: int| 0 <= j < i ==> self._tables_loaded@[j] != *table,
            decreases self._tables_loaded@.len() - i,
        {
            if self._tables_loaded[i] == *table {
                return true;
            }
            i = i + 1;
        }
        false
    }

    /// Records a table as loaded.
    pub(crate) fn mark_loaded(&mut self, table: LoadDBTable)
        requires
            old(self).wf(),
        ensures
            final(self).wf(),
            final(self)@ == (DbView { loaded: old(self)@.loaded.push(table), ..old(self)@ }),
    {
        self._tables_loaded.push(table);
        assert(self@ =~= (DbView { loaded: old(self)@.loaded.push(table), ..old(self)@ }));
    }

    /// Stores a namespace row under its own id, unless one of that name is
    /// present. No statement is queued.
    pub fn namespace_add_db(&mut self, ns: DbNamespaceObj)
        requires
            old(self).wf(),
            ns_id_for(old(self)@.namespaces, ns.name@).is_none() ==> ns.id < usize::MAX,
        ensures
            final(self).wf(),
            final(self)@ == (if ns_id_for(old(self)@.namespaces, ns.name@).is_some() { old(self)@ } else { with_namespace(old(self)@, ns) }),
    {
        if self.find_namespace(&ns.name).is_some() {
            return;
        }
        let ghost v0 = self@;
        let id = ns.id;
        let ghost g = ns;
        self.namespaces.insert(id, ns);
        if id >= self.ns_next {
            self.ns_next = id + 1;
        }
        proof {
            assert(self@ =~= with_namespace(v0, g));
            lemma_with_namespace_wf(v0, g);
        }
    }

    /// Stores a setting under its name in memory only.
    pub fn setting_add_db(&mut self, s: DbSettingObj)
        requires
            old(self).wf(),
        ensures
            final(self).wf(),
            final(self)@ == (DbView { settings: old(self)@.settings.insert(s.name@, setting_view(s)), ..old(self)@ }),
    {
        let ghost v1 = self@;
        let ghost old_settings = self.settings@;
        let ghost g = s;
        self.settings.put(s);
        assert(self.settings@.map_values(|st: DbSettingObj| setting_view(st)) =~= old_settings.map_values(|st: DbSettingObj| setting_view(st)).insert(g.name@, setting_view(g)));
        assert(self@ =~= (DbView { settings: v1.settings.insert(g.name@, setting_view(g)), ..v1 }));
    }


    /// The id the next new file gets.
    pub fn file_next_get(&self) -> (r: usize)
        ensures
            r == self@.file_next,
    {
        self.file_next
    }


    /// Every file row, each once.
    pub fn file_rows(&self) -> (r: Vec<DbFileObj>)
        requires
            self.wf(),
        ensures
            forall|i: int| 0 <= i < r@.len() ==> (#[trigger] r@[i]).id.is_some()
                && self@.files.dom().contains(r@[i].id.unwrap()) && self@.files[r@[i].id.unwrap()] == r@[i],
            forall|k: usize| #[trigger] self@.files.dom().contains(k) ==> exists|i: int| 0 <= i < r@.len() && r@[i].id == Some(k),
            forall|i: int, j: int| 0 <= i < j < r@.len() ==> r@[i].id != r@[j].id,
    {
        let mut out: Vec<DbFileObj> = Vec::new();
        let n = self.files.len();
        let ghost ents = self.files.entries();
        proof {
            self.files.lemma_entries();
        }
        let mut i: usize = 0;
        while i < n
            invariant
                self.wf(),
                n == ents.len(),
                ents == self.files.entries(),
                i <= n,
                out@.len() == i,
                forall|j: int| 0 <= j < i ==> (#[trigger] out@[j]) == ents[j].1 && out@[j].id == Some(ents[j].0),
            decreases n - i,
        {
            proof {
                self.files.lemma_entries();
                assert(self@.files.dom().contains(ents[i as int].0));
            }
            out.push(self.files.value_at(i).copied());
            i = i + 1;
        }
        proof {
            self.files.lemma_entries();
            assert forall|k: usize| #[trigger] self@.files.dom().contains(k) implies exists|i: int| 0 <= i < out@.len() && out@[i].id == Some(k) by {
                assert(has_key(ents, k));
                let j = choose|j: int| 0 <= j < ents.len() && ents[j].0 == k;
                assert(out@[j].id == Some(k));
            }
            assert forall|a: int, b: int| 0 <= a < b < out@.len() implies out@[a].id != out@[b].id by {
                assert(ents[a].0 != ents[b].0);
            }
            assert forall|a: int| 0 <= a < out@.len() implies (#[trigger] out@[a]).id.is_some()
                && self@.files.dom().contains(out@[a].id.unwrap()) && self@.files[out@[a].id.unwrap()] == out@[a] by {
                assert(self@.files.dom().contains(ents[a].0));
            }
        }
        out
    }


    /// The version of the database layout this program writes.
    pub fn vers_get(&self) -> (r: isize)
        ensures
            r as int == self@.vers,
    {
        self._vers
    }

}

} // verus!
