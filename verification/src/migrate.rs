//! Carrying the rows of an older database layout over into the current
//! tables: every row is read as text, repeated rows are written once, and
//! each is queued as an insert (settings as upserts, then a flush).

use vstd::prelude::*;
use crate::database::{DbView, Main, OpView, SqlOp, commit_step, flushed, op_view, with_op};
use crate::loading::{files_loaded, jobs_loaded, namespaces_loaded, parents_loaded, relationships_loaded, settings_loaded, tags_loaded,
    lemma_files_outbox, lemma_jobs_outbox, lemma_namespaces_outbox, lemma_parents_outbox, lemma_relationships_outbox,
    lemma_settings_outbox, lemma_tags_outbox, lemma_relationships_loaded_has};
use crate::db_laws::{rel_rows_written, lemma_rel_rows_add, lemma_rel_rows_none, lemma_rel_rows_commit};
use crate::sharedtypes::{
    CommitType, DbFileObj, DbJobType, DbJobsObj, DbNamespaceObj, DbParentsObj, DbRelationshipObj, DbSettingObj,
    DbTagObjCompatability, commit_type_from_name, commit_type_from_name_spec,
};
use crate::text::{chars_of, parse_usize, parse_usize_spec};
use crate::time_func::{time_conv, time_conv_spec, lemma_number_no_interval};

verus! {

/// A settings row: name, pretty text, number and parameter.
pub struct OldSettingRow {
    pub name: String,
    pub pretty: String,
    pub num: String,
    pub param: String,
}

/// A files row: id, hash, extension and location.
pub struct OldFileRow {
    pub id: String,
    pub hash: String,
    pub ext: String,
    pub location: String,
}

/// A jobs row: time, repeat time, site, parameter and commit type.
pub struct OldJobRow {
    pub time: String,
    pub reptime: String,
    pub site: String,
    pub param: String,
    pub committype: String,
}

/// A namespaces row: id, name and description.
pub struct OldNamespaceRow {
    pub id: String,
    pub name: String,
    pub description: String,
}

/// A parents row.
pub struct OldParentRow {
    pub tag_namespace_id: String,
    pub tag_id: String,
    pub relate_namespace_id: String,
    pub relate_tag_id: String,
}

/// A relationships row.
pub struct OldRelationshipRow {
    pub fileid: String,
    pub tagid: String,
}

/// A tags row: id, name, parents and namespace.
pub struct OldTagRow {
    pub id: String,
    pub name: String,
    pub parents: String,
    pub namespace: String,
}

/// The rows of the tables of the older layout.
pub struct OldTables {
    pub settings: Vec<OldSettingRow>,
    pub files: Vec<OldFileRow>,
    pub jobs: Vec<OldJobRow>,
    pub namespaces: Vec<OldNamespaceRow>,
    pub parents: Vec<OldParentRow>,
    pub relationships: Vec<OldRelationshipRow>,
    pub tags: Vec<OldTagRow>,
}

/// The number a text holds.
pub open spec fn num(s: String) -> usize {
    parse_usize_spec(s@).unwrap() as usize
}

pub open spec fn is_num(s: String) -> bool {
    parse_usize_spec(s@).is_some()
}

/// The elements of `s`, each at its first occurrence.
pub open spec fn dedup<T>(s: Seq<T>) -> Seq<T>
    decreases s.len(),
{
    if s.len() == 0 {
        s
    } else {
        let d = dedup(s.drop_last());
        if d.contains(s.last()) { d } else { d.push(s.last()) }
    }
}

/// Taking out repeats keeps every element and adds none.
pub proof fn lemma_dedup_contains<T>(s: Seq<T>, x: T)
    ensures
        dedup(s).contains(x) <==> s.contains(x),
    decreases s.len(),
{
    if s.len() > 0 {
        let t = s.drop_last();
        let l = s.last();
        lemma_dedup_contains(t, x);
        assert(s =~= t.push(l));
        vstd::seq_lib::lemma_seq_contains_after_push(t, l, x);
        vstd::seq_lib::lemma_seq_contains_after_push(dedup(t), l, x);
    }
}

pub open spec fn setting_row_op(r: OldSettingRow) -> OpView {
    OpView::UpsertSetting { name: r.name@, pretty: Some(r.pretty@), num: Some(num(r.num)), param: Some(r.param@) }
}

pub open spec fn file_row_op(r: OldFileRow) -> OpView {
    OpView::InsertFile { id: num(r.id), hash: r.hash@, ext: r.ext@, location: r.location@ }
}

pub open spec fn namespace_row_op(r: OldNamespaceRow) -> OpView {
    OpView::InsertNamespace { id: num(r.id), name: r.name@, description: Some(r.description@) }
}

pub open spec fn parent_row_op(r: OldParentRow) -> OpView {
    OpView::InsertParent {
        tag_namespace_id: num(r.tag_namespace_id),
        tag_id: num(r.tag_id),
        relate_namespace_id: num(r.relate_namespace_id),
        relate_tag_id: num(r.relate_tag_id),
    }
}

pub open spec fn relationship_row_op(r: OldRelationshipRow) -> OpView {
    OpView::InsertRelationship { file: num(r.fileid), tag: num(r.tagid) }
}

pub open spec fn tag_row_op(r: OldTagRow) -> OpView {
    OpView::InsertTagRow { id: num(r.id), name: r.name@, parents: r.parents@, namespace: num(r.namespace) }
}

/// What tells two job rows apart: site, parameter, repeat text, commit type.
pub open spec fn job_row_key(r: OldJobRow) -> (Seq<char>, Seq<char>, Seq<char>, CommitType) {
    (r.site@, r.param@, r.reptime@, commit_type_from_name_spec(r.committype@).unwrap())
}

/// A job written with the current time and the seconds its repeat text
/// stands for.
pub open spec fn job_key_op(k: (Seq<char>, Seq<char>, Seq<char>, CommitType), now: usize) -> OpView {
    OpView::InsertJob {
        time: now,
        reptime: time_conv_spec(k.2).unwrap() as usize,
        site: k.0,
        param: k.1,
        committype: k.3,
        jobtype: DbJobType::Params,
    }
}

/// The rows hold what reading them needs: numbers where numbers are read,
/// and known commit types.
pub open spec fn old_tables_valid(t: OldTables) -> bool {
    &&& forall|i: int| 0 <= i < t.settings@.len() ==> is_num(#[trigger] t.settings@[i].num)
    &&& forall|i: int| 0 <= i < t.files@.len() ==> is_num(#[trigger] t.files@[i].id)
    &&& forall|i: int| 0 <= i < t.jobs@.len() ==> {
        &&& is_num(#[trigger] t.jobs@[i].time)
        &&& is_num(t.jobs@[i].reptime)
        &&& commit_type_from_name_spec(t.jobs@[i].committype@).is_some()
    }
    &&& forall|i: int| 0 <= i < t.namespaces@.len() ==> is_num(#[trigger] t.namespaces@[i].id)
    &&& forall|i: int| 0 <= i < t.parents@.len() ==> {
        &&& is_num(#[trigger] t.parents@[i].tag_namespace_id)
        &&& is_num(t.parents@[i].tag_id)
        &&& is_num(t.parents@[i].relate_namespace_id)
        &&& is_num(t.parents@[i].relate_tag_id)
    }
    &&& forall|i: int| 0 <= i < t.relationships@.len() ==> is_num(#[trigger] t.relationships@[i].fileid) && is_num(t.relationships@[i].tagid)
    &&& forall|i: int| 0 <= i < t.tags@.len() ==> is_num(#[trigger] t.tags@[i].id) && is_num(t.tags@[i].namespace)
}

/// Queues each statement in turn, counting each write.
pub open spec fn queue_counted(v: DbView, ops: Seq<OpView>) -> DbView
    decreases ops.len(),
{
    if ops.len() == 0 { v } else { commit_step(with_op(queue_counted(v, ops.drop_last()), ops.last())) }
}

/// The inserts after the settings: files, jobs, namespaces, parents,
/// relationships and tags, each table without repeats.
pub open spec fn carried_ops(t: OldTables, now: usize) -> Seq<OpView> {
    dedup(t.files@.map_values(|r: OldFileRow| file_row_op(r)))
        + dedup(t.jobs@.map_values(|r: OldJobRow| job_row_key(r))).map_values(|k: (Seq<char>, Seq<char>, Seq<char>, CommitType)| job_key_op(k, now))
        + dedup(t.namespaces@.map_values(|r: OldNamespaceRow| namespace_row_op(r)))
        + dedup(t.parents@.map_values(|r: OldParentRow| parent_row_op(r)))
        + dedup(t.relationships@.map_values(|r: OldRelationshipRow| relationship_row_op(r)))
        + dedup(t.tags@.map_values(|r: OldTagRow| tag_row_op(r)))
}

/// The job rows whose key (see `job_row_key`) no earlier row has.
pub open spec fn first_jobs(s: Seq<OldJobRow>) -> Seq<OldJobRow>
    decreases s.len(),
{
    if s.len() == 0 {
        s
    } else {
        let d = first_jobs(s.drop_last());
        if d.map_values(|r: OldJobRow| job_row_key(r)).contains(job_row_key(s.last())) { d } else { d.push(s.last()) }
    }
}

/// A settings row as stored in memory.
pub open spec fn old_setting_obj(r: OldSettingRow) -> DbSettingObj {
    DbSettingObj { name: r.name, pretty: Some(r.pretty), num: Some(num(r.num)), param: Some(r.param) }
}

/// A files row as stored in memory, under its own id.
pub open spec fn old_file_obj(r: OldFileRow) -> DbFileObj {
    DbFileObj { id: Some(num(r.id)), hash: r.hash, ext: r.ext, location: r.location }
}

/// A jobs row as stored in memory: stamped `now`, repeating every
/// `reptime`, with its commit type.
pub open spec fn old_job_obj(r: OldJobRow, now: usize) -> DbJobsObj {
    DbJobsObj {
        time: Some(now),
        reptime: Some(time_conv_spec(r.reptime@).unwrap() as usize),
        site: Some(r.site),
        param: Some(r.param),
        jobtype: DbJobType::Params,
        committype: commit_type_from_name_spec(r.committype@),
    }
}

/// A namespaces row as stored in memory.
pub open spec fn old_namespace_obj(r: OldNamespaceRow) -> DbNamespaceObj {
    DbNamespaceObj { id: num(r.id), name: r.name, description: Some(r.description) }
}

/// A parents row as stored in memory.
pub open spec fn old_parent_obj(r: OldParentRow) -> DbParentsObj {
    DbParentsObj {
        tag_namespace_id: num(r.tag_namespace_id),
        tag_id: num(r.tag_id),
        relate_tag_id: num(r.relate_tag_id),
        relate_namespace_id: num(r.relate_namespace_id),
    }
}

/// A relationships row as stored in memory.
pub open spec fn old_relationship_obj(r: OldRelationshipRow) -> DbRelationshipObj {
    DbRelationshipObj { fileid: num(r.fileid), tagid: num(r.tagid) }
}

/// A tags row as stored in memory (the parents column is not kept).
pub open spec fn old_tag_obj(r: OldTagRow) -> DbTagObjCompatability {
    DbTagObjCompatability { id: num(r.id), name: r.name, parents: None, namespace: num(r.namespace) }
}

/// The older rows stored in memory, as loading each table stores its rows:
/// settings, files, jobs (one per key), namespaces, parents, relationships
/// and tags.
pub open spec fn old_rows_stored(v: DbView, t: OldTables, now: usize) -> DbView {
    let v1 = settings_loaded(v, t.settings@.map_values(|r: OldSettingRow| old_setting_obj(r)));
    let v2 = files_loaded(v1, t.files@.map_values(|r: OldFileRow| old_file_obj(r)));
    let v3 = jobs_loaded(v2, first_jobs(t.jobs@).map_values(|r: OldJobRow| old_job_obj(r, now)));
    let v4 = namespaces_loaded(v3, t.namespaces@.map_values(|r: OldNamespaceRow| old_namespace_obj(r)));
    let v5 = parents_loaded(v4, t.parents@.map_values(|r: OldParentRow| old_parent_obj(r)));
    let v6 = relationships_loaded(v5, t.relationships@.map_values(|r: OldRelationshipRow| old_relationship_obj(r)));
    tags_loaded(v6, t.tags@.map_values(|r: OldTagRow| old_tag_obj(r)))
}

/// What carrying the older rows over leaves: the settings queued without
/// repeats and flushed, then the other tables' inserts queued; then the
/// rows are stored in memory.
pub open spec fn load_mesm_spec(v: DbView, t: OldTables, now: usize) -> DbView {
    let s = dedup(t.settings@.map_values(|r: OldSettingRow| setting_row_op(r)));
    old_rows_stored(queue_counted(flushed(queue_counted(v, s)), carried_ops(t, now)), t, now)
}

/// The relationship rows of a run of statements are those of its
/// relationship inserts.
pub proof fn lemma_rel_rows_contains(s: Seq<OpView>, f: usize, t: usize)
    ensures
        rel_rows_written(s).contains((f, t)) <==> s.contains(OpView::InsertRelationship { file: f, tag: t }),
    decreases s.len(),
{
    if s.len() > 0 {
        let u = s.drop_last();
        lemma_rel_rows_contains(u, f, t);
        assert(s =~= u.push(s.last()));
        vstd::seq_lib::lemma_seq_contains_after_push(u, s.last(), OpView::InsertRelationship { file: f, tag: t });
        match s.last() {
            OpView::InsertRelationship { file, tag } => {
                vstd::seq_lib::lemma_seq_contains_after_push(rel_rows_written(u), (file, tag), (f, t));
            },
            _ => {},
        }
    }
}

/// Queueing statements one by one writes their relationship rows after
/// those queued before.
pub proof fn lemma_rel_rows_queue(v: DbView, ops: Seq<OpView>)
    ensures
        rel_rows_written(queue_counted(v, ops).outbox) == rel_rows_written(v.outbox) + rel_rows_written(ops),
    decreases ops.len(),
{
    if ops.len() == 0 {
        assert(rel_rows_written(v.outbox) + rel_rows_written(ops) =~= rel_rows_written(v.outbox));
    } else {
        let u = queue_counted(v, ops.drop_last());
        lemma_rel_rows_queue(v, ops.drop_last());
        let x = with_op(u, ops.last());
        lemma_rel_rows_commit(x);
        assert(x.outbox =~= u.outbox + seq![ops.last()]);
        lemma_rel_rows_add(u.outbox, seq![ops.last()]);
        assert(ops =~= ops.drop_last() + seq![ops.last()]);
        lemma_rel_rows_add(ops.drop_last(), seq![ops.last()]);
        assert((rel_rows_written(v.outbox) + rel_rows_written(ops.drop_last())) + rel_rows_written(seq![ops.last()])
            =~= rel_rows_written(v.outbox) + (rel_rows_written(ops.drop_last()) + rel_rows_written(seq![ops.last()])));
    }
}

/// Carrying an older layout over writes, after what was queued before,
/// relationship rows that are exactly the old relationship rows read as
/// numbers, each with its file as the file and its tag as the tag; and the
/// same rows are held in memory afterwards.
#[verifier::rlimit(40)]
pub proof fn law_load_mesm_relationships(v: DbView, t: OldTables, now: usize)
    ensures
        exists|new: Seq<(usize, usize)>|
            rel_rows_written(load_mesm_spec(v, t, now).outbox) == rel_rows_written(v.outbox) + new
            && forall|f: usize, g: usize| #[trigger] new.contains((f, g))
                <==> exists|i: int| 0 <= i < t.relationships@.len()
                    && f == num(#[trigger] t.relationships@[i].fileid) && g == num(t.relationships@[i].tagid),
        forall|i: int| 0 <= i < t.relationships@.len() ==> load_mesm_spec(v, t, now).relationships.contains(
            DbRelationshipObj { fileid: num(#[trigger] t.relationships@[i].fileid), tagid: num(t.relationships@[i].tagid) }),
{
    let rels = t.relationships@;
    let sops = dedup(t.settings@.map_values(|r: OldSettingRow| setting_row_op(r)));
    let fo = dedup(t.files@.map_values(|r: OldFileRow| file_row_op(r)));
    let jo = dedup(t.jobs@.map_values(|r: OldJobRow| job_row_key(r))).map_values(|k: (Seq<char>, Seq<char>, Seq<char>, CommitType)| job_key_op(k, now));
    let no = dedup(t.namespaces@.map_values(|r: OldNamespaceRow| namespace_row_op(r)));
    let po = dedup(t.parents@.map_values(|r: OldParentRow| parent_row_op(r)));
    let rm = rels.map_values(|r: OldRelationshipRow| relationship_row_op(r));
    let ro = dedup(rm);
    let to = dedup(t.tags@.map_values(|r: OldTagRow| tag_row_op(r)));
    assert forall|i: int| 0 <= i < sops.len() implies !(#[trigger] sops[i] is InsertRelationship) by {
        lemma_dedup_contains(t.settings@.map_values(|r: OldSettingRow| setting_row_op(r)), sops[i]);
    }
    assert forall|i: int| 0 <= i < fo.len() implies !(#[trigger] fo[i] is InsertRelationship) by {
        lemma_dedup_contains(t.files@.map_values(|r: OldFileRow| file_row_op(r)), fo[i]);
    }
    assert forall|i: int| 0 <= i < no.len() implies !(#[trigger] no[i] is InsertRelationship) by {
        lemma_dedup_contains(t.namespaces@.map_values(|r: OldNamespaceRow| namespace_row_op(r)), no[i]);
    }
    assert forall|i: int| 0 <= i < po.len() implies !(#[trigger] po[i] is InsertRelationship) by {
        lemma_dedup_contains(t.parents@.map_values(|r: OldParentRow| parent_row_op(r)), po[i]);
    }
    assert forall|i: int| 0 <= i < to.len() implies !(#[trigger] to[i] is InsertRelationship) by {
        lemma_dedup_contains(t.tags@.map_values(|r: OldTagRow| tag_row_op(r)), to[i]);
    }
    lemma_rel_rows_none(sops);
    lemma_rel_rows_none(fo);
    lemma_rel_rows_none(jo);
    lemma_rel_rows_none(no);
    lemma_rel_rows_none(po);
    lemma_rel_rows_none(to);
    lemma_rel_rows_add(fo, jo);
    lemma_rel_rows_add(fo + jo, no);
    lemma_rel_rows_add(fo + jo + no, po);
    lemma_rel_rows_add(fo + jo + no + po, ro);
    lemma_rel_rows_add(fo + jo + no + po + ro, to);
    let e = Seq::<(usize, usize)>::empty();
    assert(e + e =~= e);
    assert(e + rel_rows_written(ro) =~= rel_rows_written(ro));
    assert(rel_rows_written(ro) + e =~= rel_rows_written(ro));
    assert(rel_rows_written(carried_ops(t, now)) == rel_rows_written(ro));
    let q1 = queue_counted(v, sops);
    lemma_rel_rows_queue(v, sops);
    assert(rel_rows_written(v.outbox) + e =~= rel_rows_written(v.outbox));
    lemma_rel_rows_commit(q1);
    let q2 = queue_counted(flushed(q1), carried_ops(t, now));
    lemma_rel_rows_queue(flushed(q1), carried_ops(t, now));
    let v1 = settings_loaded(q2, t.settings@.map_values(|r: OldSettingRow| old_setting_obj(r)));
    let v2 = files_loaded(v1, t.files@.map_values(|r: OldFileRow| old_file_obj(r)));
    let v3 = jobs_loaded(v2, first_jobs(t.jobs@).map_values(|r: OldJobRow| old_job_obj(r, now)));
    let v4 = namespaces_loaded(v3, t.namespaces@.map_values(|r: OldNamespaceRow| old_namespace_obj(r)));
    let v5 = parents_loaded(v4, t.parents@.map_values(|r: OldParentRow| old_parent_obj(r)));
    let rows = rels.map_values(|r: OldRelationshipRow| old_relationship_obj(r));
    let v6 = relationships_loaded(v5, rows);
    lemma_settings_outbox(q2, t.settings@.map_values(|r: OldSettingRow| old_setting_obj(r)));
    lemma_files_outbox(v1, t.files@.map_values(|r: OldFileRow| old_file_obj(r)));
    lemma_jobs_outbox(v2, first_jobs(t.jobs@).map_values(|r: OldJobRow| old_job_obj(r, now)));
    lemma_namespaces_outbox(v3, t.namespaces@.map_values(|r: OldNamespaceRow| old_namespace_obj(r)));
    lemma_parents_outbox(v4, t.parents@.map_values(|r: OldParentRow| old_parent_obj(r)));
    lemma_relationships_outbox(v5, rows);
    lemma_tags_outbox(v6, t.tags@.map_values(|r: OldTagRow| old_tag_obj(r)));
    lemma_relationships_loaded_has(v5, rows);
    let new = rel_rows_written(ro);
    assert(rel_rows_written(load_mesm_spec(v, t, now).outbox) == rel_rows_written(v.outbox) + new);
    assert forall|f: usize, g: usize| #[trigger] new.contains((f, g))
        <==> exists|i: int| 0 <= i < rels.len() && f == num(#[trigger] rels[i].fileid) && g == num(rels[i].tagid) by {
        let op = OpView::InsertRelationship { file: f, tag: g };
        lemma_rel_rows_contains(ro, f, g);
        lemma_dedup_contains(rm, op);
        if rm.contains(op) {
            let i = choose|i: int| 0 <= i < rm.len() && rm[i] == op;
            assert(rm[i] == relationship_row_op(rels[i]));
        }
        if exists|i: int| 0 <= i < rels.len() && f == num(#[trigger] rels[i].fileid) && g == num(rels[i].tagid) {
            let i = choose|i: int| 0 <= i < rels.len() && f == num(#[trigger] rels[i].fileid) && g == num(rels[i].tagid);
            assert(rm[i] == op);
        }
    }
    assert forall|i: int| 0 <= i < rels.len() implies load_mesm_spec(v, t, now).relationships.contains(
        DbRelationshipObj { fileid: num(#[trigger] rels[i].fileid), tagid: num(rels[i].tagid) }) by {
        assert(rows[i] == old_relationship_obj(rels[i]));
    }
}

/// Queueing statements keeps what was queued before and adds each of them
/// after it.
pub proof fn lemma_queue_keeps(v: DbView, ops: Seq<OpView>)
    ensures
        v.outbox.len() <= queue_counted(v, ops).outbox.len(),
        queue_counted(v, ops).outbox.take(v.outbox.len() as int) == v.outbox,
        forall|o: OpView| ops.contains(o) ==> #[trigger] queue_counted(v, ops).outbox.skip(v.outbox.len() as int).contains(o),
    decreases ops.len(),
{
    broadcast use vstd::seq_lib::lemma_seq_concat_contains_all_elements;
    let n = v.outbox.len() as int;
    if ops.len() == 0 {
        assert(v.outbox.take(n) =~= v.outbox);
    } else {
        let u = ops.drop_last();
        lemma_queue_keeps(v, u);
        let q1 = queue_counted(v, u);
        let x = with_op(q1, ops.last());
        let q = commit_step(x);
        let extra = q.outbox.skip(q1.outbox.len() as int);
        assert(q.outbox =~= q1.outbox + extra);
        assert(extra.contains(ops.last())) by {
            assert(extra[0] == ops.last());
        }
        assert(q.outbox.take(n) =~= q1.outbox.take(n));
        assert(q.outbox.skip(n) =~= q1.outbox.skip(n) + extra);
        assert forall|o: OpView| ops.contains(o) implies #[trigger] q.outbox.skip(n).contains(o) by {
            let i = choose|i: int| 0 <= i < ops.len() && ops[i] == o;
            if i < u.len() {
                assert(u[i] == o);
                assert(u.contains(o));
            }
        }
    }
}

/// Carrying an older layout over queues, after what was queued before, a
/// row for every old row, with its fields read as they stand: settings as
/// upserts; files, namespaces, parents and tags with each column in its own
/// place; and jobs stamped `now`, repeating every interval their repeat
/// text stands for.
#[verifier::rlimit(40)]
pub proof fn law_load_mesm_rows(v: DbView, t: OldTables, now: usize)
    ensures
        load_mesm_spec(v, t, now).outbox.take(v.outbox.len() as int) == v.outbox,
        forall|i: int| 0 <= i < t.settings@.len() ==> load_mesm_spec(v, t, now).outbox.skip(v.outbox.len() as int).contains(
            OpView::UpsertSetting { name: (#[trigger] t.settings@[i]).name@, pretty: Some(t.settings@[i].pretty@),
                num: Some(num(t.settings@[i].num)), param: Some(t.settings@[i].param@) }),
        forall|i: int| 0 <= i < t.files@.len() ==> load_mesm_spec(v, t, now).outbox.skip(v.outbox.len() as int).contains(
            OpView::InsertFile { id: num((#[trigger] t.files@[i]).id), hash: t.files@[i].hash@, ext: t.files@[i].ext@, location: t.files@[i].location@ }),
        forall|i: int| 0 <= i < t.jobs@.len() ==> load_mesm_spec(v, t, now).outbox.skip(v.outbox.len() as int).contains(
            OpView::InsertJob { time: now, reptime: time_conv_spec((#[trigger] t.jobs@[i]).reptime@).unwrap() as usize,
                site: t.jobs@[i].site@, param: t.jobs@[i].param@,
                committype: commit_type_from_name_spec(t.jobs@[i].committype@).unwrap(), jobtype: DbJobType::Params }),
        forall|i: int| 0 <= i < t.namespaces@.len() ==> load_mesm_spec(v, t, now).outbox.skip(v.outbox.len() as int).contains(
            OpView::InsertNamespace { id: num((#[trigger] t.namespaces@[i]).id), name: t.namespaces@[i].name@, description: Some(t.namespaces@[i].description@) }),
        forall|i: int| 0 <= i < t.parents@.len() ==> load_mesm_spec(v, t, now).outbox.skip(v.outbox.len() as int).contains(
            OpView::InsertParent {
                tag_namespace_id: num((#[trigger] t.parents@[i]).tag_namespace_id),
                tag_id: num(t.parents@[i].tag_id),
                relate_namespace_id: num(t.parents@[i].relate_namespace_id),
                relate_tag_id: num(t.parents@[i].relate_tag_id),
            }),
        forall|i: int| 0 <= i < t.tags@.len() ==> load_mesm_spec(v, t, now).outbox.skip(v.outbox.len() as int).contains(
            OpView::InsertTagRow { id: num((#[trigger] t.tags@[i]).id), name: t.tags@[i].name@, parents: t.tags@[i].parents@, namespace: num(t.tags@[i].namespace) }),
{
    broadcast use vstd::seq_lib::lemma_seq_concat_contains_all_elements;
    let n = v.outbox.len() as int;
    let sm = t.settings@.map_values(|r: OldSettingRow| setting_row_op(r));
    let sops = dedup(sm);
    let fm = t.files@.map_values(|r: OldFileRow| file_row_op(r));
    let km = t.jobs@.map_values(|r: OldJobRow| job_row_key(r));
    let jo = dedup(km).map_values(|k: (Seq<char>, Seq<char>, Seq<char>, CommitType)| job_key_op(k, now));
    let nm = t.namespaces@.map_values(|r: OldNamespaceRow| namespace_row_op(r));
    let pm = t.parents@.map_values(|r: OldParentRow| parent_row_op(r));
    let rm = t.relationships@.map_values(|r: OldRelationshipRow| relationship_row_op(r));
    let tm = t.tags@.map_values(|r: OldTagRow| tag_row_op(r));
    let carried = carried_ops(t, now);
    assert(carried == dedup(fm) + jo + dedup(nm) + dedup(pm) + dedup(rm) + dedup(tm));
    let q1 = queue_counted(v, sops);
    lemma_queue_keeps(v, sops);
    let f1 = flushed(q1);
    let m = f1.outbox.len() as int;
    let q2 = queue_counted(f1, carried);
    lemma_queue_keeps(f1, carried);
    let v1 = settings_loaded(q2, t.settings@.map_values(|r: OldSettingRow| old_setting_obj(r)));
    let v2 = files_loaded(v1, t.files@.map_values(|r: OldFileRow| old_file_obj(r)));
    let v3 = jobs_loaded(v2, first_jobs(t.jobs@).map_values(|r: OldJobRow| old_job_obj(r, now)));
    let v4 = namespaces_loaded(v3, t.namespaces@.map_values(|r: OldNamespaceRow| old_namespace_obj(r)));
    let v5 = parents_loaded(v4, t.parents@.map_values(|r: OldParentRow| old_parent_obj(r)));
    let v6 = relationships_loaded(v5, t.relationships@.map_values(|r: OldRelationshipRow| old_relationship_obj(r)));
    lemma_settings_outbox(q2, t.settings@.map_values(|r: OldSettingRow| old_setting_obj(r)));
    lemma_files_outbox(v1, t.files@.map_values(|r: OldFileRow| old_file_obj(r)));
    lemma_jobs_outbox(v2, first_jobs(t.jobs@).map_values(|r: OldJobRow| old_job_obj(r, now)));
    lemma_namespaces_outbox(v3, t.namespaces@.map_values(|r: OldNamespaceRow| old_namespace_obj(r)));
    lemma_parents_outbox(v4, t.parents@.map_values(|r: OldParentRow| old_parent_obj(r)));
    lemma_relationships_outbox(v5, t.relationships@.map_values(|r: OldRelationshipRow| old_relationship_obj(r)));
    lemma_tags_outbox(v6, t.tags@.map_values(|r: OldTagRow| old_tag_obj(r)));
    let out = load_mesm_spec(v, t, now).outbox;
    assert(out == q2.outbox);
    // the whole run after `v`: the settings part, the flush, the rest
    let s1 = q1.outbox.skip(n);
    let s2 = q2.outbox.skip(m);
    assert(q1.outbox =~= v.outbox + s1);
    assert(f1.outbox =~= v.outbox + (s1 + seq![OpView::Commit, OpView::Begin]));
    assert(q2.outbox =~= f1.outbox + s2);
    assert(out.take(n) =~= v.outbox);
    assert(out.skip(n) =~= (s1 + seq![OpView::Commit, OpView::Begin]) + s2);
    assert forall|o: OpView| sm.contains(o) implies out.skip(n).contains(o) by {
        lemma_dedup_contains(sm, o);
        assert(s1.contains(o));
    }
    assert forall|o: OpView| carried.contains(o) implies out.skip(n).contains(o) by {
        assert(s2.contains(o));
    }
    assert forall|i: int| 0 <= i < t.settings@.len() implies out.skip(n).contains(
        OpView::UpsertSetting { name: (#[trigger] t.settings@[i]).name@, pretty: Some(t.settings@[i].pretty@),
            num: Some(num(t.settings@[i].num)), param: Some(t.settings@[i].param@) }) by {
        assert(sm[i] == setting_row_op(t.settings@[i]));
        assert(sm.contains(sm[i]));
    }
    assert forall|i: int| 0 <= i < t.files@.len() implies out.skip(n).contains(
        OpView::InsertFile { id: num((#[trigger] t.files@[i]).id), hash: t.files@[i].hash@, ext: t.files@[i].ext@, location: t.files@[i].location@ }) by {
        assert(fm[i] == file_row_op(t.files@[i]));
        assert(fm.contains(fm[i]));
        lemma_dedup_contains(fm, fm[i]);
        assert(carried.contains(fm[i]));
    }
    assert forall|i: int| 0 <= i < t.jobs@.len() implies out.skip(n).contains(
        OpView::InsertJob { time: now, reptime: time_conv_spec((#[trigger] t.jobs@[i]).reptime@).unwrap() as usize,
            site: t.jobs@[i].site@, param: t.jobs@[i].param@,
            committype: commit_type_from_name_spec(t.jobs@[i].committype@).unwrap(), jobtype: DbJobType::Params }) by {
        assert(km[i] == job_row_key(t.jobs@[i]));
        assert(km.contains(km[i]));
        lemma_dedup_contains(km, km[i]);
        let dk = dedup(km);
        let c = choose|c: int| 0 <= c < dk.len() && dk[c] == km[i];
        assert(jo[c] == job_key_op(km[i], now));
        assert(jo.contains(jo[c]));
        assert(carried.contains(jo[c]));
    }
    assert forall|i: int| 0 <= i < t.namespaces@.len() implies out.skip(n).contains(
        OpView::InsertNamespace { id: num((#[trigger] t.namespaces@[i]).id), name: t.namespaces@[i].name@, description: Some(t.namespaces@[i].description@) }) by {
        assert(nm[i] == namespace_row_op(t.namespaces@[i]));
        assert(nm.contains(nm[i]));
        lemma_dedup_contains(nm, nm[i]);
        assert(carried.contains(nm[i]));
    }
    assert forall|i: int| 0 <= i < t.parents@.len() implies out.skip(n).contains(
        OpView::InsertParent {
            tag_namespace_id: num((#[trigger] t.parents@[i]).tag_namespace_id),
            tag_id: num(t.parents@[i].tag_id),
            relate_namespace_id: num(t.parents@[i].relate_namespace_id),
            relate_tag_id: num(t.parents@[i].relate_tag_id),
        }) by {
        assert(pm[i] == parent_row_op(t.parents@[i]));
        assert(pm.contains(pm[i]));
        lemma_dedup_contains(pm, pm[i]);
        assert(carried.contains(pm[i]));
    }
    assert forall|i: int| 0 <= i < t.tags@.len() implies out.skip(n).contains(
        OpView::InsertTagRow { id: num((#[trigger] t.tags@[i]).id), name: t.tags@[i].name@, parents: t.tags@[i].parents@, namespace: num(t.tags@[i].namespace) }) by {
        assert(tm[i] == tag_row_op(t.tags@[i]));
        assert(tm.contains(tm[i]));
        lemma_dedup_contains(tm, tm[i]);
        assert(carried.contains(tm[i]));
    }
}

/// The kinds of statement the rows are carried over as.
pub open spec fn carried_kind(o: SqlOp) -> bool {
    ||| o is UpsertSetting
    ||| o is InsertFile
    ||| o is InsertNamespace
    ||| o is InsertParent
    ||| o is InsertRelationship
    ||| o is InsertTagRow
}

fn opt_str_same(a: &Option<String>, b: &Option<String>) -> (r: bool)
    ensures
        r == (crate::database::opt_view(*a) == crate::database::opt_view(*b)),
{
    match (a, b) {
        (Some(x), Some(y)) => *x == *y,
        (None, None) => true,
        _ => false,
    }
}

/// Whether two statements of the carried kinds are the same.
fn op_same(a: &SqlOp, b: &SqlOp) -> (r: bool)
    requires
        carried_kind(*a),
        carried_kind(*b),
    ensures
        r == (op_view(*a) == op_view(*b)),
{
    match (a, b) {
        (SqlOp::UpsertSetting { name: n1, pretty: p1, num: u1, param: q1 }, SqlOp::UpsertSetting { name: n2, pretty: p2, num: u2, param: q2 }) =>
            *n1 == *n2 && opt_str_same(p1, p2) && *u1 == *u2 && opt_str_same(q1, q2),
        (SqlOp::InsertFile { id: i1, hash: h1, ext: e1, location: l1 }, SqlOp::InsertFile { id: i2, hash: h2, ext: e2, location: l2 }) =>
            *i1 == *i2 && *h1 == *h2 && *e1 == *e2 && *l1 == *l2,
        (SqlOp::InsertNamespace { id: i1, name: n1, description: d1 }, SqlOp::InsertNamespace { id: i2, name: n2, description: d2 }) =>
            *i1 == *i2 && *n1 == *n2 && opt_str_same(d1, d2),
        (SqlOp::InsertParent { tag_namespace_id: a1, tag_id: b1, relate_namespace_id: c1, relate_tag_id: d1 },
         SqlOp::InsertParent { tag_namespace_id: a2, tag_id: b2, relate_namespace_id: c2, relate_tag_id: d2 }) =>
            *a1 == *a2 && *b1 == *b2 && *c1 == *c2 && *d1 == *d2,
        (SqlOp::InsertRelationship { file: f1, tag: t1 }, SqlOp::InsertRelationship { file: f2, tag: t2 }) =>
            *f1 == *f2 && *t1 == *t2,
        (SqlOp::InsertTagRow { id: i1, name: n1, parents: p1, namespace: s1 }, SqlOp::InsertTagRow { id: i2, name: n2, parents: p2, namespace: s2 }) =>
            *i1 == *i2 && *n1 == *n2 && *p1 == *p2 && *s1 == *s2,
        _ => false,
    }
}

pub open spec fn views(ops: Seq<SqlOp>) -> Seq<OpView> {
    ops.map_values(|o: SqlOp| op_view(o))
}

/// Appends a statement unless an equal one is there.
fn push_distinct(list: &mut Vec<SqlOp>, op: SqlOp)
    requires
        carried_kind(op),
        forall|i: int| 0 <= i < old(list)@.len() ==> carried_kind(#[trigger] old(list)@[i]),
    ensures
        forall|i: int| 0 <= i < final(list)@.len() ==> carried_kind(#[trigger] final(list)@[i]),
        views(final(list)@) == (if views(old(list)@).contains(op_view(op)) { views(old(list)@) } else { views(old(list)@).push(op_view(op)) }),
{
    let mut i: usize = 0;
    while i < list.len()
        invariant
            i <= list@.len(),
            forall|j: int| 0 <= j < list@.len() ==> carried_kind(#[trigger] list@[j]),
            carried_kind(op),
            forall|j: int| 0 <= j < i ==> op_view(#[trigger] list@[j]) != op_view(op),
        decreases list@.len() - i,
    {
        if op_same(&list[i], &op) {
            proof {
                assert(views(list@)[i as int] == op_view(op));
            }
            return;
        }
        i = i + 1;
    }
    let ghost before = list@;
    proof {
        assert forall|j: int| 0 <= j < views(before).len() implies views(before)[j] != op_view(op) by {
            assert(views(before)[j] == op_view(before[j]));
        }
    }
    list.push(op);
    assert(views(list@) =~= views(before).push(op_view(op)));
}

fn number(s: &String) -> (n: usize)
    requires
        is_num(*s),
    ensures
        n == num(*s),
{
    let c = chars_of(s.as_str());
    match parse_usize(&c) {
        Some(n) => n,
        None => {
            assert(false);
            0
        },
    }
}


fn setting_ops(rows: &Vec<OldSettingRow>) -> (r: Vec<SqlOp>)
    requires
        forall|i: int| 0 <= i < rows@.len() ==> is_num(#[trigger] rows@[i].num),
    ensures
        forall|i: int| 0 <= i < r@.len() ==> carried_kind(#[trigger] r@[i]),
        views(r@) == dedup(rows@.map_values(|x: OldSettingRow| setting_row_op(x))),
{
    let mut out: Vec<SqlOp> = Vec::new();
    let mut i: usize = 0;
    while i < rows.len()
        invariant
            i <= rows@.len(),
            forall|j: int| 0 <= j < rows@.len() ==> is_num(#[trigger] rows@[j].num),
            forall|j: int| 0 <= j < out@.len() ==> carried_kind(#[trigger] out@[j]),
            views(out@) == dedup(rows@.take(i as int).map_values(|x: OldSettingRow| setting_row_op(x))),
        decreases rows@.len() - i,
    {
        let r = &rows[i];
        let op = SqlOp::UpsertSetting {
            name: r.name.clone(),
            pretty: Some(r.pretty.clone()),
            num: Some(number(&r.num)),
            param: Some(r.param.clone()),
        };
        push_distinct(&mut out, op);
        proof {
            assert(rows@.take(i + 1).map_values(|x: OldSettingRow| setting_row_op(x)).drop_last()
                =~= rows@.take(i as int).map_values(|x: OldSettingRow| setting_row_op(x)));
        }
        i = i + 1;
    }
    proof {
        assert(rows@.take(rows@.len() as int) =~= rows@);
    }
    out
}

fn file_ops(rows: &Vec<OldFileRow>) -> (r: Vec<SqlOp>)
    requires
        forall|i: int| 0 <= i < rows@.len() ==> is_num(#[trigger] rows@[i].id),
    ensures
        forall|i: int| 0 <= i < r@.len() ==> carried_kind(#[trigger] r@[i]),
        views(r@) == dedup(rows@.map_values(|x: OldFileRow| file_row_op(x))),
{
    let mut out: Vec<SqlOp> = Vec::new();
    let mut i: usize = 0;
    while i < rows.len()
        invariant
            i <= rows@.len(),
            forall|j: int| 0 <= j < rows@.len() ==> is_num(#[trigger] rows@[j].id),
            forall|j: int| 0 <= j < out@.len() ==> carried_kind(#[trigger] out@[j]),
            views(out@) == dedup(rows@.take(i as int).map_values(|x: OldFileRow| file_row_op(x))),
        decreases rows@.len() - i,
    {
        let r = &rows[i];
        let op = SqlOp::InsertFile { id: number(&r.id), hash: r.hash.clone(), ext: r.ext.clone(), location: r.location.clone() };
        push_distinct(&mut out, op);
        proof {
            assert(rows@.take(i + 1).map_values(|x: OldFileRow| file_row_op(x)).drop_last()
                =~= rows@.take(i as int).map_values(|x: OldFileRow| file_row_op(x)));
        }
        i = i + 1;
    }
    proof {
        assert(rows@.take(rows@.len() as int) =~= rows@);
    }
    out
}

fn namespace_ops(rows: &Vec<OldNamespaceRow>) -> (r: Vec<SqlOp>)
    requires
        forall|i: int| 0 <= i < rows@.len() ==> is_num(#[trigger] rows@[i].id),
    ensures
        forall|i: int| 0 <= i < r@.len() ==> carried_kind(#[trigger] r@[i]),
        views(r@) == dedup(rows@.map_values(|x: OldNamespaceRow| namespace_row_op(x))),
{
    let mut out: Vec<SqlOp> = Vec::new();
    let mut i: usize = 0;
    while i < rows.len()
        invariant
            i <= rows@.len(),
            forall|j: int| 0 <= j < rows@.len() ==> is_num(#[trigger] rows@[j].id),
            forall|j: int| 0 <= j < out@.len() ==> carried_kind(#[trigger] out@[j]),
            views(out@) == dedup(rows@.take(i as int).map_values(|x: OldNamespaceRow| namespace_row_op(x))),
        decreases rows@.len() - i,
    {
        let r = &rows[i];
        let op = SqlOp::InsertNamespace { id: number(&r.id), name: r.name.clone(), description: Some(r.description.clone()) };
        push_distinct(&mut out, op);
        proof {
            assert(rows@.take(i + 1).map_values(|x: OldNamespaceRow| namespace_row_op(x)).drop_last()
                =~= rows@.take(i as int).map_values(|x: OldNamespaceRow| namespace_row_op(x)));
        }
        i = i + 1;
    }
    proof {
        assert(rows@.take(rows@.len() as int) =~= rows@);
    }
    out
}

fn parent_ops(rows: &Vec<OldParentRow>) -> (r: Vec<SqlOp>)
    requires
        forall|i: int| 0 <= i < rows@.len() ==> {
            &&& is_num(#[trigger] rows@[i].tag_namespace_id)
            &&& is_num(rows@[i].tag_id)
            &&& is_num(rows@[i].relate_namespace_id)
            &&& is_num(rows@[i].relate_tag_id)
        },
    ensures
        forall|i: int| 0 <= i < r@.len() ==> carried_kind(#[trigger] r@[i]),
        views(r@) == dedup(rows@.map_values(|x: OldParentRow| parent_row_op(x))),
{
    let mut out: Vec<SqlOp> = Vec::new();
    let mut i: usize = 0;
    while i < rows.len()
        invariant
            i <= rows@.len(),
            forall|j: int| 0 <= j < rows@.len() ==> {
                &&& is_num(#[trigger] rows@[j].tag_namespace_id)
                &&& is_num(rows@[j].tag_id)
                &&& is_num(rows@[j].relate_namespace_id)
                &&& is_num(rows@[j].relate_tag_id)
            },
            forall|j: int| 0 <= j < out@.len() ==> carried_kind(#[trigger] out@[j]),
            views(out@) == dedup(rows@.take(i as int).map_values(|x: OldParentRow| parent_row_op(x))),
        decreases rows@.len() - i,
    {
        let r = &rows[i];
        let op = SqlOp::InsertParent {
            tag_namespace_id: number(&r.tag_namespace_id),
            tag_id: number(&r.tag_id),
            relate_namespace_id: number(&r.relate_namespace_id),
            relate_tag_id: number(&r.relate_tag_id),
        };
        push_distinct(&mut out, op);
        proof {
            assert(rows@.take(i + 1).map_values(|x: OldParentRow| parent_row_op(x)).drop_last()
                =~= rows@.take(i as int).map_values(|x: OldParentRow| parent_row_op(x)));
        }
        i = i + 1;
    }
    proof {
        assert(rows@.take(rows@.len() as int) =~= rows@);
    }
    out
}

fn relationship_ops(rows: &Vec<OldRelationshipRow>) -> (r: Vec<SqlOp>)
    requires
        forall|i: int| 0 <= i < rows@.len() ==> is_num(#[trigger] rows@[i].fileid) && is_num(rows@[i].tagid),
    ensures
        forall|i: int| 0 <= i < r@.len() ==> carried_kind(#[trigger] r@[i]),
        views(r@) == dedup(rows@.map_values(|x: OldRelationshipRow| relationship_row_op(x))),
{
    let mut out: Vec<SqlOp> = Vec::new();
    let mut i: usize = 0;
    while i < rows.len()
        invariant
            i <= rows@.len(),
            forall|j: int| 0 <= j < rows@.len() ==> is_num(#[trigger] rows@[j].fileid) && is_num(rows@[j].tagid),
            forall|j: int| 0 <= j < out@.len() ==> carried_kind(#[trigger] out@[j]),
            views(out@) == dedup(rows@.take(i as int).map_values(|x: OldRelationshipRow| relationship_row_op(x))),
        decreases rows@.len() - i,
    {
        let r = &rows[i];
        let op = SqlOp::InsertRelationship { file: number(&r.fileid), tag: number(&r.tagid) };
        push_distinct(&mut out, op);
        proof {
            assert(rows@.take(i + 1).map_values(|x: OldRelationshipRow| relationship_row_op(x)).drop_last()
                =~= rows@.take(i as int).map_values(|x: OldRelationshipRow| relationship_row_op(x)));
        }
        i = i + 1;
    }
    proof {
        assert(rows@.take(rows@.len() as int) =~= rows@);
    }
    out
}

fn tag_ops(rows: &Vec<OldTagRow>) -> (r: Vec<SqlOp>)
    requires
        forall|i: int| 0 <= i < rows@.len() ==> is_num(#[trigger] rows@[i].id) && is_num(rows@[i].namespace),
    ensures
        forall|i: int| 0 <= i < r@.len() ==> carried_kind(#[trigger] r@[i]),
        views(r@) == dedup(rows@.map_values(|x: OldTagRow| tag_row_op(x))),
{
    let mut out: Vec<SqlOp> = Vec::new();
    let mut i: usize = 0;
    while i < rows.len()
        invariant
            i <= rows@.len(),
            forall|j: int| 0 <= j < rows@.len() ==> is_num(#[trigger] rows@[j].id) && is_num(rows@[j].namespace),
            forall|j: int| 0 <= j < out@.len() ==> carried_kind(#[trigger] out@[j]),
            views(out@) == dedup(rows@.take(i as int).map_values(|x: OldTagRow| tag_row_op(x))),
        decreases rows@.len() - i,
    {
        let r = &rows[i];
        let op = SqlOp::InsertTagRow { id: number(&r.id), name: r.name.clone(), parents: r.parents.clone(), namespace: number(&r.namespace) };
        push_distinct(&mut out, op);
        proof {
            assert(rows@.take(i + 1).map_values(|x: OldTagRow| tag_row_op(x)).drop_last()
                =~= rows@.take(i as int).map_values(|x: OldTagRow| tag_row_op(x)));
        }
        i = i + 1;
    }
    proof {
        assert(rows@.take(rows@.len() as int) =~= rows@);
    }
    out
}

pub open spec fn key_view(k: (String, String, String, CommitType)) -> (Seq<char>, Seq<char>, Seq<char>, CommitType) {
    (k.0@, k.1@, k.2@, k.3)
}

pub open spec fn key_views(ks: Seq<(String, String, String, CommitType)>) -> Seq<(Seq<char>, Seq<char>, Seq<char>, CommitType)> {
    ks.map_values(|k: (String, String, String, CommitType)| key_view(k))
}

fn job_ops(rows: &Vec<OldJobRow>, now: usize) -> (r: (Vec<SqlOp>, Vec<DbJobsObj>))
    requires
        forall|i: int| 0 <= i < rows@.len() ==> {
            &&& is_num(#[trigger] rows@[i].time)
            &&& is_num(rows@[i].reptime)
            &&& commit_type_from_name_spec(rows@[i].committype@).is_some()
        },
    ensures
        views(r.0@) == dedup(rows@.map_values(|x: OldJobRow| job_row_key(x))).map_values(|k: (Seq<char>, Seq<char>, Seq<char>, CommitType)| job_key_op(k, now)),
        r.1@ == first_jobs(rows@).map_values(|x: OldJobRow| old_job_obj(x, now)),
{
    let mut keys: Vec<(String, String, String, CommitType)> = Vec::new();
    let mut out: Vec<SqlOp> = Vec::new();
    let mut objs: Vec<DbJobsObj> = Vec::new();
    let mut i: usize = 0;
    while i < rows.len()
        invariant
            i <= rows@.len(),
            forall|j: int| 0 <= j < rows@.len() ==> {
                &&& is_num(#[trigger] rows@[j].time)
                &&& is_num(rows@[j].reptime)
                &&& commit_type_from_name_spec(rows@[j].committype@).is_some()
            },
            key_views(keys@) == dedup(rows@.take(i as int).map_values(|x: OldJobRow| job_row_key(x))),
            views(out@) == key_views(keys@).map_values(|k: (Seq<char>, Seq<char>, Seq<char>, CommitType)| job_key_op(k, now)),
            key_views(keys@) == first_jobs(rows@.take(i as int)).map_values(|x: OldJobRow| job_row_key(x)),
            objs@ == first_jobs(rows@.take(i as int)).map_values(|x: OldJobRow| old_job_obj(x, now)),
        decreases rows@.len() - i,
    {
        let r = &rows[i];
        let _ = number(&r.time);
        let c = match commit_type_from_name(&r.committype) {
            Some(c) => c,
            None => {
                assert(false);
                CommitType::AddToDB
            },
        };
        let ghost kv = job_row_key(*r);
        let mut seen = false;
        let mut j: usize = 0;
        while j < keys.len()
            invariant
                j <= keys@.len(),
                seen ==> key_views(keys@).contains(kv),
                !seen ==> forall|m: int| 0 <= m < j ==> key_view(#[trigger] keys@[m]) != kv,
                kv == (r.site@, r.param@, r.reptime@, c),
            decreases keys@.len() - j,
        {
            let k = &keys[j];
            if k.0 == r.site && k.1 == r.param && k.2 == r.reptime && k.3 == c {
                proof {
                    assert(key_views(keys@)[j as int] == kv);
                }
                seen = true;
            }
            j = j + 1;
        }
        let ghost kb = keys@;
        let ghost ob = out@;
        let ghost jb = objs@;
        proof {
            assert(rows@.take(i + 1).drop_last() =~= rows@.take(i as int));
            assert(rows@.take(i + 1).last() == *r);
        }
        if !seen {
            proof {
                assert forall|m: int| 0 <= m < kb.len() implies #[trigger] key_views(kb)[m] != kv by {
                    assert(key_view(kb[m]) != kv);
                }
                lemma_number_no_interval(r.reptime@);
            }
            let rep = time_conv(&r.reptime);
            keys.push((r.site.clone(), r.param.clone(), r.reptime.clone(), c));
            out.push(SqlOp::InsertJob { time: now, reptime: rep, site: r.site.clone(), param: r.param.clone(), committype: c, jobtype: DbJobType::Params });
            objs.push(DbJobsObj {
                time: Some(now),
                reptime: Some(rep),
                site: Some(r.site.clone()),
                param: Some(r.param.clone()),
                jobtype: DbJobType::Params,
                committype: Some(c),
            });
            proof {
                assert(objs@ =~= jb.push(old_job_obj(*r, now)));
                assert(first_jobs(rows@.take(i + 1)) == first_jobs(rows@.take(i as int)).push(*r));
                assert(first_jobs(rows@.take(i + 1)).map_values(|x: OldJobRow| old_job_obj(x, now))
                    =~= jb.push(old_job_obj(*r, now)));
                assert(first_jobs(rows@.take(i + 1)).map_values(|x: OldJobRow| job_row_key(x))
                    =~= kb.map_values(|k: (String, String, String, CommitType)| key_view(k)).push(kv));
                assert(key_views(keys@)
                    =~= key_views(kb).push(kv));
                assert(views(out@) =~= views(ob).push(job_key_op(kv, now)));
                assert(key_views(keys@).map_values(|k: (Seq<char>, Seq<char>, Seq<char>, CommitType)| job_key_op(k, now))
                    =~= key_views(kb).map_values(|k: (Seq<char>, Seq<char>, Seq<char>, CommitType)| job_key_op(k, now)).push(job_key_op(kv, now)));
            }
        }
        proof {
            assert(rows@.take(i + 1).map_values(|x: OldJobRow| job_row_key(x)).drop_last()
                =~= rows@.take(i as int).map_values(|x: OldJobRow| job_row_key(x)));
            assert(rows@.take(i + 1).map_values(|x: OldJobRow| job_row_key(x)).last() == kv);
        }
        i = i + 1;
    }
    proof {
        assert(rows@.take(rows@.len() as int) =~= rows@);
    }
    (out, objs)
}

fn setting_objs(rows: &Vec<OldSettingRow>) -> (r: Vec<DbSettingObj>)
    requires
        forall|i: int| 0 <= i < rows@.len() ==> is_num(#[trigger] rows@[i].num),
    ensures
        r@ == rows@.map_values(|x: OldSettingRow| old_setting_obj(x)),
{
    let mut out: Vec<DbSettingObj> = Vec::new();
    let mut i: usize = 0;
    while i < rows.len()
        invariant
            i <= rows@.len(),
            forall|j: int| 0 <= j < rows@.len() ==> is_num(#[trigger] rows@[j].num),
            out@ == rows@.take(i as int).map_values(|x: OldSettingRow| old_setting_obj(x)),
        decreases rows@.len() - i,
    {
        let r = &rows[i];
        out.push(DbSettingObj { name: r.name.clone(), pretty: Some(r.pretty.clone()), num: Some(number(&r.num)), param: Some(r.param.clone()) });
        proof {
            assert(out@ =~= rows@.take(i + 1).map_values(|x: OldSettingRow| old_setting_obj(x)));
        }
        i = i + 1;
    }
    proof {
        assert(rows@.take(rows@.len() as int) =~= rows@);
    }
    out
}

fn file_objs(rows: &Vec<OldFileRow>) -> (r: Vec<DbFileObj>)
    requires
        forall|i: int| 0 <= i < rows@.len() ==> is_num(#[trigger] rows@[i].id),
    ensures
        r@ == rows@.map_values(|x: OldFileRow| old_file_obj(x)),
{
    let mut out: Vec<DbFileObj> = Vec::new();
    let mut i: usize = 0;
    while i < rows.len()
        invariant
            i <= rows@.len(),
            forall|j: int| 0 <= j < rows@.len() ==> is_num(#[trigger] rows@[j].id),
            out@ == rows@.take(i as int).map_values(|x: OldFileRow| old_file_obj(x)),
        decreases rows@.len() - i,
    {
        let r = &rows[i];
        out.push(DbFileObj { id: Some(number(&r.id)), hash: r.hash.clone(), ext: r.ext.clone(), location: r.location.clone() });
        proof {
            assert(out@ =~= rows@.take(i + 1).map_values(|x: OldFileRow| old_file_obj(x)));
        }
        i = i + 1;
    }
    proof {
        assert(rows@.take(rows@.len() as int) =~= rows@);
    }
    out
}

fn namespace_objs(rows: &Vec<OldNamespaceRow>) -> (r: Vec<DbNamespaceObj>)
    requires
        forall|i: int| 0 <= i < rows@.len() ==> is_num(#[trigger] rows@[i].id),
    ensures
        r@ == rows@.map_values(|x: OldNamespaceRow| old_namespace_obj(x)),
{
    let mut out: Vec<DbNamespaceObj> = Vec::new();
    let mut i: usize = 0;
    while i < rows.len()
        invariant
            i <= rows@.len(),
            forall|j: int| 0 <= j < rows@.len() ==> is_num(#[trigger] rows@[j].id),
            out@ == rows@.take(i as int).map_values(|x: OldNamespaceRow| old_namespace_obj(x)),
        decreases rows@.len() - i,
    {
        let r = &rows[i];
        out.push(DbNamespaceObj { id: number(&r.id), name: r.name.clone(), description: Some(r.description.clone()) });
        proof {
            assert(out@ =~= rows@.take(i + 1).map_values(|x: OldNamespaceRow| old_namespace_obj(x)));
        }
        i = i + 1;
    }
    proof {
        assert(rows@.take(rows@.len() as int) =~= rows@);
    }
    out
}

fn parent_objs(rows: &Vec<OldParentRow>) -> (r: Vec<DbParentsObj>)
    requires
        forall|i: int| 0 <= i < rows@.len() ==> {
            &&& is_num(#[trigger] rows@[i].tag_namespace_id)
            &&& is_num(rows@[i].tag_id)
            &&& is_num(rows@[i].relate_namespace_id)
            &&& is_num(rows@[i].relate_tag_id)
        },
    ensures
        r@ == rows@.map_values(|x: OldParentRow| old_parent_obj(x)),
{
    let mut out: Vec<DbParentsObj> = Vec::new();
    let mut i: usize = 0;
    while i < rows.len()
        invariant
            i <= rows@.len(),
            forall|j: int| 0 <= j < rows@.len() ==> {
                &&& is_num(#[trigger] rows@[j].tag_namespace_id)
                &&& is_num(rows@[j].tag_id)
                &&& is_num(rows@[j].relate_namespace_id)
                &&& is_num(rows@[j].relate_tag_id)
            },
            out@ == rows@.take(i as int).map_values(|x: OldParentRow| old_parent_obj(x)),
        decreases rows@.len() - i,
    {
        let r = &rows[i];
        out.push(DbParentsObj {
            tag_namespace_id: number(&r.tag_namespace_id),
            tag_id: number(&r.tag_id),
            relate_tag_id: number(&r.relate_tag_id),
            relate_namespace_id: number(&r.relate_namespace_id),
        });
        proof {
            assert(out@ =~= rows@.take(i + 1).map_values(|x: OldParentRow| old_parent_obj(x)));
        }
        i = i + 1;
    }
    proof {
        assert(rows@.take(rows@.len() as int) =~= rows@);
    }
    out
}

fn relationship_objs(rows: &Vec<OldRelationshipRow>) -> (r: Vec<DbRelationshipObj>)
    requires
        forall|i: int| 0 <= i < rows@.len() ==> is_num(#[trigger] rows@[i].fileid) && is_num(rows@[i].tagid),
    ensures
        r@ == rows@.map_values(|x: OldRelationshipRow| old_relationship_obj(x)),
{
    let mut out: Vec<DbRelationshipObj> = Vec::new();
    let mut i: usize = 0;
    while i < rows.len()
        invariant
            i <= rows@.len(),
            forall|j: int| 0 <= j < rows@.len() ==> is_num(#[trigger] rows@[j].fileid) && is_num(rows@[j].tagid),
            out@ == rows@.take(i as int).map_values(|x: OldRelationshipRow| old_relationship_obj(x)),
        decreases rows@.len() - i,
    {
        let r = &rows[i];
        out.push(DbRelationshipObj { fileid: number(&r.fileid), tagid: number(&r.tagid) });
        proof {
            assert(out@ =~= rows@.take(i + 1).map_values(|x: OldRelationshipRow| old_relationship_obj(x)));
        }
        i = i + 1;
    }
    proof {
        assert(rows@.take(rows@.len() as int) =~= rows@);
    }
    out
}

fn tag_objs(rows: &Vec<OldTagRow>) -> (r: Vec<DbTagObjCompatability>)
    requires
        forall|i: int| 0 <= i < rows@.len() ==> is_num(#[trigger] rows@[i].id) && is_num(rows@[i].namespace),
    ensures
        r@ == rows@.map_values(|x: OldTagRow| old_tag_obj(x)),
{
    let mut out: Vec<DbTagObjCompatability> = Vec::new();
    let mut i: usize = 0;
    while i < rows.len()
        invariant
            i <= rows@.len(),
            forall|j: int| 0 <= j < rows@.len() ==> is_num(#[trigger] rows@[j].id) && is_num(rows@[j].namespace),
            out@ == rows@.take(i as int).map_values(|x: OldTagRow| old_tag_obj(x)),
        decreases rows@.len() - i,
    {
        let r = &rows[i];
        out.push(DbTagObjCompatability { id: number(&r.id), name: r.name.clone(), parents: None, namespace: number(&r.namespace) });
        proof {
            assert(out@ =~= rows@.take(i + 1).map_values(|x: OldTagRow| old_tag_obj(x)));
        }
        i = i + 1;
    }
    proof {
        assert(rows@.take(rows@.len() as int) =~= rows@);
    }
    out
}

fn num_ok(s: &String) -> (b: bool)
    ensures
        b == is_num(*s),
{
    let c = chars_of(s.as_str());
    parse_usize(&c).is_some()
}

/// Whether the older rows hold what carrying them over needs (see
/// `old_tables_valid`): numbers where numbers are read, and known commit
/// types.
pub fn old_tables_check(t: &OldTables) -> (b: bool)
    ensures
        b == old_tables_valid(*t),
{
    let mut i: usize = 0;
    while i < t.settings.len()
        invariant
            i <= t.settings@.len(),
            forall|j: int| 0 <= j < i ==> is_num(#[trigger] t.settings@[j].num),
        decreases t.settings@.len() - i,
    {
        if !num_ok(&t.settings[i].num) {
            return false;
        }
        i = i + 1;
    }
    let mut i: usize = 0;
    while i < t.files.len()
        invariant
            i <= t.files@.len(),
            forall|j: int| 0 <= j < i ==> is_num(#[trigger] t.files@[j].id),
        decreases t.files@.len() - i,
    {
        if !num_ok(&t.files[i].id) {
            return false;
        }
        i = i + 1;
    }
    let mut i: usize = 0;
    while i < t.jobs.len()
        invariant
            i <= t.jobs@.len(),
            forall|j: int| 0 <= j < i ==> {
                &&& is_num(#[trigger] t.jobs@[j].time)
                &&& is_num(t.jobs@[j].reptime)
                &&& commit_type_from_name_spec(t.jobs@[j].committype@).is_some()
            },
        decreases t.jobs@.len() - i,
    {
        let r = &t.jobs[i];
        if !num_ok(&r.time) || !num_ok(&r.reptime) || commit_type_from_name(&r.committype).is_none() {
            return false;
        }
        i = i + 1;
    }
    let mut i: usize = 0;
    while i < t.namespaces.len()
        invariant
            i <= t.namespaces@.len(),
            forall|j: int| 0 <= j < i ==> is_num(#[trigger] t.namespaces@[j].id),
        decreases t.namespaces@.len() - i,
    {
        if !num_ok(&t.namespaces[i].id) {
            return false;
        }
        i = i + 1;
    }
    let mut i: usize = 0;
    while i < t.parents.len()
        invariant
            i <= t.parents@.len(),
            forall|j: int| 0 <= j < i ==> {
                &&& is_num(#[trigger] t.parents@[j].tag_namespace_id)
                &&& is_num(t.parents@[j].tag_id)
                &&& is_num(t.parents@[j].relate_namespace_id)
                &&& is_num(t.parents@[j].relate_tag_id)
            },
        decreases t.parents@.len() - i,
    {
        let r = &t.parents[i];
        if !num_ok(&r.tag_namespace_id) || !num_ok(&r.tag_id) || !num_ok(&r.relate_namespace_id) || !num_ok(&r.relate_tag_id) {
            return false;
        }
        i = i + 1;
    }
    let mut i: usize = 0;
    while i < t.relationships.len()
        invariant
            i <= t.relationships@.len(),
            forall|j: int| 0 <= j < i ==> is_num(#[trigger] t.relationships@[j].fileid) && is_num(t.relationships@[j].tagid),
        decreases t.relationships@.len() - i,
    {
        if !num_ok(&t.relationships[i].fileid) || !num_ok(&t.relationships[i].tagid) {
            return false;
        }
        i = i + 1;
    }
    let mut i: usize = 0;
    while i < t.tags.len()
        invariant
            i <= t.tags@.len(),
            forall|j: int| 0 <= j < i ==> is_num(#[trigger] t.tags@[j].id) && is_num(t.tags@[j].namespace),
        decreases t.tags@.len() - i,
    {
        if !num_ok(&t.tags[i].id) || !num_ok(&t.tags[i].namespace) {
            return false;
        }
        i = i + 1;
    }
    true
}

impl Main {
    /// Carries the rows of an older layout over into the current tables:
    /// the settings are queued (as upserts) and flushed, then the files,
    /// jobs, namespaces, parents, relationships and tags are queued as
    /// inserts, each table once per distinct row and in row order. Jobs
    /// get `current_time` as their time. The rows are then stored in
    /// memory too, as loading the tables stores them.
    pub fn load_mesm(&mut self, old_rows: &OldTables, current_time: usize)
        requires
            old(self).wf(),
            old_tables_valid(*old_rows),
        ensures
            final(self).wf(),
            final(self)@ == load_mesm_spec(old(self)@, *old_rows, current_time),
    {
        let settings = setting_ops(&old_rows.settings);
        self.queue_all(settings);
        self.transaction_flush();
        let mut rest = file_ops(&old_rows.files);
        let ghost a = views(rest@);
        let (mut jobs, job_objs) = job_ops(&old_rows.jobs, current_time);
        let ghost b = views(jobs@);
        rest.append(&mut jobs);
        let mut nss = namespace_ops(&old_rows.namespaces);
        let ghost c = views(nss@);
        rest.append(&mut nss);
        let mut ps = parent_ops(&old_rows.parents);
        let ghost d = views(ps@);
        rest.append(&mut ps);
        let mut rs = relationship_ops(&old_rows.relationships);
        let ghost e = views(rs@);
        rest.append(&mut rs);
        let mut ts = tag_ops(&old_rows.tags);
        let ghost f = views(ts@);
        rest.append(&mut ts);
        assert(views(rest@) =~= a + b + c + d + e + f);
        self.queue_all(rest);
        self.store_settings(&setting_objs(&old_rows.settings));
        self.load_files(&file_objs(&old_rows.files));
        self.load_jobs(&job_objs);
        self.load_namespace(&namespace_objs(&old_rows.namespaces));
        self.load_parents(&parent_objs(&old_rows.parents));
        self.load_relationships(&relationship_objs(&old_rows.relationships));
        self.load_tags(&tag_objs(&old_rows.tags));
    }
    /// Queues each statement in turn, counting each write.
    fn queue_all(&mut self, ops: Vec<SqlOp>)
        requires
            old(self).wf(),
        ensures
            final(self).wf(),
            final(self)@ == queue_counted(old(self)@, views(ops@)),
    {
        let ghost v0 = self@;
        let ghost all = ops@;
        let mut ops = ops;
        let n = ops.len();
        let mut k: usize = 0;
        while ops.len() > 0
            invariant
                self.wf(),
                k <= all.len(),
                all.len() == n,
                ops@ == all.subrange(k as int, all.len() as int),
                self@ == queue_counted(v0, views(all.take(k as int))),
            decreases ops@.len(),
        {
            let op = ops.remove(0);
            proof {
                assert(op == all[k as int]);
                assert(views(all.take(k + 1)).drop_last() =~= views(all.take(k as int)));
                assert(views(all.take(k + 1)).last() == op_view(op));
                assert(ops@ =~= all.subrange(k + 1, all.len() as int));
            }
            self.push_op(op);
            self.db_commit_man();
            k = k + 1;
        }
        proof {
            assert(all.take(all.len() as int) =~= all);
        }
    }
}

} // verus!
