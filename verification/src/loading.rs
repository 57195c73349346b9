//! Filling the in-memory tables from rows read out of the database file.

use vstd::prelude::*;
use crate::database::{
    DbView, Main, file_add_spec, file_id_for, ns_id_for, relationship_add_spec, parents_add_spec,
    setting_view, tag_add_spec, with_job, with_namespace,
};
use crate::sharedtypes::{DbFileObj, DbJobsObj, DbNamespaceObj, DbParentsObj, DbRelationshipObj, DbSettingObj, DbTagObjCompatability, LoadDBTable};

verus! {

/// The rows of each table, as read from the database file.
pub struct TableRows {
    pub files: Vec<DbFileObj>,
    pub jobs: Vec<DbJobsObj>,
    pub namespaces: Vec<DbNamespaceObj>,
    pub parents: Vec<DbParentsObj>,
    pub relationships: Vec<DbRelationshipObj>,
    pub settings: Vec<DbSettingObj>,
    pub tags: Vec<DbTagObjCompatability>,
}

/// One file row stored in memory: as adding a file without queueing it, and
/// skipped where its id would leave no room for the next.
pub open spec fn file_row_loaded(v: DbView, f: DbFileObj) -> DbView {
    let fits = match f.id {
        Some(i) => i < usize::MAX,
        None => v.file_next < usize::MAX,
    };
    if fits || file_id_for(v.files, f.hash@).is_some() {
        file_add_spec(v, f.id, f.hash, f.ext, f.location, false).1
    } else {
        v
    }
}

pub open spec fn files_loaded(v: DbView, rows: Seq<DbFileObj>) -> DbView
    decreases rows.len(),
{
    if rows.len() == 0 { v } else { file_row_loaded(files_loaded(v, rows.drop_last()), rows.last()) }
}

/// One job row stored in memory, while job ids remain.
pub open spec fn jobs_loaded(v: DbView, rows: Seq<DbJobsObj>) -> DbView
    decreases rows.len(),
{
    if rows.len() == 0 {
        v
    } else {
        let w = jobs_loaded(v, rows.drop_last());
        if w.job_next < usize::MAX { with_job(w, rows.last()) } else { w }
    }
}

/// Namespace rows stored under their own ids; a name already present, or
/// an id that leaves no room for the next, is skipped.
pub open spec fn namespaces_loaded(v: DbView, rows: Seq<DbNamespaceObj>) -> DbView
    decreases rows.len(),
{
    if rows.len() == 0 {
        v
    } else {
        let w = namespaces_loaded(v, rows.drop_last());
        let ns = rows.last();
        if ns_id_for(w.namespaces, ns.name@).is_none() && ns.id < usize::MAX { with_namespace(w, ns) } else { w }
    }
}

pub open spec fn parents_loaded(v: DbView, rows: Seq<DbParentsObj>) -> DbView
    decreases rows.len(),
{
    if rows.len() == 0 { v } else { parents_add_spec(parents_loaded(v, rows.drop_last()), rows.last(), false) }
}

pub open spec fn relationships_loaded(v: DbView, rows: Seq<DbRelationshipObj>) -> DbView
    decreases rows.len(),
{
    if rows.len() == 0 {
        v
    } else {
        relationship_add_spec(relationships_loaded(v, rows.drop_last()), rows.last().fileid, rows.last().tagid, false)
    }
}

pub open spec fn settings_loaded(v: DbView, rows: Seq<DbSettingObj>) -> DbView
    decreases rows.len(),
{
    if rows.len() == 0 {
        v
    } else {
        let w = settings_loaded(v, rows.drop_last());
        DbView { settings: w.settings.insert(rows.last().name@, setting_view(rows.last())), ..w }
    }
}

/// Tag rows added under their own ids, as adding a tag without queueing
/// it; an id that leaves no room for the next is skipped.
pub open spec fn tags_loaded(v: DbView, rows: Seq<DbTagObjCompatability>) -> DbView
    decreases rows.len(),
{
    if rows.len() == 0 {
        v
    } else {
        let w = tags_loaded(v, rows.drop_last());
        let t = rows.last();
        if t.id < usize::MAX { tag_add_spec(w, t.name, t.namespace, false, Some(t.id)).1 } else { w }
    }
}

/// The commit threshold a settings table sets, where it has one.
pub open spec fn commit_threshold(v: DbView) -> Option<usize> {
    if v.settings.dom().contains("DBCOMMITNUM"@) { v.settings["DBCOMMITNUM"@].num } else { None }
}

/// Loading one table other than `All`: nothing where it is loaded already;
/// otherwise its rows are stored and it is marked loaded. Settings then
/// set the commit threshold.
pub open spec fn load_simple(v: DbView, t: LoadDBTable, rows: TableRows) -> DbView {
    if v.loaded.contains(t) {
        v
    } else {
        let w = match t {
            LoadDBTable::Files => files_loaded(v, rows.files@),
            LoadDBTable::Jobs => jobs_loaded(v, rows.jobs@),
            LoadDBTable::Namespace => namespaces_loaded(v, rows.namespaces@),
            LoadDBTable::Parents => parents_loaded(v, rows.parents@),
            LoadDBTable::Relationship => relationships_loaded(v, rows.relationships@),
            LoadDBTable::Settings => {
                let s = settings_loaded(v, rows.settings@);
                DbView { commit_static: commit_threshold(s).unwrap() as nat, ..s }
            },
            LoadDBTable::Tags => tags_loaded(v, rows.tags@),
            LoadDBTable::All => v,
        };
        DbView { loaded: w.loaded.push(t), ..w }
    }
}

/// Loading each table in turn, as `All` does.
pub open spec fn load_each(v: DbView, rows: TableRows) -> DbView {
    let v1 = load_simple(v, LoadDBTable::Files, rows);
    let v2 = load_simple(v1, LoadDBTable::Jobs, rows);
    let v3 = load_simple(v2, LoadDBTable::Namespace, rows);
    let v4 = load_simple(v3, LoadDBTable::Parents, rows);
    let v5 = load_simple(v4, LoadDBTable::Relationship, rows);
    let v6 = load_simple(v5, LoadDBTable::Settings, rows);
    load_simple(v6, LoadDBTable::Tags, rows)
}

/// What loading a table leaves.
pub open spec fn load_table_spec(v: DbView, t: LoadDBTable, rows: TableRows) -> DbView {
    match t {
        LoadDBTable::All => if v.loaded.contains(t) {
            v
        } else {
            let w = load_each(v, rows);
            DbView { loaded: w.loaded.push(t), ..w }
        },
        _ => load_simple(v, t, rows),
    }
}

/// Whether loading settings, where it happens, finds a commit threshold.
pub open spec fn settings_give_threshold(v: DbView, t: LoadDBTable, rows: TableRows) -> bool {
    (t == LoadDBTable::Settings || (t == LoadDBTable::All && !v.loaded.contains(LoadDBTable::All)))
        && !v.loaded.contains(LoadDBTable::Settings)
        ==> commit_threshold(settings_loaded(v, rows.settings@)).is_some()
}

pub proof fn lemma_settings_loaded_keeps(v: DbView, rows: Seq<DbSettingObj>)
    ensures
        settings_loaded(v, rows).loaded == v.loaded,
        settings_loaded(v, rows) == (DbView { settings: settings_loaded(v, rows).settings, ..v }),
    decreases rows.len(),
{
    if rows.len() > 0 {
        lemma_settings_loaded_keeps(v, rows.drop_last());
    }
}

pub proof fn lemma_loaders_keep(v: DbView, rows: TableRows)
    ensures
        files_loaded(v, rows.files@).settings == v.settings && files_loaded(v, rows.files@).loaded == v.loaded,
        jobs_loaded(v, rows.jobs@).settings == v.settings && jobs_loaded(v, rows.jobs@).loaded == v.loaded,
        namespaces_loaded(v, rows.namespaces@).settings == v.settings && namespaces_loaded(v, rows.namespaces@).loaded == v.loaded,
        parents_loaded(v, rows.parents@).settings == v.settings && parents_loaded(v, rows.parents@).loaded == v.loaded,
        relationships_loaded(v, rows.relationships@).settings == v.settings && relationships_loaded(v, rows.relationships@).loaded == v.loaded,
{
    lemma_files_keep(v, rows.files@);
    lemma_jobs_keep(v, rows.jobs@);
    lemma_namespaces_keep(v, rows.namespaces@);
    lemma_parents_keep(v, rows.parents@);
    lemma_relationships_keep(v, rows.relationships@);
}

pub proof fn lemma_files_keep(v: DbView, rows: Seq<DbFileObj>)
    ensures
        files_loaded(v, rows).settings == v.settings,
        files_loaded(v, rows).loaded == v.loaded,
    decreases rows.len(),
{
    if rows.len() > 0 {
        lemma_files_keep(v, rows.drop_last());
    }
}

pub proof fn lemma_jobs_keep(v: DbView, rows: Seq<DbJobsObj>)
    ensures
        jobs_loaded(v, rows).settings == v.settings,
        jobs_loaded(v, rows).loaded == v.loaded,
    decreases rows.len(),
{
    if rows.len() > 0 {
        lemma_jobs_keep(v, rows.drop_last());
    }
}

pub proof fn lemma_namespaces_keep(v: DbView, rows: Seq<DbNamespaceObj>)
    ensures
        namespaces_loaded(v, rows).settings == v.settings,
        namespaces_loaded(v, rows).loaded == v.loaded,
    decreases rows.len(),
{
    if rows.len() > 0 {
        lemma_namespaces_keep(v, rows.drop_last());
    }
}

pub proof fn lemma_parents_keep(v: DbView, rows: Seq<DbParentsObj>)
    ensures
        parents_loaded(v, rows).settings == v.settings,
        parents_loaded(v, rows).loaded == v.loaded,
    decreases rows.len(),
{
    if rows.len() > 0 {
        lemma_parents_keep(v, rows.drop_last());
    }
}

pub proof fn lemma_relationships_keep(v: DbView, rows: Seq<DbRelationshipObj>)
    ensures
        relationships_loaded(v, rows).settings == v.settings,
        relationships_loaded(v, rows).loaded == v.loaded,
    decreases rows.len(),
{
    if rows.len() > 0 {
        lemma_relationships_keep(v, rows.drop_last());
    }
}

/// Loading a table other than settings keeps the settings, and marks no
/// other table loaded.
pub proof fn lemma_load_simple_keeps(v: DbView, t: LoadDBTable, rows: TableRows)
    requires
        t != LoadDBTable::Settings,
        t != LoadDBTable::All,
        t != LoadDBTable::Tags,
    ensures
        load_simple(v, t, rows).settings == v.settings,
        forall|x: LoadDBTable| x != t ==> (#[trigger] load_simple(v, t, rows).loaded.contains(x) == v.loaded.contains(x)),
{
    lemma_loaders_keep(v, rows);
    let w = load_simple(v, t, rows);
    assert forall|x: LoadDBTable| x != t implies (#[trigger] w.loaded.contains(x) == v.loaded.contains(x)) by {
        if !v.loaded.contains(t) {
            if w.loaded.contains(x) {
                let j = choose|j: int| 0 <= j < w.loaded.len() && w.loaded[j] == x;
                if j < v.loaded.len() {
                    assert(v.loaded[j] == x);
                }
            }
            if v.loaded.contains(x) {
                let j = choose|j: int| 0 <= j < v.loaded.len() && v.loaded[j] == x;
                assert(w.loaded[j] == x);
            }
        }
    }
}

/// States with the same settings load the same settings.
pub proof fn lemma_settings_loaded_same(a: DbView, b: DbView, rows: Seq<DbSettingObj>)
    requires
        a.settings == b.settings,
    ensures
        settings_loaded(a, rows).settings == settings_loaded(b, rows).settings,
    decreases rows.len(),
{
    if rows.len() > 0 {
        lemma_settings_loaded_same(a, b, rows.drop_last());
    }
}

/// Storing rows in memory queues nothing: each loader leaves the queued
/// statements as they were.
pub proof fn lemma_files_outbox(v: DbView, rows: Seq<DbFileObj>)
    ensures
        files_loaded(v, rows).outbox == v.outbox,
    decreases rows.len(),
{
    if rows.len() > 0 {
        lemma_files_outbox(v, rows.drop_last());
    }
}

pub proof fn lemma_jobs_outbox(v: DbView, rows: Seq<DbJobsObj>)
    ensures
        jobs_loaded(v, rows).outbox == v.outbox,
    decreases rows.len(),
{
    if rows.len() > 0 {
        lemma_jobs_outbox(v, rows.drop_last());
    }
}

pub proof fn lemma_namespaces_outbox(v: DbView, rows: Seq<DbNamespaceObj>)
    ensures
        namespaces_loaded(v, rows).outbox == v.outbox,
    decreases rows.len(),
{
    if rows.len() > 0 {
        lemma_namespaces_outbox(v, rows.drop_last());
    }
}

pub proof fn lemma_parents_outbox(v: DbView, rows: Seq<DbParentsObj>)
    ensures
        parents_loaded(v, rows).outbox == v.outbox,
    decreases rows.len(),
{
    if rows.len() > 0 {
        lemma_parents_outbox(v, rows.drop_last());
    }
}

pub proof fn lemma_relationships_outbox(v: DbView, rows: Seq<DbRelationshipObj>)
    ensures
        relationships_loaded(v, rows).outbox == v.outbox,
    decreases rows.len(),
{
    if rows.len() > 0 {
        lemma_relationships_outbox(v, rows.drop_last());
    }
}

pub proof fn lemma_settings_outbox(v: DbView, rows: Seq<DbSettingObj>)
    ensures
        settings_loaded(v, rows).outbox == v.outbox,
    decreases rows.len(),
{
    if rows.len() > 0 {
        lemma_settings_outbox(v, rows.drop_last());
    }
}

pub proof fn lemma_tags_outbox(v: DbView, rows: Seq<DbTagObjCompatability>)
    ensures
        tags_loaded(v, rows).outbox == v.outbox,
        tags_loaded(v, rows).relationships == v.relationships,
    decreases rows.len(),
{
    if rows.len() > 0 {
        lemma_tags_outbox(v, rows.drop_last());
    }
}

/// Loading relationship rows stores each of them, and keeps every
/// relationship there was.
pub proof fn lemma_relationships_loaded_has(v: DbView, rows: Seq<DbRelationshipObj>)
    ensures
        forall|i: int| 0 <= i < rows.len() ==> relationships_loaded(v, rows).relationships.contains(#[trigger] rows[i]),
        forall|r: DbRelationshipObj| #[trigger] v.relationships.contains(r) ==> relationships_loaded(v, rows).relationships.contains(r),
    decreases rows.len(),
{
    if rows.len() > 0 {
        lemma_relationships_loaded_has(v, rows.drop_last());
        assert forall|i: int| 0 <= i < rows.len() implies relationships_loaded(v, rows).relationships.contains(#[trigger] rows[i]) by {
            if i < rows.len() - 1 {
                assert(rows.drop_last()[i] == rows[i]);
            }
        }
    }
}

impl Main {
    pub(crate) fn load_files(&mut self, rows: &Vec<DbFileObj>)
        requires
            old(self).wf(),
        ensures
            final(self).wf(),
            final(self)@ == files_loaded(old(self)@, rows@),
    {
        let ghost v0 = self@;
        let mut i: usize = 0;
        while i < rows.len()
            invariant
                self.wf(),
                i <= rows@.len(),
                self@ == files_loaded(v0, rows@.take(i as int)),
            decreases rows@.len() - i,
        {
            let f = &rows[i];
            let fits = match f.id {
                Some(k) => k < usize::MAX,
                None => self.file_next_get() < usize::MAX,
            };
            if fits || self.file_get_hash(&f.hash).is_some() {
                let _ = self.file_add(f.id, &f.hash, &f.ext, &f.location, false);
            }
            proof {
                assert(rows@.take(i + 1).drop_last() =~= rows@.take(i as int));
            }
            i = i + 1;
        }
        proof {
            assert(rows@.take(rows@.len() as int) =~= rows@);
        }
    }

    pub(crate) fn load_jobs(&mut self, rows: &Vec<DbJobsObj>)
        requires
            old(self).wf(),
        ensures
            final(self).wf(),
            final(self)@ == jobs_loaded(old(self)@, rows@),
    {
        let ghost v0 = self@;
        let mut i: usize = 0;
        while i < rows.len()
            invariant
                self.wf(),
                i <= rows@.len(),
                self@ == jobs_loaded(v0, rows@.take(i as int)),
            decreases rows@.len() - i,
        {
            let j = rows[i].copied();
            if self.jobs_get_max() < usize::MAX {
                self.jobs_add_new_todb(j.site, j.param, j.reptime, j.time, j.committype, j.jobtype);
            }
            proof {
                assert(rows@.take(i + 1).drop_last() =~= rows@.take(i as int));
            }
            i = i + 1;
        }
        proof {
            assert(rows@.take(rows@.len() as int) =~= rows@);
        }
    }

    pub(crate) fn load_namespace(&mut self, rows: &Vec<DbNamespaceObj>)
        requires
            old(self).wf(),
        ensures
            final(self).wf(),
            final(self)@ == namespaces_loaded(old(self)@, rows@),
    {
        let ghost v0 = self@;
        let mut i: usize = 0;
        while i < rows.len()
            invariant
                self.wf(),
                i <= rows@.len(),
                self@ == namespaces_loaded(v0, rows@.take(i as int)),
            decreases rows@.len() - i,
        {
            let ns = rows[i].copied();
            if ns.id < usize::MAX {
                self.namespace_add_db(ns);
            }
            proof {
                assert(rows@.take(i + 1).drop_last() =~= rows@.take(i as int));
            }
            i = i + 1;
        }
        proof {
            assert(rows@.take(rows@.len() as int) =~= rows@);
        }
    }

    pub(crate) fn load_parents(&mut self, rows: &Vec<DbParentsObj>)
        requires
            old(self).wf(),
        ensures
            final(self).wf(),
            final(self)@ == parents_loaded(old(self)@, rows@),
    {
        let ghost v0 = self@;
        let mut i: usize = 0;
        while i < rows.len()
            invariant
                self.wf(),
                i <= rows@.len(),
                self@ == parents_loaded(v0, rows@.take(i as int)),
            decreases rows@.len() - i,
        {
            let p = rows[i];
            self.parents_add(p.tag_namespace_id, p.tag_id, p.relate_namespace_id, p.relate_tag_id, false);
            proof {
                assert(rows@.take(i + 1).drop_last() =~= rows@.take(i as int));
            }
            i = i + 1;
        }
        proof {
            assert(rows@.take(rows@.len() as int) =~= rows@);
        }
    }

    pub(crate) fn load_relationships(&mut self, rows: &Vec<DbRelationshipObj>)
        requires
            old(self).wf(),
        ensures
            final(self).wf(),
            final(self)@ == relationships_loaded(old(self)@, rows@),
    {
        let ghost v0 = self@;
        let mut i: usize = 0;
        while i < rows.len()
            invariant
                self.wf(),
                i <= rows@.len(),
                self@ == relationships_loaded(v0, rows@.take(i as int)),
            decreases rows@.len() - i,
        {
            let r = rows[i];
            self.relationship_add(r.fileid, r.tagid, false);
            proof {
                assert(rows@.take(i + 1).drop_last() =~= rows@.take(i as int));
            }
            i = i + 1;
        }
        proof {
            assert(rows@.take(rows@.len() as int) =~= rows@);
        }
    }

    fn load_settings(&mut self, rows: &Vec<DbSettingObj>)
        requires
            old(self).wf(),
            commit_threshold(settings_loaded(old(self)@, rows@)).is_some(),
        ensures
            final(self).wf(),
            final(self)@ == ({
                let s = settings_loaded(old(self)@, rows@);
                DbView { commit_static: commit_threshold(s).unwrap() as nat, ..s }
            }),
    {
        self.store_settings(rows);
        self.db_commit_man_set();
    }

    /// Stores each setting row in memory, a later row of a name replacing
    /// an earlier one.
    pub(crate) fn store_settings(&mut self, rows: &Vec<DbSettingObj>)
        requires
            old(self).wf(),
        ensures
            final(self).wf(),
            final(self)@ == settings_loaded(old(self)@, rows@),
    {
        let ghost v0 = self@;
        let mut i: usize = 0;
        while i < rows.len()
            invariant
                self.wf(),
                i <= rows@.len(),
                self@ == settings_loaded(v0, rows@.take(i as int)),
            decreases rows@.len() - i,
        {
            let st = rows[i].copied();
            self.setting_add_db(st);
            proof {
                assert(rows@.take(i + 1).drop_last() =~= rows@.take(i as int));
            }
            i = i + 1;
        }
        proof {
            assert(rows@.take(rows@.len() as int) =~= rows@);
        }
    }

    pub(crate) fn load_tags(&mut self, rows: &Vec<DbTagObjCompatability>)
        requires
            old(self).wf(),
        ensures
            final(self).wf(),
            final(self)@ == tags_loaded(old(self)@, rows@),
    {
        let ghost v0 = self@;
        let mut i: usize = 0;
        while i < rows.len()
            invariant
                self.wf(),
                i <= rows@.len(),
                self@ == tags_loaded(v0, rows@.take(i as int)),
            decreases rows@.len() - i,
        {
            let t = &rows[i];
            if t.id < usize::MAX {
                let _ = self.tag_add(t.name.clone(), t.namespace, false, Some(t.id));
            }
            proof {
                assert(rows@.take(i + 1).drop_last() =~= rows@.take(i as int));
            }
            i = i + 1;
        }
        proof {
            assert(rows@.take(rows@.len() as int) =~= rows@);
        }
    }

    fn load_one(&mut self, table: LoadDBTable, rows: &TableRows)
        requires
            old(self).wf(),
            table != LoadDBTable::All,
            table == LoadDBTable::Settings && !old(self)@.loaded.contains(table)
                ==> commit_threshold(settings_loaded(old(self)@, rows.settings@)).is_some(),
        ensures
            final(self).wf(),
            final(self)@ == load_simple(old(self)@, table, *rows),
    {
        if self.table_loaded(&table) {
            return;
        }
        match table {
            LoadDBTable::Files => self.load_files(&rows.files),
            LoadDBTable::Jobs => self.load_jobs(&rows.jobs),
            LoadDBTable::Namespace => self.load_namespace(&rows.namespaces),
            LoadDBTable::Parents => self.load_parents(&rows.parents),
            LoadDBTable::Relationship => self.load_relationships(&rows.relationships),
            LoadDBTable::Settings => self.load_settings(&rows.settings),
            LoadDBTable::Tags => self.load_tags(&rows.tags),
            LoadDBTable::All => {},
        }
        self.mark_loaded(table);
    }

    /// Loads a table from its rows unless it is loaded already, then marks
    /// it loaded; `All` loads every table in turn. Loading settings sets the
    /// commit threshold from the `DBCOMMITNUM` setting, which must be there.
    pub fn load_table(&mut self, table: &LoadDBTable, rows: &TableRows)
        requires
            old(self).wf(),
            settings_give_threshold(old(self)@, *table, *rows),
        ensures
            final(self).wf(),
            final(self)@ == load_table_spec(old(self)@, *table, *rows),
    {
        match table {
            LoadDBTable::All => {
                if self.table_loaded(table) {
                    return;
                }
                let ghost v0 = self@;
                self.load_one(LoadDBTable::Files, rows);
                self.load_one(LoadDBTable::Jobs, rows);
                self.load_one(LoadDBTable::Namespace, rows);
                self.load_one(LoadDBTable::Parents, rows);
                self.load_one(LoadDBTable::Relationship, rows);
                proof {
                    lemma_load_simple_keeps(v0, LoadDBTable::Files, *rows);
                    let v1 = load_simple(v0, LoadDBTable::Files, *rows);
                    lemma_load_simple_keeps(v1, LoadDBTable::Jobs, *rows);
                    let v2 = load_simple(v1, LoadDBTable::Jobs, *rows);
                    lemma_load_simple_keeps(v2, LoadDBTable::Namespace, *rows);
                    let v3 = load_simple(v2, LoadDBTable::Namespace, *rows);
                    lemma_load_simple_keeps(v3, LoadDBTable::Parents, *rows);
                    let v4 = load_simple(v3, LoadDBTable::Parents, *rows);
                    lemma_load_simple_keeps(v4, LoadDBTable::Relationship, *rows);
                    lemma_settings_loaded_same(v0, self@, rows.settings@);
                }
                self.load_one(LoadDBTable::Settings, rows);
                self.load_one(LoadDBTable::Tags, rows);
                self.mark_loaded(LoadDBTable::All);
            },
            _ => self.load_one(*table, rows),
        }
    }
}

} // verus!
