//! What holds of the database across calls: adding twice is adding once, a
//! removal leaves nothing of what it removed, loading is done once.

use vstd::prelude::*;
use crate::database::{
    commit_step, delete_tag_relationship_spec, file_add_fits, file_add_spec, files_of_tag,
    lemma_commit_step_wf, with_tag, with_file, file_id_for, lemma_with_file_wf, lemma_with_namespace_wf, lemma_with_tag_wf, opt_view, with_op, OpView, namespace_add_spec, ns_id_for,
    parent_involves, relationship_add_spec, setting_add_spec, setting_view, tag_add_fits,
    tag_add_spec, tag_id_for, tag_remove_spec, view_wf, DbView,
    condense_orders_ok, condense_spec, condense_tag, condense_upto, rels_add_all, tag_is,
    lemma_rels_add_all_tables, namespace_delete_ok, namespace_delete_spec, namespace_removed,
    remove_tags_all, tags_of_namespace, flushed, drop_recreate_ok, drop_recreate_spec, drop_tag_tables_ops,
    first_db_ops, recreate_all, rel_sql_all, vacuumed, with_ops,
};
use crate::loading::{load_simple, load_table_spec, TableRows};
use crate::sharedtypes::{DbFileObj, DbNamespaceObj, DbParentsObj, DbRelationshipObj, DbSettingObj, DbTagNNS, LoadDBTable};

verus! {

/// After a tag is added, looking it up by name and namespace gives the id
/// the addition returned.
pub proof fn law_tag_add_reads_back(v: DbView, name: String, ns: usize, addtodb: bool, id: Option<usize>)
    requires
        view_wf(v),
        tag_add_fits(v, name@, ns, id),
    ensures
        tag_id_for(tag_add_spec(v, name, ns, addtodb, id).1.tags, name@, ns) == Some(tag_add_spec(v, name, ns, addtodb, id).0),
{
    if tag_id_for(v.tags, name@, ns).is_none() {
        let nid = match id { Some(i) => i, None => v.tag_next as usize };
        lemma_with_tag_wf(v, nid, DbTagNNS { name: name, namespace: ns });
    }
}

/// After a namespace is added, looking it up by name gives the id the
/// addition returned.
pub proof fn law_namespace_add_reads_back(v: DbView, name: String, d: Option<String>, addtodb: bool)
    requires
        view_wf(v),
        ns_id_for(v.namespaces, name@).is_none() ==> v.ns_next < usize::MAX,
    ensures
        ns_id_for(namespace_add_spec(v, name, d, addtodb).1.namespaces, name@) == Some(namespace_add_spec(v, name, d, addtodb).0),
{
    if ns_id_for(v.namespaces, name@).is_none() {
        let nid = v.ns_next as usize;
        let ns = DbNamespaceObj { id: nid, name: name, description: d };
        let op = OpView::InsertNamespace { id: nid, name: name@, description: opt_view(d) };
        let pre = if addtodb { commit_step(with_op(v, op)) } else { v };
        lemma_commit_step_wf(with_op(v, op));
        lemma_with_namespace_wf(pre, ns);
    }
}

/// Adding a tag that is there already gives back the id the first call gave
/// and leaves the tags as the first call left them; without a requested id
/// the second call changes nothing at all (no row is queued).
pub proof fn law_tag_add_twice(v: DbView, name: String, ns: usize, a1: bool, id1: Option<usize>, a2: bool, id2: Option<usize>)
    requires
        view_wf(v),
        tag_add_fits(v, name@, ns, id1),
    ensures
        tag_add_spec(tag_add_spec(v, name, ns, a1, id1).1, name, ns, a2, id2).0 == tag_add_spec(v, name, ns, a1, id1).0,
        tag_add_spec(tag_add_spec(v, name, ns, a1, id1).1, name, ns, a2, id2).1.tags == tag_add_spec(v, name, ns, a1, id1).1.tags,
        id2 is None ==> tag_add_spec(tag_add_spec(v, name, ns, a1, id1).1, name, ns, a2, id2).1 == tag_add_spec(v, name, ns, a1, id1).1,
{
    law_tag_add_reads_back(v, name, ns, a1, id1);
}

/// Adding a namespace whose name is there already gives back the id the
/// first call gave and changes nothing.
pub proof fn law_namespace_add_twice(v: DbView, name: String, d1: Option<String>, a1: bool, d2: Option<String>, a2: bool)
    requires
        view_wf(v),
        ns_id_for(v.namespaces, name@).is_none() ==> v.ns_next < usize::MAX,
    ensures
        namespace_add_spec(namespace_add_spec(v, name, d1, a1).1, name, d2, a2)
            == (namespace_add_spec(v, name, d1, a1).0, namespace_add_spec(v, name, d1, a1).1),
{
    law_namespace_add_reads_back(v, name, d1, a1);
}

/// Adding a file whose hash is there already gives back the id the first
/// call gave and changes nothing.
pub proof fn law_file_add_twice(v: DbView, id1: Option<usize>, hash: String, e1: String, l1: String, a1: bool, id2: Option<usize>, e2: String, l2: String, a2: bool)
    requires
        view_wf(v),
        file_add_fits(v, id1, hash@),
    ensures
        file_add_spec(file_add_spec(v, id1, hash, e1, l1, a1).1, id2, hash, e2, l2, a2)
            == (file_add_spec(v, id1, hash, e1, l1, a1).0, file_add_spec(v, id1, hash, e1, l1, a1).1),
{
    let (r1, v1) = file_add_spec(v, id1, hash, e1, l1, a1);
    if crate::database::file_id_for(v.files, hash@).is_none() {
        let nid = match id1 { Some(i) => i, None => v.file_next as usize };
        lemma_with_file_wf(v, nid, DbFileObj { id: Some(nid), hash: hash, ext: e1, location: l1 });
    }
    assert(crate::database::file_id_for(v1.files, hash@) == Some(r1));
}

/// Adding a relationship twice is adding it once.
pub proof fn law_relationship_add_twice(v: DbView, file: usize, tag: usize, a1: bool, a2: bool)
    ensures
        relationship_add_spec(relationship_add_spec(v, file, tag, a1), file, tag, a2) == relationship_add_spec(v, file, tag, a1),
        relationship_add_spec(v, file, tag, a1).relationships.contains(DbRelationshipObj { fileid: file, tagid: tag }),
{
}

/// A setting reads back as it was stored, whatever was stored under its
/// name before.
pub proof fn law_setting_read_after_write(v: DbView, s: DbSettingObj, addtodb: bool)
    ensures
        setting_add_spec(v, s, addtodb).settings.dom().contains(s.name@),
        setting_add_spec(v, s, addtodb).settings[s.name@] == setting_view(s),
{
}

/// Once a tag is removed it is gone, with every parent relation that
/// involved it; the other tags stay.
pub proof fn law_tag_remove_gone(v: DbView, id: usize, ps: Seq<DbParentsObj>)
    ensures
        !tag_remove_spec(v, id, ps).tags.dom().contains(id),
        forall|p: DbParentsObj| #[trigger] tag_remove_spec(v, id, ps).parents.contains(p) ==> !parent_involves(p, id),
        forall|t: usize| t != id && #[trigger] v.tags.dom().contains(t) ==> tag_remove_spec(v, id, ps).tags.dom().contains(t)
            && tag_remove_spec(v, id, ps).tags[t] == v.tags[t],
{
}

/// Removing a tag that was just added as new gives the tags back as they
/// were before the addition.
pub proof fn law_tag_add_then_remove(v: DbView, name: String, ns: usize, addtodb: bool, ps: Seq<DbParentsObj>)
    requires
        view_wf(v),
        tag_id_for(v.tags, name@, ns).is_none(),
    ensures
        tag_remove_spec(tag_add_spec(v, name, ns, addtodb, None).1, tag_add_spec(v, name, ns, addtodb, None).0, ps).tags == v.tags,
{
    let (r, w) = tag_add_spec(v, name, ns, addtodb, None);
    assert(!v.tags.dom().contains(r));
    assert(w.tags == v.tags.insert(r, DbTagNNS { name: name, namespace: ns }));
    assert(w.tags.remove(r) =~= v.tags);
}

/// Once a tag is removed with its relationships, the tag is gone, no file
/// carries it, and every other tag and relationship stays.
pub proof fn law_tag_relationships_gone(v: DbView, tag: usize, fs: Seq<usize>, ps: Seq<DbParentsObj>)
    ensures
        !tag_remove_spec(delete_tag_relationship_spec(v, tag, fs), tag, ps).tags.dom().contains(tag),
        files_of_tag(tag_remove_spec(delete_tag_relationship_spec(v, tag, fs), tag, ps), tag) == Set::<usize>::empty(),
        forall|r: DbRelationshipObj| r.tagid != tag ==> (#[trigger] tag_remove_spec(delete_tag_relationship_spec(v, tag, fs), tag, ps).relationships.contains(r)
            <==> v.relationships.contains(r)),
        forall|t: usize| t != tag ==> (#[trigger] tag_remove_spec(delete_tag_relationship_spec(v, tag, fs), tag, ps).tags.dom().contains(t)
            <==> v.tags.dom().contains(t)),
{
    assert(files_of_tag(tag_remove_spec(delete_tag_relationship_spec(v, tag, fs), tag, ps), tag) =~= Set::<usize>::empty());
}

/// The count of statements waiting for a flush stays below the threshold.
pub proof fn law_commit_below_threshold(v: DbView)
    requires
        v.commit_num < v.commit_static,
    ensures
        commit_step(v).commit_num < commit_step(v).commit_static,
{
}

/// A table is loaded at most once: loading it again changes nothing, and
/// after a load it counts as loaded.
pub proof fn law_load_table_once(v: DbView, t: LoadDBTable, r1: TableRows, r2: TableRows)
    ensures
        load_table_spec(v, t, r1).loaded.contains(t),
        load_table_spec(load_table_spec(v, t, r1), t, r2) == load_table_spec(v, t, r1),
{
    let w = load_table_spec(v, t, r1);
    if !v.loaded.contains(t) {
        if t == LoadDBTable::All {
            let e = crate::loading::load_each(v, r1);
            assert(e.loaded.push(t)[e.loaded.len() as int] == t);
        } else {
            let s = load_simple(v, t, r1);
            assert(w == s);
            assert(s.loaded[s.loaded.len() - 1] == t);
        }
    }
    assert(w.loaded.contains(t));
}

/// Loading every table at once has the effect of loading files, jobs,
/// namespaces, parents, relationships, settings and tags in turn; `All` is
/// then counted as loaded too.
pub proof fn law_load_all_is_each(v: DbView, rows: TableRows)
    requires
        !v.loaded.contains(LoadDBTable::All),
    ensures
        ({
            let v1 = load_table_spec(v, LoadDBTable::Files, rows);
            let v2 = load_table_spec(v1, LoadDBTable::Jobs, rows);
            let v3 = load_table_spec(v2, LoadDBTable::Namespace, rows);
            let v4 = load_table_spec(v3, LoadDBTable::Parents, rows);
            let v5 = load_table_spec(v4, LoadDBTable::Relationship, rows);
            let v6 = load_table_spec(v5, LoadDBTable::Settings, rows);
            let v7 = load_table_spec(v6, LoadDBTable::Tags, rows);
            load_table_spec(v, LoadDBTable::All, rows) == DbView { loaded: v7.loaded.push(LoadDBTable::All), ..v7 }
        }),
{
}

/// How many tag ids below `n` are in use: the id a tag gets when the tags
/// are numbered without gaps.
pub open spec fn tags_below(tags: Map<usize, DbTagNNS>, n: nat) -> nat
    decreases n,
{
    if n == 0 {
        0
    } else {
        tags_below(tags, (n - 1) as nat) + if tags.dom().contains((n - 1) as usize) { 1nat } else { 0nat }
    }
}

/// Whether a parent relation involves a tag whose id is below `n`.
pub open spec fn involved_below(tags: Map<usize, DbTagNNS>, p: DbParentsObj, n: nat) -> bool {
    ||| (p.tag_id < n && tags.dom().contains(p.tag_id))
    ||| (p.relate_tag_id < n && tags.dom().contains(p.relate_tag_id))
}

/// Whether every relationship names a tag that exists.
pub open spec fn rels_refer_to_tags(v: DbView) -> bool {
    forall|r: DbRelationshipObj| #[trigger] v.relationships.contains(r) ==> v.tags.dom().contains(r.tagid)
}

pub proof fn lemma_tags_below_bound(tags: Map<usize, DbTagNNS>, n: nat)
    ensures
        tags_below(tags, n) <= n,
    decreases n,
{
    if n > 0 {
        lemma_tags_below_bound(tags, (n - 1) as nat);
    }
}

pub proof fn lemma_tags_below_mono(tags: Map<usize, DbTagNNS>, a: nat, b: nat)
    requires
        a <= b,
    ensures
        tags_below(tags, a) <= tags_below(tags, b),
    decreases b,
{
    if a < b {
        lemma_tags_below_mono(tags, a, (b - 1) as nat);
    }
}

pub proof fn lemma_tags_below_strict(tags: Map<usize, DbTagNNS>, t: usize, n: nat)
    requires
        t < n,
        tags.dom().contains(t),
    ensures
        tags_below(tags, t as nat) < tags_below(tags, n),
{
    assert(tags_below(tags, (t + 1) as nat) == tags_below(tags, t as nat) + 1);
    lemma_tags_below_mono(tags, (t + 1) as nat, n);
}

/// Relating files to a tag one after another adds exactly those relationships.
pub proof fn lemma_rels_add_all_contains(v: DbView, fs: Seq<usize>, tag: usize)
    ensures
        forall|r: DbRelationshipObj| #[trigger] rels_add_all(v, fs, tag).relationships.contains(r)
            <==> (v.relationships.contains(r) || (r.tagid == tag && fs.contains(r.fileid))),
    decreases fs.len(),
{
    if fs.len() > 0 {
        lemma_rels_add_all_contains(v, fs.drop_last(), tag);
        let prev = rels_add_all(v, fs.drop_last(), tag);
        let rel = DbRelationshipObj { fileid: fs.last(), tagid: tag };
        assert(rels_add_all(v, fs, tag) == relationship_add_spec(prev, fs.last(), tag, true));
        assert forall|r: DbRelationshipObj| #[trigger] relationship_add_spec(prev, fs.last(), tag, true).relationships.contains(r)
            <==> (prev.relationships.contains(r) || r == rel) by {
        }
        assert forall|x: usize| fs.contains(x) <==> (fs.drop_last().contains(x) || fs.last() == x) by {
            if fs.contains(x) {
                let j = choose|j: int| 0 <= j < fs.len() && fs[j] == x;
                if j < fs.len() - 1 {
                    assert(fs.drop_last()[j] == x);
                }
            }
            if fs.drop_last().contains(x) {
                let j = choose|j: int| 0 <= j < fs.drop_last().len() && fs.drop_last()[j] == x;
                assert(fs[j] == x);
            }
            if fs.last() == x {
                assert(fs[fs.len() - 1] == x);
            }
        }
    }
}

pub proof fn lemma_orders_ok_prefix(v: DbView, n: nat, m: nat, orders: Seq<(Seq<usize>, Seq<DbParentsObj>)>)
    requires
        m <= n,
        condense_orders_ok(v, n, orders),
    ensures
        condense_orders_ok(v, m, orders),
    decreases n,
{
    if m < n {
        lemma_orders_ok_prefix(v, (n - 1) as nat, m, orders);
    }
}

/// Where every relationship names an existing tag: how the relationships
/// stand once the tag ids below `n` have been condensed.
pub open spec fn condense_rels_inv(v: DbView, n: nat, w: DbView, last: nat) -> bool {
    &&& forall|f: usize, t: usize|
        #![trigger v.relationships.contains(DbRelationshipObj { fileid: f, tagid: t })]
        t < n && v.tags.dom().contains(t)
        ==> (w.relationships.contains(DbRelationshipObj { fileid: f, tagid: tags_below(v.tags, t as nat) as usize })
            <==> v.relationships.contains(DbRelationshipObj { fileid: f, tagid: t }))
    &&& forall|r: DbRelationshipObj| n <= r.tagid ==> (#[trigger] w.relationships.contains(r) <==> v.relationships.contains(r))
    &&& forall|r: DbRelationshipObj| #[trigger] w.relationships.contains(r) ==> r.tagid < last || n <= r.tagid
}

/// What holds once the tag ids below `n` of `v` have been condensed into
/// `w`, the next free id being `last`.
pub open spec fn condense_inv(v: DbView, n: nat, w: DbView, last: nat) -> bool {
    &&& last == tags_below(v.tags, n)
    &&& forall|i: usize| #[trigger] w.tags.dom().contains(i) <==> (i < last || (n <= i && v.tags.dom().contains(i)))
    &&& forall|t: usize| t < n && #[trigger] v.tags.dom().contains(t)
        ==> w.tags[tags_below(v.tags, t as nat) as usize] == v.tags[t]
    &&& forall|i: usize| n <= i && #[trigger] w.tags.dom().contains(i) ==> w.tags[i] == v.tags[i]
    &&& forall|i: usize, t: usize|
        #![trigger w.tags[i], v.tags[t]]
        i < last && n <= t && v.tags.dom().contains(t) && w.tags.dom().contains(i)
        ==> !tag_is(w.tags[i], v.tags[t].name@, v.tags[t].namespace)
    &&& rels_refer_to_tags(v) ==> condense_rels_inv(v, n, w, last)
    &&& forall|p: DbParentsObj| #[trigger] w.parents.contains(p) <==> (v.parents.contains(p) && !involved_below(v.tags, p, n))
    &&& w.files == v.files
    &&& w.namespaces == v.namespaces
    &&& w.settings == v.settings
    &&& w.jobs == v.jobs
}

pub proof fn lemma_condense_step(v: DbView, n: nat, w: DbView, last: nat, fs: Seq<usize>, ps: Seq<DbParentsObj>)
    requires
        view_wf(v),
        n < v.tag_next,
        v.tags.dom().contains(n as usize),
        condense_inv(v, n, w, last),
        fs.to_set() == files_of_tag(w, n as usize),
    ensures
        condense_inv(v, n + 1, condense_tag(w, n as usize, last as usize, fs, ps), last + 1),
{
    let tid = n as usize;
    lemma_tags_below_bound(v.tags, n);
    let t = w.tags[tid];
    assert(w.tags.dom().contains(tid));
    assert(t == v.tags[tid]);
    let v1 = crate::database::flushed(w);
    let v2 = if fs.len() == 0 { v1 } else { crate::database::flushed(delete_tag_relationship_spec(v1, tid, fs)) };
    let v3 = tag_remove_spec(v2, tid, ps);
    assert forall|id: usize| v3.tags.dom().contains(id) implies !tag_is(#[trigger] v3.tags[id], t.name@, t.namespace) by {
        if id >= n {
            assert(v.tags[id] == w.tags[id]);
            assert(!tag_is(v.tags[id], v.tags[tid].name@, v.tags[tid].namespace));
        } else {
            assert(w.tags[id] == v3.tags[id]);
            assert(!tag_is(w.tags[id], v.tags[tid].name@, v.tags[tid].namespace));
        }
    }
    assert(tag_id_for(v3.tags, t.name@, t.namespace).is_none());
    let v4 = tag_add_spec(v3, t.name, t.namespace, true, Some(last as usize)).1;
    assert(v4.tags == v3.tags.insert(last as usize, t));
    assert(v4.relationships == v3.relationships);
    assert(v4.parents == v3.parents);
    let w2 = rels_add_all(v4, fs, last as usize);
    assert(w2 == condense_tag(w, tid, last as usize, fs, ps));
    lemma_rels_add_all_tables(v4, fs, last as usize);
    lemma_rels_add_all_contains(v4, fs, last as usize);
    assert(tags_below(v.tags, n + 1) == last + 1);
    // the tags
    assert forall|tt: usize| tt < n + 1 && #[trigger] v.tags.dom().contains(tt)
        implies w2.tags[tags_below(v.tags, tt as nat) as usize] == v.tags[tt] by {
        if tt < n {
            lemma_tags_below_strict(v.tags, tt, n);
        }
    }
    assert forall|i: usize, tt: usize|
        #![trigger w2.tags[i], v.tags[tt]]
        i < last + 1 && n + 1 <= tt && v.tags.dom().contains(tt) && w2.tags.dom().contains(i)
        implies !tag_is(w2.tags[i], v.tags[tt].name@, v.tags[tt].namespace) by {
        if i == last {
            assert(!tag_is(v.tags[tid], v.tags[tt].name@, v.tags[tt].namespace));
        } else {
            assert(w.tags[i] == w2.tags[i]);
        }
    }
    // the relationships, where each names an existing tag
    if rels_refer_to_tags(v) {
        assert forall|r: DbRelationshipObj| #[trigger] v3.relationships.contains(r) <==> (w.relationships.contains(r) && r.tagid != tid) by {
            if fs.len() == 0 {
                if w.relationships.contains(r) && r.tagid == tid {
                    assert(files_of_tag(w, tid).contains(r.fileid));
                    assert(fs.to_set().contains(r.fileid));
                }
            }
        }
        assert forall|f: usize| fs.contains(f) <==> v.relationships.contains(DbRelationshipObj { fileid: f, tagid: tid }) by {
            assert(fs.to_set().contains(f) == fs.contains(f));
            assert(files_of_tag(w, tid).contains(f) == w.relationships.contains(DbRelationshipObj { fileid: f, tagid: tid }));
        }
        assert forall|f: usize, tt: usize|
            #![trigger v.relationships.contains(DbRelationshipObj { fileid: f, tagid: tt })]
            tt < n + 1 && v.tags.dom().contains(tt)
            implies (w2.relationships.contains(DbRelationshipObj { fileid: f, tagid: tags_below(v.tags, tt as nat) as usize })
                <==> v.relationships.contains(DbRelationshipObj { fileid: f, tagid: tt })) by {
            let rr = DbRelationshipObj { fileid: f, tagid: tags_below(v.tags, tt as nat) as usize };
            if tt < n {
                lemma_tags_below_strict(v.tags, tt, n);
                assert(w2.relationships.contains(rr) == w.relationships.contains(rr));
            } else {
                assert(tt == tid);
                if last < n {
                    if w.relationships.contains(rr) {
                        assert(false);
                    }
                }
            }
        }
        assert forall|r: DbRelationshipObj| n + 1 <= r.tagid implies (#[trigger] w2.relationships.contains(r) <==> v.relationships.contains(r)) by {
            assert(w2.relationships.contains(r) == w.relationships.contains(r));
        }
        assert forall|r: DbRelationshipObj| #[trigger] w2.relationships.contains(r) implies r.tagid < last + 1 || n + 1 <= r.tagid by {
            if w.relationships.contains(r) && r.tagid != tid {
            }
        }
        assert(condense_rels_inv(v, n + 1, w2, last + 1));
    }
    assert forall|p: DbParentsObj| #[trigger] w2.parents.contains(p) <==> (v.parents.contains(p) && !involved_below(v.tags, p, n + 1)) by {
        assert(w2.parents.contains(p) == (w.parents.contains(p) && !crate::database::parent_involves(p, tid)));
    }
}

pub proof fn lemma_condense_inv(v: DbView, n: nat, orders: Seq<(Seq<usize>, Seq<DbParentsObj>)>)
    requires
        view_wf(v),
        n <= v.tag_next,
        condense_orders_ok(v, n, orders),
    ensures
        condense_inv(v, n, condense_upto(v, n, orders).0, condense_upto(v, n, orders).1),
    decreases n,
{
    if n == 0 {
        assert(condense_upto(v, 0, orders) == (v, 0nat));
    } else {
        let m = (n - 1) as nat;
        lemma_orders_ok_prefix(v, n, m, orders);
        lemma_condense_inv(v, m, orders);
        let (w, last) = condense_upto(v, m, orders);
        let tid = m as usize;
        if v.tags.dom().contains(tid) {
            lemma_condense_step(v, m, w, last, orders[m as int].0, orders[m as int].1);
        } else {
            if rels_refer_to_tags(v) {
                assert forall|r: DbRelationshipObj| #[trigger] w.relationships.contains(r) implies r.tagid < last || n <= r.tagid by {
                    if r.tagid == tid {
                        assert(v.relationships.contains(r));
                    }
                }
                assert(condense_rels_inv(v, n, w, last));
            }
            assert forall|p: DbParentsObj| #[trigger] w.parents.contains(p) <==> (v.parents.contains(p) && !involved_below(v.tags, p, n)) by {
            }
        }
    }
}

/// Condensing numbers the tags 0, 1, 2, ... in the order of their old ids,
/// with no gap: each tag keeps its name and namespace under its new id, the
/// next id is the number of tags, and files, namespaces, settings and jobs
/// stay as they were. Every parent relation that involves a tag is dropped
/// on the way. Where every relationship names an existing tag, each
/// relationship follows its tag to the new id.
pub proof fn law_condense_dense(v: DbView, orders: Seq<(Seq<usize>, Seq<DbParentsObj>)>)
    requires
        view_wf(v),
        condense_orders_ok(v, v.tag_next, orders),
    ensures
        condense_spec(v, orders).tag_next == tags_below(v.tags, v.tag_next),
        forall|i: usize| #[trigger] condense_spec(v, orders).tags.dom().contains(i) <==> i < tags_below(v.tags, v.tag_next),
        forall|t: usize| #[trigger] v.tags.dom().contains(t) ==> tags_below(v.tags, t as nat) < tags_below(v.tags, v.tag_next)
            && condense_spec(v, orders).tags[tags_below(v.tags, t as nat) as usize] == v.tags[t],
        rels_refer_to_tags(v) ==> forall|f: usize, t: usize|
            #![trigger v.relationships.contains(DbRelationshipObj { fileid: f, tagid: t })]
            v.tags.dom().contains(t) ==> (condense_spec(v, orders).relationships.contains(
                DbRelationshipObj { fileid: f, tagid: tags_below(v.tags, t as nat) as usize })
                <==> v.relationships.contains(DbRelationshipObj { fileid: f, tagid: t })),
        rels_refer_to_tags(v) ==> forall|r: DbRelationshipObj| #[trigger] condense_spec(v, orders).relationships.contains(r)
            ==> r.tagid < tags_below(v.tags, v.tag_next),
        forall|p: DbParentsObj| #[trigger] condense_spec(v, orders).parents.contains(p)
            <==> (v.parents.contains(p) && !v.tags.dom().contains(p.tag_id) && !v.tags.dom().contains(p.relate_tag_id)),
        condense_spec(v, orders).files == v.files,
        condense_spec(v, orders).namespaces == v.namespaces,
        condense_spec(v, orders).settings == v.settings,
        condense_spec(v, orders).jobs == v.jobs,
{
    lemma_condense_inv(v, v.tag_next, orders);
    let (w, last) = condense_upto(v, v.tag_next, orders);
    assert forall|t: usize| #[trigger] v.tags.dom().contains(t) implies tags_below(v.tags, t as nat) < tags_below(v.tags, v.tag_next) by {
        lemma_tags_below_strict(v.tags, t, v.tag_next);
    }
    assert forall|i: usize| #[trigger] w.tags.dom().contains(i) <==> i < last by {
        if w.tags.dom().contains(i) && i >= last {
            assert(v.tags.dom().contains(i));
        }
    }
    if rels_refer_to_tags(v) {
        assert forall|r: DbRelationshipObj| #[trigger] w.relationships.contains(r) implies r.tagid < last by {
            if r.tagid >= v.tag_next {
                assert(v.relationships.contains(r));
                assert(v.tags.dom().contains(r.tagid));
            }
        }
    }
}

/// Removing tags one after another removes exactly those tags and their
/// relationships, and keeps the rest of the state sound.
pub proof fn lemma_remove_tags_all_facts(v: DbView, tids: Seq<usize>, ps: Seq<Seq<DbParentsObj>>, fs: Seq<Seq<usize>>)
    requires
        view_wf(v),
    ensures
        view_wf(remove_tags_all(v, tids, ps, fs)),
        rels_refer_to_tags(v) ==> rels_refer_to_tags(remove_tags_all(v, tids, ps, fs)),
        remove_tags_all(v, tids, ps, fs).namespaces == v.namespaces,
        remove_tags_all(v, tids, ps, fs).tag_next == v.tag_next,
        forall|t: usize| #[trigger] remove_tags_all(v, tids, ps, fs).tags.dom().contains(t)
            ==> v.tags.dom().contains(t) && !tids.contains(t) && remove_tags_all(v, tids, ps, fs).tags[t] == v.tags[t],
    decreases tids.len(),
{
    if tids.len() > 0 {
        let n = (tids.len() - 1) as int;
        lemma_remove_tags_all_facts(v, tids.drop_last(), ps, fs);
        let w = remove_tags_all(v, tids.drop_last(), ps, fs);
        let w2 = remove_tags_all(v, tids, ps, fs);
        assert(w2.tags == w.tags.remove(tids[n]));
        assert forall|t: usize| #[trigger] w2.tags.dom().contains(t) implies v.tags.dom().contains(t) && !tids.contains(t) && w2.tags[t] == v.tags[t] by {
            if tids.contains(t) {
                let j = choose|j: int| 0 <= j < tids.len() && tids[j] == t;
                if j < n {
                    assert(tids.drop_last()[j] == t);
                }
            }
        }
        if rels_refer_to_tags(v) {
            assert forall|r: DbRelationshipObj| #[trigger] w2.relationships.contains(r) implies w2.tags.dom().contains(r.tagid) by {
                assert(w.relationships.contains(r));
            }
        }
    }
}

/// Condensing brings in no tag of a namespace that had none, and leaves the
/// namespaces alone.
pub proof fn lemma_condense_keeps_ns(v: DbView, n: nat, orders: Seq<(Seq<usize>, Seq<DbParentsObj>)>, ns: usize)
    requires
        view_wf(v),
        n <= v.tag_next,
        condense_orders_ok(v, n, orders),
        forall|t: usize| #[trigger] v.tags.dom().contains(t) ==> v.tags[t].namespace != ns,
    ensures
        condense_upto(v, n, orders).0.namespaces == v.namespaces,
        forall|t: usize| #[trigger] condense_upto(v, n, orders).0.tags.dom().contains(t)
            ==> condense_upto(v, n, orders).0.tags[t].namespace != ns,
    decreases n,
{
    lemma_condense_inv(v, n, orders);
    if n > 0 {
        let m = (n - 1) as nat;
        lemma_orders_ok_prefix(v, n, m, orders);
        lemma_condense_keeps_ns(v, m, orders, ns);
        lemma_condense_inv(v, m, orders);
        let (w, last) = condense_upto(v, m, orders);
        let tid = m as usize;
        if v.tags.dom().contains(tid) {
            assert(w.tags.dom().contains(tid));
            let (w2, last2) = condense_upto(v, n, orders);
            let fs = orders[m as int].0;
            let pss = orders[m as int].1;
            let t = w.tags[tid];
            let v1 = flushed(w);
            let v2 = if fs.len() == 0 { v1 } else { flushed(delete_tag_relationship_spec(v1, tid, fs)) };
            let v3 = tag_remove_spec(v2, tid, pss);
            let v4 = tag_add_spec(v3, t.name, t.namespace, true, Some(last as usize)).1;
            lemma_rels_add_all_tables(v4, fs, last as usize);
            assert(w2 == rels_add_all(v4, fs, last as usize));
            assert forall|i: usize| #[trigger] w2.tags.dom().contains(i) implies w2.tags[i].namespace != ns by {
                if i != last as usize || tag_id_for(v3.tags, t.name@, t.namespace).is_some() {
                    assert(w.tags.dom().contains(i));
                }
            }
        }
    }
}

/// Deleting a namespace that exists leaves no tag in it, the namespace
/// itself is gone and every other namespace stays; where it does not exist
/// the namespaces are left as they were.
pub proof fn law_namespace_delete(v: DbView, id: usize, tids: Seq<usize>, ps: Seq<Seq<DbParentsObj>>, fs: Seq<Seq<usize>>, orders: Seq<(Seq<usize>, Seq<DbParentsObj>)>)
    requires
        view_wf(v),
        namespace_delete_ok(v, id, tids, ps, fs, orders),
    ensures
        v.namespaces.dom().contains(id) ==> tags_of_namespace(namespace_delete_spec(v, id, tids, ps, fs, orders), id).is_empty(),
        v.namespaces.dom().contains(id)
            ==> namespace_delete_spec(v, id, tids, ps, fs, orders).namespaces == v.namespaces.remove(id),
        !v.namespaces.dom().contains(id)
            ==> namespace_delete_spec(v, id, tids, ps, fs, orders).namespaces == v.namespaces,
{
    let w = namespace_delete_spec(v, id, tids, ps, fs, orders);
    if v.namespaces.dom().contains(id) {
        let v1 = flushed(v);
        lemma_remove_tags_all_facts(v1, tids, ps, fs);
        let v2 = remove_tags_all(v1, tids, ps, fs);
        let v3 = namespace_removed(v1, id, tids, ps, fs);
        assert(view_wf(v3));
        assert forall|t: usize| #[trigger] v3.tags.dom().contains(t) implies v3.tags[t].namespace != id by {
            assert(v2.tags.dom().contains(t));
            if v3.tags[t].namespace == id {
                assert(tags_of_namespace(v, id).contains(t));
                assert(tids.to_set().contains(t));
            }
        }
        lemma_condense_keeps_ns(v3, v3.tag_next, orders, id);
        assert(tags_of_namespace(w, id) =~= Set::empty());
    } else {
        assert(tags_of_namespace(w, id) =~= tags_of_namespace(v, id));
    }
}

/// The tag rows a run of statements writes, in order: id, name and
/// namespace.
pub open spec fn tag_rows_written(ops: Seq<OpView>) -> Seq<(usize, Seq<char>, usize)>
    decreases ops.len(),
{
    if ops.len() == 0 {
        Seq::empty()
    } else {
        let rest = tag_rows_written(ops.drop_last());
        match ops.last() {
            OpView::InsertTag { id, name, namespace } => rest.push((id, name, namespace)),
            _ => rest,
        }
    }
}

pub proof fn lemma_tag_rows_add(a: Seq<OpView>, b: Seq<OpView>)
    ensures
        tag_rows_written(a + b) == tag_rows_written(a) + tag_rows_written(b),
    decreases b.len(),
{
    if b.len() == 0 {
        assert(a + b =~= a);
        assert(tag_rows_written(a) + tag_rows_written(b) =~= tag_rows_written(a));
    } else {
        lemma_tag_rows_add(a, b.drop_last());
        assert((a + b).drop_last() =~= a + b.drop_last());
        assert((a + b).last() == b.last());
        let rb = tag_rows_written(b.drop_last());
        match b.last() {
            OpView::InsertTag { id, name, namespace } => {
                assert(tag_rows_written(a) + rb.push((id, name, namespace)) =~= (tag_rows_written(a) + rb).push((id, name, namespace)));
            },
            _ => {},
        }
    }
}

pub proof fn lemma_tag_rows_none(s: Seq<OpView>)
    requires
        forall|i: int| 0 <= i < s.len() ==> !(#[trigger] s[i] is InsertTag),
    ensures
        tag_rows_written(s) == Seq::<(usize, Seq<char>, usize)>::empty(),
    decreases s.len(),
{
    if s.len() > 0 {
        lemma_tag_rows_none(s.drop_last());
        assert(!(s[s.len() - 1] is InsertTag));
    }
}

pub proof fn lemma_tag_rows_commit(u: DbView)
    ensures
        tag_rows_written(commit_step(u).outbox) == tag_rows_written(u.outbox),
        tag_rows_written(flushed(u).outbox) == tag_rows_written(u.outbox),
        tag_rows_written(vacuumed(u).outbox) == tag_rows_written(u.outbox),
{
    let two = seq![OpView::Commit, OpView::Begin];
    assert(flushed(u).outbox =~= u.outbox + two);
    lemma_tag_rows_add(u.outbox, two);
    lemma_tag_rows_none(two);
    let tail = seq![OpView::Commit, OpView::Begin, OpView::Commit, OpView::Vacuum, OpView::Begin];
    lemma_tag_rows_add(u.outbox, tail);
    lemma_tag_rows_none(tail);
    assert(tag_rows_written(u.outbox) + Seq::<(usize, Seq<char>, usize)>::empty() =~= tag_rows_written(u.outbox));
}

pub proof fn lemma_tag_rows_rel_sql(u: DbView, fs: Seq<usize>, tag: usize)
    ensures
        tag_rows_written(rel_sql_all(u, fs, tag).outbox) == tag_rows_written(u.outbox),
        rel_sql_all(u, fs, tag).tags == u.tags,
    decreases fs.len(),
{
    if fs.len() > 0 {
        lemma_tag_rows_rel_sql(u, fs.drop_last(), tag);
        let w = with_op(rel_sql_all(u, fs.drop_last(), tag), OpView::InsertRelationship { file: fs.last(), tag: tag });
        lemma_tag_rows_commit(w);
        assert(w.outbox.drop_last() == rel_sql_all(u, fs.drop_last(), tag).outbox);
    }
}

/// The rows `recreate_all` writes: the tags of `tids`, numbered 0, 1, ...
pub proof fn lemma_tag_rows_recreate(u: DbView, src: Map<usize, DbTagNNS>, tids: Seq<usize>, fss: Seq<Seq<usize>>)
    ensures
        tag_rows_written(recreate_all(u, src, tids, fss).outbox) == tag_rows_written(u.outbox)
            + Seq::new(tids.len(), |i: int| (i as usize, src[tids[i]].name@, src[tids[i]].namespace)),
    decreases tids.len(),
{
    let rows = |t: Seq<usize>| Seq::new(t.len(), |i: int| (i as usize, src[t[i]].name@, src[t[i]].namespace));
    if tids.len() == 0 {
        assert(tag_rows_written(u.outbox) + rows(tids) =~= tag_rows_written(u.outbox));
    } else {
        let n = (tids.len() - 1) as int;
        lemma_tag_rows_recreate(u, src, tids.drop_last(), fss);
        let w = recreate_all(u, src, tids.drop_last(), fss);
        let t = src[tids[n]];
        let x = with_op(w, OpView::InsertTag { id: n as usize, name: t.name@, namespace: t.namespace });
        lemma_tag_rows_commit(x);
        lemma_tag_rows_rel_sql(commit_step(x), fss[n], n as usize);
        assert(x.outbox.drop_last() == w.outbox);
        assert(rows(tids) =~= rows(tids.drop_last()).push((n as usize, t.name@, t.namespace)));
        assert(tag_rows_written(u.outbox) + rows(tids) =~= (tag_rows_written(u.outbox) + rows(tids.drop_last())).push((n as usize, t.name@, t.namespace)));
    }
}

/// Rebuilding the tables around a namespace that has tags writes, as tag
/// rows, exactly that namespace's tags, numbered 0, 1, ... without gaps, each
/// with its name and in that namespace; the tags, parents and relationships
/// held in memory are emptied, and the next tag id starts at 0 again.
pub proof fn law_drop_recreate_one_namespace(v: DbView, id: usize, tids: Seq<usize>, fss: Seq<Seq<usize>>)
    requires
        drop_recreate_ok(v, id, tids, fss),
        !tags_of_namespace(v, id).is_empty(),
    ensures
        tids.len() == tags_of_namespace(v, id).len(),
        tids.to_set() == tags_of_namespace(v, id),
        tag_rows_written(drop_recreate_spec(v, id, tids, fss).outbox) == tag_rows_written(v.outbox)
            + Seq::new(tids.len(), |i: int| (i as usize, v.tags[tids[i]].name@, id)),
        drop_recreate_spec(v, id, tids, fss).tags.is_empty(),
        drop_recreate_spec(v, id, tids, fss).parents.is_empty(),
        drop_recreate_spec(v, id, tids, fss).relationships.is_empty(),
        drop_recreate_spec(v, id, tids, fss).tag_next == 0,
{
    tids.unique_seq_to_set();
    let a = with_ops(v, drop_tag_tables_ops());
    let b = with_ops(a, first_db_ops());
    let v1 = flushed(flushed(b));
    lemma_tag_rows_add(v.outbox, drop_tag_tables_ops());
    lemma_tag_rows_none(drop_tag_tables_ops());
    lemma_tag_rows_add(a.outbox, first_db_ops());
    lemma_tag_rows_none(first_db_ops());
    lemma_tag_rows_commit(b);
    lemma_tag_rows_commit(flushed(b));
    assert(tag_rows_written(v.outbox) + Seq::<(usize, Seq<char>, usize)>::empty() =~= tag_rows_written(v.outbox));
    assert(tag_rows_written(a.outbox) + Seq::<(usize, Seq<char>, usize)>::empty() =~= tag_rows_written(a.outbox));
    assert(tag_rows_written(v1.outbox) == tag_rows_written(v.outbox));
    lemma_tag_rows_recreate(v1, v.tags, tids, fss);
    let w = recreate_all(v1, v.tags, tids, fss);
    let c = DbView { tags: Map::empty(), tag_next: 0, parents: Set::empty(), relationships: Set::empty(), ..w };
    lemma_tag_rows_commit(c);
    lemma_tag_rows_commit(vacuumed(c));
    lemma_tag_rows_commit(flushed(vacuumed(c)));
    assert forall|i: int| 0 <= i < tids.len() implies #[trigger] v.tags[tids[i]].namespace == id by {
        assert(tids.to_set().contains(tids[i]));
    }
    assert(Seq::new(tids.len(), |i: int| (i as usize, v.tags[tids[i]].name@, v.tags[tids[i]].namespace))
        =~= Seq::new(tids.len(), |i: int| (i as usize, v.tags[tids[i]].name@, id)));
}

/// Adding a namespace (queued for the file) keeps the state well formed,
/// stores the namespace under the id it gives, keeps every namespace there
/// was, and leaves tags and parents alone.
pub proof fn lemma_namespace_add_step(v: DbView, name: String, d: Option<String>)
    requires
        view_wf(v),
        ns_id_for(v.namespaces, name@).is_none() ==> v.ns_next < usize::MAX,
    ensures
        view_wf(namespace_add_spec(v, name, d, true).1),
        namespace_add_spec(v, name, d, true).1.namespaces.dom().contains(namespace_add_spec(v, name, d, true).0),
        namespace_add_spec(v, name, d, true).1.namespaces[namespace_add_spec(v, name, d, true).0].name@ == name@,
        forall|k: usize| #[trigger] v.namespaces.dom().contains(k) ==> namespace_add_spec(v, name, d, true).1.namespaces.dom().contains(k)
            && namespace_add_spec(v, name, d, true).1.namespaces[k] == v.namespaces[k],
        namespace_add_spec(v, name, d, true).1.tags == v.tags,
        namespace_add_spec(v, name, d, true).1.parents == v.parents,
        namespace_add_spec(v, name, d, true).1.tag_next == v.tag_next,
        namespace_add_spec(v, name, d, true).1.ns_next <= v.ns_next + 1,
{
    law_namespace_add_reads_back(v, name, d, true);
    if ns_id_for(v.namespaces, name@).is_none() {
        let nid = v.ns_next as usize;
        let ns = DbNamespaceObj { id: nid, name: name, description: d };
        let op = OpView::InsertNamespace { id: nid, name: name@, description: opt_view(d) };
        let pre = commit_step(with_op(v, op));
        lemma_commit_step_wf(with_op(v, op));
        lemma_with_namespace_wf(pre, ns);
    }
}

/// Adding a tag by name (queued for the file) keeps the state well formed,
/// stores the tag under the id it gives, keeps every tag there was, and
/// leaves namespaces and parents alone.
pub proof fn lemma_tag_add_step(v: DbView, name: String, ns: usize)
    requires
        view_wf(v),
        v.tag_next < usize::MAX,
    ensures
        view_wf(tag_add_spec(v, name, ns, true, None).1),
        tag_add_spec(v, name, ns, true, None).1.tags.dom().contains(tag_add_spec(v, name, ns, true, None).0),
        tag_is(tag_add_spec(v, name, ns, true, None).1.tags[tag_add_spec(v, name, ns, true, None).0], name@, ns),
        forall|k: usize| #[trigger] v.tags.dom().contains(k) ==> tag_add_spec(v, name, ns, true, None).1.tags.dom().contains(k)
            && tag_add_spec(v, name, ns, true, None).1.tags[k] == v.tags[k],
        tag_add_spec(v, name, ns, true, None).1.namespaces == v.namespaces,
        tag_add_spec(v, name, ns, true, None).1.parents == v.parents,
        tag_add_spec(v, name, ns, true, None).1.ns_next == v.ns_next,
        tag_add_spec(v, name, ns, true, None).1.tag_next <= v.tag_next + 1,
{
    law_tag_add_reads_back(v, name, ns, true, None);
    if tag_id_for(v.tags, name@, ns).is_none() {
        let nid = v.tag_next as usize;
        let t = DbTagNNS { name: name, namespace: ns };
        lemma_with_tag_wf(v, nid, t);
        let x = with_op(with_tag(v, nid, t), OpView::InsertTag { id: nid, name: name@, namespace: ns });
        lemma_commit_step_wf(x);
        lemma_commit_step_wf(commit_step(x));
    }
}

/// The relationship rows a run of statements writes, in order: file and
/// tag.
pub open spec fn rel_rows_written(ops: Seq<OpView>) -> Seq<(usize, usize)>
    decreases ops.len(),
{
    if ops.len() == 0 {
        Seq::empty()
    } else {
        let rest = rel_rows_written(ops.drop_last());
        match ops.last() {
            OpView::InsertRelationship { file, tag } => rest.push((file, tag)),
            _ => rest,
        }
    }
}

pub proof fn lemma_rel_rows_add(a: Seq<OpView>, b: Seq<OpView>)
    ensures
        rel_rows_written(a + b) == rel_rows_written(a) + rel_rows_written(b),
    decreases b.len(),
{
    if b.len() == 0 {
        assert(a + b =~= a);
        assert(rel_rows_written(a) + rel_rows_written(b) =~= rel_rows_written(a));
    } else {
        lemma_rel_rows_add(a, b.drop_last());
        assert((a + b).drop_last() =~= a + b.drop_last());
        assert((a + b).last() == b.last());
        let rb = rel_rows_written(b.drop_last());
        match b.last() {
            OpView::InsertRelationship { file, tag } => {
                assert(rel_rows_written(a) + rb.push((file, tag)) =~= (rel_rows_written(a) + rb).push((file, tag)));
            },
            _ => {},
        }
    }
}

pub proof fn lemma_rel_rows_none(s: Seq<OpView>)
    requires
        forall|i: int| 0 <= i < s.len() ==> !(#[trigger] s[i] is InsertRelationship),
    ensures
        rel_rows_written(s) == Seq::<(usize, usize)>::empty(),
    decreases s.len(),
{
    if s.len() > 0 {
        lemma_rel_rows_none(s.drop_last());
        assert(!(s[s.len() - 1] is InsertRelationship));
    }
}

pub proof fn lemma_rel_rows_commit(u: DbView)
    ensures
        rel_rows_written(commit_step(u).outbox) == rel_rows_written(u.outbox),
        rel_rows_written(flushed(u).outbox) == rel_rows_written(u.outbox),
        rel_rows_written(vacuumed(u).outbox) == rel_rows_written(u.outbox),
{
    let two = seq![OpView::Commit, OpView::Begin];
    assert(flushed(u).outbox =~= u.outbox + two);
    lemma_rel_rows_add(u.outbox, two);
    lemma_rel_rows_none(two);
    let tail = seq![OpView::Commit, OpView::Begin, OpView::Commit, OpView::Vacuum, OpView::Begin];
    lemma_rel_rows_add(u.outbox, tail);
    lemma_rel_rows_none(tail);
    assert(rel_rows_written(u.outbox) + Seq::<(usize, usize)>::empty() =~= rel_rows_written(u.outbox));
}

pub proof fn lemma_rel_rows_rel_sql(u: DbView, fs: Seq<usize>, tag: usize)
    ensures
        rel_rows_written(rel_sql_all(u, fs, tag).outbox) == rel_rows_written(u.outbox) + fs.map_values(|f: usize| (f, tag)),
    decreases fs.len(),
{
    if fs.len() == 0 {
        assert(rel_rows_written(u.outbox) + fs.map_values(|f: usize| (f, tag)) =~= rel_rows_written(u.outbox));
    } else {
        lemma_rel_rows_rel_sql(u, fs.drop_last(), tag);
        let w = with_op(rel_sql_all(u, fs.drop_last(), tag), OpView::InsertRelationship { file: fs.last(), tag: tag });
        lemma_rel_rows_commit(w);
        assert(w.outbox.drop_last() == rel_sql_all(u, fs.drop_last(), tag).outbox);
        assert(fs.map_values(|f: usize| (f, tag)) =~= fs.drop_last().map_values(|f: usize| (f, tag)).push((fs.last(), tag)));
        assert(rel_rows_written(u.outbox) + fs.map_values(|f: usize| (f, tag))
            =~= (rel_rows_written(u.outbox) + fs.drop_last().map_values(|f: usize| (f, tag))).push((fs.last(), tag)));
    }
}

/// The relationship rows of the first `n` rebuilt tags: the files `fss[i]`
/// each with the new id `i`.
pub open spec fn recreated_rels(fss: Seq<Seq<usize>>, n: int) -> Seq<(usize, usize)>
    decreases n,
{
    if n <= 0 {
        Seq::empty()
    } else {
        recreated_rels(fss, n - 1) + fss[n - 1].map_values(|f: usize| (f, (n - 1) as usize))
    }
}

pub proof fn lemma_recreated_rels_contains(fss: Seq<Seq<usize>>, n: int, f: usize, t: usize)
    requires
        0 <= n <= fss.len(),
    ensures
        recreated_rels(fss, n).contains((f, t)) <==> exists|i: int| 0 <= i < n && t == i as usize && #[trigger] fss[i].contains(f),
    decreases n,
{
    broadcast use vstd::seq_lib::lemma_seq_concat_contains_all_elements;
    if n > 0 {
        lemma_recreated_rels_contains(fss, n - 1, f, t);
        let fl = fss[n - 1];
        let last = fl.map_values(|g: usize| (g, (n - 1) as usize));
        if last.contains((f, t)) {
            let k = choose|k: int| 0 <= k < last.len() && last[k] == (f, t);
            assert(fl[k] == f);
            assert(fl.contains(f));
        }
        if t == (n - 1) as usize && fl.contains(f) {
            let k = choose|k: int| 0 <= k < fl.len() && fl[k] == f;
            assert(last[k] == (f, t));
        }
        if exists|i: int| 0 <= i < n && t == i as usize && #[trigger] fss[i].contains(f) {
            let i = choose|i: int| 0 <= i < n && t == i as usize && #[trigger] fss[i].contains(f);
            if i == n - 1 {
                let k = choose|k: int| 0 <= k < fl.len() && fl[k] == f;
                assert(last[k] == (f, t));
            }
        }
    }
}

pub proof fn lemma_rel_rows_recreate(u: DbView, src: Map<usize, DbTagNNS>, tids: Seq<usize>, fss: Seq<Seq<usize>>)
    ensures
        rel_rows_written(recreate_all(u, src, tids, fss).outbox) == rel_rows_written(u.outbox) + recreated_rels(fss, tids.len() as int),
    decreases tids.len(),
{
    if tids.len() == 0 {
        assert(rel_rows_written(u.outbox) + recreated_rels(fss, 0) =~= rel_rows_written(u.outbox));
    } else {
        let n = (tids.len() - 1) as int;
        lemma_rel_rows_recreate(u, src, tids.drop_last(), fss);
        let w = recreate_all(u, src, tids.drop_last(), fss);
        let t = src[tids[n]];
        let x = with_op(w, OpView::InsertTag { id: n as usize, name: t.name@, namespace: t.namespace });
        lemma_rel_rows_commit(x);
        lemma_rel_rows_rel_sql(commit_step(x), fss[n], n as usize);
        assert(x.outbox.drop_last() == w.outbox);
        assert(rel_rows_written(x.outbox) == rel_rows_written(w.outbox));
        assert(rel_rows_written(u.outbox) + recreated_rels(fss, n + 1)
            =~= (rel_rows_written(u.outbox) + recreated_rels(fss, n)) + fss[n].map_values(|f: usize| (f, n as usize)));
    }
}

/// Rebuilding the tables around a namespace that has tags writes, after
/// what was queued before, relationship rows that name only the new ids: a
/// file is written with the new id `i` exactly when it carried the tag that
/// is written under `i`.
pub proof fn law_drop_recreate_relationships(v: DbView, id: usize, tids: Seq<usize>, fss: Seq<Seq<usize>>)
    requires
        drop_recreate_ok(v, id, tids, fss),
        !tags_of_namespace(v, id).is_empty(),
    ensures
        exists|new: Seq<(usize, usize)>|
            rel_rows_written(drop_recreate_spec(v, id, tids, fss).outbox) == rel_rows_written(v.outbox) + new
            && forall|f: usize, t: usize| #[trigger] new.contains((f, t))
                <==> exists|i: int| 0 <= i < tids.len() && t == i as usize && #[trigger] files_of_tag(v, tids[i]).contains(f),
{
    let a = with_ops(v, drop_tag_tables_ops());
    let b = with_ops(a, first_db_ops());
    let v1 = flushed(flushed(b));
    lemma_rel_rows_add(v.outbox, drop_tag_tables_ops());
    lemma_rel_rows_none(drop_tag_tables_ops());
    lemma_rel_rows_add(a.outbox, first_db_ops());
    lemma_rel_rows_none(first_db_ops());
    lemma_rel_rows_commit(b);
    lemma_rel_rows_commit(flushed(b));
    assert(rel_rows_written(v.outbox) + Seq::<(usize, usize)>::empty() =~= rel_rows_written(v.outbox));
    assert(rel_rows_written(a.outbox) + Seq::<(usize, usize)>::empty() =~= rel_rows_written(a.outbox));
    assert(rel_rows_written(v1.outbox) == rel_rows_written(v.outbox));
    lemma_rel_rows_recreate(v1, v.tags, tids, fss);
    let w = recreate_all(v1, v.tags, tids, fss);
    let c = DbView { tags: Map::empty(), tag_next: 0, parents: Set::empty(), relationships: Set::empty(), ..w };
    lemma_rel_rows_commit(c);
    lemma_rel_rows_commit(vacuumed(c));
    lemma_rel_rows_commit(flushed(vacuumed(c)));
    let new = recreated_rels(fss, tids.len() as int);
    assert forall|f: usize, t: usize| #[trigger] new.contains((f, t))
        <==> exists|i: int| 0 <= i < tids.len() && t == i as usize && #[trigger] files_of_tag(v, tids[i]).contains(f) by {
        lemma_recreated_rels_contains(fss, tids.len() as int, f, t);
        assert forall|i: int| 0 <= i < tids.len() implies (#[trigger] fss[i]).contains(f) == files_of_tag(v, tids[i]).contains(f) by {
            assert(fss[i].to_set() == files_of_tag(v, tids[i]));
        }
        if exists|i: int| 0 <= i < tids.len() && t == i as usize && #[trigger] files_of_tag(v, tids[i]).contains(f) {
            let i = choose|i: int| 0 <= i < tids.len() && t == i as usize && #[trigger] files_of_tag(v, tids[i]).contains(f);
            assert(fss[i].contains(f));
        }
        if exists|i: int| 0 <= i < tids.len() && t == i as usize && #[trigger] fss[i].contains(f) {
            let i = choose|i: int| 0 <= i < tids.len() && t == i as usize && #[trigger] fss[i].contains(f);
            assert(files_of_tag(v, tids[i]).contains(f));
        }
    }
}

/// Adding a file by hash (queued for the file) keeps the state well
/// formed, stores the file under the id it gives, keeps every file there
/// was, and leaves tags and namespaces alone.
pub proof fn lemma_file_add_step(v: DbView, hash: String, ext: String, location: String)
    requires
        view_wf(v),
        v.file_next < usize::MAX,
    ensures
        view_wf(file_add_spec(v, None, hash, ext, location, true).1),
        file_add_spec(v, None, hash, ext, location, true).1.files.dom().contains(file_add_spec(v, None, hash, ext, location, true).0),
        file_add_spec(v, None, hash, ext, location, true).1.files[file_add_spec(v, None, hash, ext, location, true).0].hash@ == hash@,
        forall|k: usize| #[trigger] v.files.dom().contains(k) ==> file_add_spec(v, None, hash, ext, location, true).1.files.dom().contains(k)
            && file_add_spec(v, None, hash, ext, location, true).1.files[k] == v.files[k],
        file_add_spec(v, None, hash, ext, location, true).1.tags == v.tags,
        file_add_spec(v, None, hash, ext, location, true).1.namespaces == v.namespaces,
        file_add_spec(v, None, hash, ext, location, true).1.tag_next == v.tag_next,
        file_add_spec(v, None, hash, ext, location, true).1.ns_next == v.ns_next,
{
    if file_id_for(v.files, hash@).is_none() {
        let nid = v.file_next as usize;
        let f = DbFileObj { id: Some(nid), hash: hash, ext: ext, location: location };
        lemma_with_file_wf(v, nid, f);
        lemma_commit_step_wf(with_op(with_file(v, nid, f), OpView::InsertFile { id: nid, hash: hash@, ext: ext@, location: location@ }));
    }
}

} // verus!
