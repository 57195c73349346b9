//! Importing files listed in a csv file: the database side of each row.
//! Reading the csv, hashing and copying the files is the caller's.

use vstd::prelude::*;
use crate::sharedtypes::{DbRelationshipObj, SubTag};
use crate::database::{
    DbView, Main, file_add_spec, namespace_add_spec, relationship_add_spec, tag_add_spec, view_wf, file_id_for,
    ns_id_for, tag_id_for, lemma_file_id_for, lemma_ns_id_for, lemma_tag_id_for,
};
use crate::db_laws::{lemma_file_add_step, lemma_namespace_add_step, lemma_tag_add_step, law_tag_add_reads_back};

verus! {

/// Whether a csv file's headers name the `path` column, without which
/// nothing can be imported.
pub fn headers_have_path(headers: &Vec<String>) -> (b: bool)
    ensures
        b == exists|i: int| 0 <= i < headers@.len() && headers@[i]@ == "path"@,
{
    let path = String::from_str("path");
    let mut i: usize = 0;
    while i < headers.len()
        invariant
            i <= headers@.len(),
            path@ == "path"@,
            forall|j: int| 0 <= j < i ==> headers@[j]@ != "path"@,
        decreases headers@.len() - i,
    {
        if headers[i] == path {
            return true;
        }
        i = i + 1;
    }
    false
}

/// What importing one row leaves: the file stored and queued, its
/// namespace added, its tag added under the row's id, and the two related.
pub open spec fn import_row_spec(v: DbView, hash: String, ext: String, location: String, namespace: String, tag: String, id: usize) -> DbView {
    let (fid, v1) = file_add_spec(v, None, hash, ext, location, true);
    let (nid, v2) = namespace_add_spec(v1, namespace, None, true);
    let (tid, v3) = tag_add_spec(v2, tag, nid, true, Some(id));
    relationship_add_spec(v3, fid, tid, true)
}

/// Stores an imported file with the tag its row gives.
pub fn import_row(db: &mut Main, hash: &String, ext: &String, location: &String, namespace: String, tag: String, id: usize)
    requires
        old(db).wf(),
        old(db)@.file_next < usize::MAX,
        old(db)@.ns_next < usize::MAX,
        id < usize::MAX,
    ensures
        final(db).wf(),
        final(db)@ == import_row_spec(old(db)@, *hash, *ext, *location, namespace, tag, id),
{
    let file_id = db.file_add(None, hash, ext, location, true);
    let namespace_id = db.namespace_add(namespace, None, true);
    let tag_id = db.tag_add(tag, namespace_id, true, Some(id));
    db.relationship_add(file_id, tag_id, true);
}

/// What re-importing one file leaves: the file stored and queued, the
/// namespace of the tag the scraper gave for it added, the tag added, and
/// the two related.
pub open spec fn reimport_file_spec(v: DbView, hash: String, ext: String, location: String, tag: SubTag) -> DbView {
    let (fid, v1) = file_add_spec(v, None, hash, ext, location, true);
    let (nid, v2) = namespace_add_spec(v1, tag.namespace.name, tag.namespace.description, true);
    let (tid, v3) = tag_add_spec(v2, tag.tag, nid, true, None);
    relationship_add_spec(v3, fid, tid, true)
}

/// Stores a file found on disk again, with the tag its scraper gives for
/// it.
pub fn reimport_file(db: &mut Main, hash: &String, ext: &String, location: &String, tag: SubTag)
    requires
        old(db).wf(),
        old(db)@.file_next < usize::MAX,
        old(db)@.ns_next < usize::MAX,
        old(db)@.tag_next < usize::MAX,
    ensures
        final(db).wf(),
        final(db)@ == reimport_file_spec(old(db)@, *hash, *ext, *location, tag),
{
    let fid = db.file_add(None, hash, ext, location, true);
    let nid = db.namespace_add(tag.namespace.name, tag.namespace.description, true);
    let tid = db.tag_add(tag.tag, nid, true, None);
    db.relationship_add(fid, tid, true);
}

/// Importing a row leaves the file found by its hash, the namespace found
/// by its name, the tag found by its name in that namespace, and the file
/// carrying that tag.
pub proof fn law_import_row(v: DbView, hash: String, ext: String, location: String, namespace: String, tag: String, id: usize)
    requires
        view_wf(v),
        v.file_next < usize::MAX,
        v.ns_next < usize::MAX,
        id < usize::MAX,
    ensures
        ({
            let w = import_row_spec(v, hash, ext, location, namespace, tag, id);
            file_id_for(w.files, hash@) matches Some(f)
            && ns_id_for(w.namespaces, namespace@) matches Some(n)
            && tag_id_for(w.tags, tag@, n) matches Some(t)
            && w.relationships.contains(DbRelationshipObj { fileid: f, tagid: t })
        }),
{
    lemma_file_add_step(v, hash, ext, location);
    let (fid, v1) = file_add_spec(v, None, hash, ext, location, true);
    lemma_namespace_add_step(v1, namespace, None);
    let (nid, v2) = namespace_add_spec(v1, namespace, None, true);
    law_tag_add_reads_back(v2, tag, nid, true, Some(id));
    let (tid, v3) = tag_add_spec(v2, tag, nid, true, Some(id));
    assert(v2.files == v1.files && v3.files == v2.files && v3.namespaces == v2.namespaces);
    lemma_file_id_for(v1.files, fid, hash@);
    lemma_ns_id_for(v2.namespaces, nid, namespace@);
}

/// Re-importing a file leaves the file found by its hash, the scraper's
/// namespace found by its name, its tag found in that namespace, and the
/// file carrying that tag.
pub proof fn law_reimport_file(v: DbView, hash: String, ext: String, location: String, tag: SubTag)
    requires
        view_wf(v),
        v.file_next < usize::MAX,
        v.ns_next < usize::MAX,
        v.tag_next < usize::MAX,
    ensures
        ({
            let w = reimport_file_spec(v, hash, ext, location, tag);
            file_id_for(w.files, hash@) matches Some(f)
            && ns_id_for(w.namespaces, tag.namespace.name@) matches Some(n)
            && tag_id_for(w.tags, tag.tag@, n) matches Some(t)
            && w.relationships.contains(DbRelationshipObj { fileid: f, tagid: t })
        }),
{
    lemma_file_add_step(v, hash, ext, location);
    let (fid, v1) = file_add_spec(v, None, hash, ext, location, true);
    lemma_namespace_add_step(v1, tag.namespace.name, tag.namespace.description);
    let (nid, v2) = namespace_add_spec(v1, tag.namespace.name, tag.namespace.description, true);
    lemma_tag_add_step(v2, tag.tag, nid);
    let (tid, v3) = tag_add_spec(v2, tag.tag, nid, true, None);
    assert(v2.files == v1.files && v3.files == v2.files && v3.namespaces == v2.namespaces);
    lemma_file_id_for(v1.files, fid, hash@);
    lemma_ns_id_for(v2.namespaces, nid, tag.namespace.name@);
    lemma_tag_id_for(v3.tags, tid, tag.tag@, nid);
}

} // verus!
