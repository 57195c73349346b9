//! The interface of an in-memory store of the database's tables.

use vstd::prelude::*;
use std::collections::{HashMap, HashSet};
use crate::sharedtypes::{DbFileObj, DbJobsObj, DbNamespaceObj, DbParentsObj, DbSettingObj, DbTagNNS};

verus! {

/// What an in-memory store of the tables offers the database.
pub trait DBTraits {
    /// Puts a parent relation in; gives its id.
    fn parents_put(&mut self, tag_namespace_id: usize, tag_id: usize, relate_tag_id: usize, relate_namespace_id: usize) -> usize;

    /// Whether a file carries a tag.
    fn relationship_get(&self, file: &usize, tag: &usize) -> bool;

    /// Relates a file to a tag.
    fn relationship_add(&mut self, file: usize, tag: usize);

    /// Stores a job.
    fn jobs_add(&mut self, job: DbJobsObj);

    /// The next job id.
    fn jobs_get_max(&self) -> &usize;

    /// Every job by id.
    fn jobs_get_all(&self) -> &HashMap<usize, DbJobsObj>;

    /// Removes the parent relations of a tag; gives the pairs removed.
    fn parents_remove(&mut self, tag_id: &usize) -> HashSet<(usize, usize)>;

    /// The tags related to a tag.
    fn parents_tag_get(&self, tag_id: &usize) -> Option<&HashSet<usize>>;

    /// The tags a tag is related from.
    fn parents_rel_get(&self, relate_tag_id: &usize) -> Option<&HashSet<usize>>;

    /// The id of a parent relation, if it is there.
    fn parents_get(&self, parent: &DbParentsObj) -> Option<&usize>;

    /// Stores a tag under `id`, or the next free id; gives the id.
    fn tags_put(&mut self, tag_info: DbTagNNS, id: Option<usize>) -> usize;

    /// The next namespace id.
    fn namespace_get_max(&self) -> usize;

    /// Removes a namespace.
    fn namespace_delete(&mut self, namepsace_id: &usize);

    /// Stores a namespace; gives its id.
    fn namespace_put(&mut self, namespace_obj: DbNamespaceObj) -> usize;

    /// Every file id.
    fn file_get_list_id(&self) -> HashSet<usize>;

    /// The id of the file with a hash.
    fn file_get_hash(&self, hash: &String) -> Option<&usize>;

    /// The file stored under an id.
    fn file_get_id(&self, id: &usize) -> Option<&DbFileObj>;

    /// Stores a file; gives its id.
    fn file_put(&mut self, file: DbFileObj) -> usize;

    /// Sets the next tag id back to 0.
    fn tags_max_reset(&mut self);

    /// The next tag id.
    fn tags_max_return(&self) -> &usize;

    /// Removes a relationship.
    fn relationship_remove(&mut self, file_id: &usize, tag_id: &usize);

    /// Removes a tag.
    fn tag_remove(&mut self, id: &usize) -> Option<()>;

    /// Every tag id.
    fn tags_get_list_id(&self) -> HashSet<usize>;

    /// Forgets every relationship.
    fn relationships_clear(&mut self);

    /// Forgets every parent relation.
    fn parents_clear(&mut self);

    /// Forgets every tag.
    fn tags_clear(&mut self);

    /// The tag stored under an id.
    fn tags_get_data(&self, id: &usize) -> Option<&DbTagNNS>;

    /// The id of a tag, by name and namespace.
    fn tags_get_id(&self, tagobj: &DbTagNNS) -> Option<&usize>;

    /// One file that carries a tag.
    fn relationship_get_one_fileid(&self, tag: &usize) -> Option<&usize>;

    /// The tags a file carries.
    fn relationship_get_tagid(&self, file: &usize) -> Option<&HashSet<usize>>;

    /// The files that carry a tag.
    fn relationship_get_fileid(&self, tag: &usize) -> Option<&HashSet<usize>>;

    /// The tags of a namespace.
    fn namespace_get_tagids(&self, id: &usize) -> Option<&HashSet<usize>>;

    /// Every namespace id.
    fn namespace_keys(&self) -> Vec<usize>;

    /// The namespace stored under an id.
    fn namespace_id_get(&self, id: &usize) -> Option<&DbNamespaceObj>;

    /// The id of a namespace, by name.
    fn namespace_get(&self, inp: &String) -> Option<&usize>;

    /// The setting stored under a name.
    fn settings_get_name(&self, name: &String) -> Option<&DbSettingObj>;

    /// Stores a job under the next job id.
    fn jobref_new(&mut self, job: DbJobsObj);

    /// Stores a setting under its name.
    fn settings_add(&mut self, name: String, pretty: Option<String>, num: Option<usize>, param: Option<String>);
}

} // verus!
