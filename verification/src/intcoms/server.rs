//! The server side: answering plugins' database requests from the database.
//! Each answer is a typed reply; the caller sends its payload, and does the
//! file and log work that some replies ask of it.

use vstd::prelude::*;
use std::collections::HashSet;
use crate::database::{
    DbView, Main, files_of_tag, flushed, namespace_add_spec, ns_id_for, relationship_add_spec, search_answerable,
    search_result, setting_add_spec, setting_view, tag_add_fits, tag_add_spec, tag_id_for, tags_of_file,
    tags_of_namespace, file_id_for, view_wf,
};
use crate::db_laws::{law_namespace_add_reads_back, law_tag_add_reads_back};
use crate::intcoms::types::{SupportedDBRequests, SupportedRequests};
use crate::sharedtypes::{DbFileObj, DbNamespaceObj, DbSettingObj, DbTagNNS, LoadDBTable, SearchObj};

verus! {

/// The answer to a database request.
pub enum DbReply {
    /// An acknowledgement or a yes/no answer.
    Flag(bool),
    /// A number: a new id, or the test number.
    Number(usize),
    /// A text: where files are stored.
    Text(String),
    /// An optional set of ids: search results, the files of a tag, the tags
    /// of a file or of a namespace.
    Ids(Option<HashSet<usize>>),
    /// A set of ids: all file ids.
    AllIds(HashSet<usize>),
    /// An optional id: of a tag, a file or a namespace.
    Id(Option<usize>),
    Tag(Option<DbTagNNS>),
    File(Option<DbFileObj>),
    Namespace(Option<DbNamespaceObj>),
    Setting(Option<DbSettingObj>),
    /// Every file row.
    AllFiles(Vec<DbFileObj>),
    /// The file row whose stored file is asked for (its location, or its
    /// bytes when `bytes` holds); the caller finds it on disk.
    FileOnDisk { row: Option<DbFileObj>, bytes: bool },
    /// A line for the log (also printed when `print` holds); answered with
    /// `true` once logged.
    Log { line: String, print: bool },
    /// A table to load from the database file; answered with `true` once
    /// loaded.
    Load(LoadDBTable),
}

pub open spec fn opt_ids(o: Option<HashSet<usize>>) -> Option<Set<usize>> {
    match o {
        Some(s) => Some(s@),
        None => None,
    }
}

/// The ids of a set, where it is not empty.
pub open spec fn nonempty(s: Set<usize>) -> Option<Set<usize>> {
    if s.is_empty() { None } else { Some(s) }
}

pub open spec fn opt_get<V>(m: Map<usize, V>, k: usize) -> Option<V> {
    if m.dom().contains(k) { Some(m[k]) } else { None }
}

/// What a request needs of the database: room for a new id, an answerable
/// search, and a stored files location.
pub open spec fn request_ok(v: DbView, req: SupportedDBRequests) -> bool {
    match req {
        SupportedDBRequests::PutTag(t, ns, _addtodb, id) => tag_add_fits(v, t@, ns, id),
        SupportedDBRequests::CreateNamespace(name, _d, _a) => ns_id_for(v.namespaces, name@).is_none() ==> v.ns_next < usize::MAX,
        SupportedDBRequests::Search((s, _l, _o)) => search_answerable(v, s),
        SupportedDBRequests::GetDBLocation() => v.settings.dom().contains("FilesLoc"@) && v.settings["FilesLoc"@].param.is_some(),
        _ => true,
    }
}

/// The reply to a request and the database it leaves, given the database
/// `v` it found.
pub open spec fn reply_ok(v: DbView, w: DbView, req: SupportedDBRequests, r: DbReply) -> bool {
    match req {
        SupportedDBRequests::GetTagId(id) => w == v && r == DbReply::Tag(opt_get(v.tags, id)),
        SupportedDBRequests::PutTag(t, ns, addtodb, id) =>
            (r == DbReply::Number(tag_add_spec(v, t, ns, addtodb, id).0)) && w == tag_add_spec(v, t, ns, addtodb, id).1,
        SupportedDBRequests::GetTagName((t, ns)) => w == v && r == DbReply::Id(tag_id_for(v.tags, t@, ns)),
        SupportedDBRequests::RelationshipAdd(file, tag, addtodb) =>
            r == DbReply::Flag(true) && w == relationship_add_spec(v, file, tag, addtodb),
        SupportedDBRequests::RelationshipGetTagid(id) => w == v && (r matches DbReply::Ids(o) && opt_ids(o) == nonempty(tags_of_file(v, id))),
        SupportedDBRequests::RelationshipGetFileid(id) => w == v && (r matches DbReply::Ids(o) && opt_ids(o) == nonempty(files_of_tag(v, id))),
        SupportedDBRequests::GetFile(id) => w == v && r == DbReply::File(opt_get(v.files, id)),
        SupportedDBRequests::GetFileHash(h) => w == v && r == DbReply::Id(file_id_for(v.files, h@)),
        SupportedDBRequests::GetNamespace(name) => w == v && r == DbReply::Id(ns_id_for(v.namespaces, name@)),
        SupportedDBRequests::CreateNamespace(name, d, addtodb) =>
            (r == DbReply::Number(namespace_add_spec(v, name, d, addtodb).0)) && w == namespace_add_spec(v, name, d, addtodb).1,
        SupportedDBRequests::GetNamespaceTagIDs(id) => w == v && (r matches DbReply::Ids(o) && opt_ids(o) == nonempty(tags_of_namespace(v, id))),
        SupportedDBRequests::GetNamespaceString(id) => w == v && r == DbReply::Namespace(opt_get(v.namespaces, id)),
        SupportedDBRequests::SettingsGetName(name) => w == v && (r matches DbReply::Setting(o) && match o {
            Some(st) => v.settings.dom().contains(name@) && setting_view(st) == v.settings[name@],
            None => !v.settings.dom().contains(name@),
        }),
        SupportedDBRequests::SettingsSet(name, pretty, num, param, addtodb) =>
            r == DbReply::Flag(true) && w == setting_add_spec(v, DbSettingObj { name: name, pretty: pretty, num: num, param: param }, addtodb),
        SupportedDBRequests::LoadTable(t) => w == v && r == DbReply::Load(t),
        SupportedDBRequests::TestUsize() => w == v && r == DbReply::Number(32),
        SupportedDBRequests::GetFileListId() => w == v && (r matches DbReply::AllIds(s) && s@ == v.files.dom()),
        SupportedDBRequests::GetFileListAll() => w == v && (r matches DbReply::AllFiles(fs) && {
            &&& forall|i: int| 0 <= i < fs@.len() ==> (#[trigger] fs@[i]).id.is_some()
                && v.files.dom().contains(fs@[i].id.unwrap()) && v.files[fs@[i].id.unwrap()] == fs@[i]
            &&& forall|k: usize| #[trigger] v.files.dom().contains(k) ==> exists|i: int| 0 <= i < fs@.len() && fs@[i].id == Some(k)
            &&& forall|i: int, j: int| 0 <= i < j < fs@.len() ==> fs@[i].id != fs@[j].id
        }),
        SupportedDBRequests::TransactionFlush() => w == flushed(v) && r == DbReply::Flag(true),
        SupportedDBRequests::GetDBLocation() => w == v && (r matches DbReply::Text(s) && s@ == v.settings["FilesLoc"@].param.unwrap()),
        SupportedDBRequests::Logging(line) => w == v && r == (DbReply::Log { line: line, print: true }),
        SupportedDBRequests::LoggingNoPrint(line) => w == v && r == (DbReply::Log { line: line, print: false }),
        SupportedDBRequests::Search((s, _l, _o)) => w == v && (r matches DbReply::Ids(o) && opt_ids(o) == nonempty(search_result(v, s))),
        SupportedDBRequests::GetFileByte(id) => w == v && r == (DbReply::FileOnDisk { row: opt_get(v.files, id), bytes: true }),
        SupportedDBRequests::GetFileLocation(id) => w == v && r == (DbReply::FileOnDisk { row: opt_get(v.files, id), bytes: false }),
    }
}

/// Whether the database can answer a request: room for a new id, an
/// answerable search, a stored files location.
pub fn request_answerable(db: &Main, req: &SupportedDBRequests) -> (b: bool)
    requires
        db.wf(),
    ensures
        b == request_ok(db@, *req),
{
    match req {
        SupportedDBRequests::PutTag(t, ns, _addtodb, id) => {
            match db.tag_get_name(t.clone(), *ns) {
                Some(_) => true,
                None => match id {
                    Some(i) => *i < usize::MAX,
                    None => db.tag_next_get() < usize::MAX,
                },
            }
        },
        SupportedDBRequests::CreateNamespace(name, _d, _a) => {
            match db.namespace_get(name) {
                Some(_) => true,
                None => db.ns_next_get() < usize::MAX,
            }
        },
        SupportedDBRequests::Search((s, _l, _o)) => db.search_answerable_exec(s),
        SupportedDBRequests::GetDBLocation() => {
            let key = String::from_str("FilesLoc");
            match db.settings_get_name(&key) {
                Some(st) => st.param.is_some(),
                None => false,
            }
        },
        _ => true,
    }
}

/// The database behind the plugin server.
pub struct DbInteract {
    _database: Main,
}

/// The plugin server's state: the database it answers from.
pub struct PluginIpcInteract {
    db_interface: DbInteract,
}

fn copy_opt_file(o: Option<&DbFileObj>) -> (r: Option<DbFileObj>)
    ensures
        match o {
            Some(f) => r == Some(*f),
            None => r.is_none(),
        },
{
    match o {
        Some(f) => Some(f.copied()),
        None => None,
    }
}

impl DbInteract {
    pub closed spec fn view(&self) -> DbView {
        self._database@
    }

    pub closed spec fn wf(&self) -> bool {
        self._database.wf()
    }

    /// A well-formed interface has a well-formed abstract state.
    pub proof fn lemma_wf(&self)
        requires
            self.wf(),
        ensures
            view_wf(self@),
    {
        self._database.lemma_wf();
    }

    /// Carries out a database request and gives its reply.
    pub fn dbactions_to_function(&mut self, dbaction: SupportedDBRequests) -> (r: DbReply)
        requires
            old(self).wf(),
            request_ok(old(self)@, dbaction),
        ensures
            final(self).wf(),
            reply_ok(old(self)@, final(self)@, dbaction, r),
    {
        let db = &mut self._database;
        match dbaction {
            SupportedDBRequests::GetFileLocation(id) => DbReply::FileOnDisk { row: copy_opt_file(db.file_get_id(&id)), bytes: false },
            SupportedDBRequests::GetFileByte(id) => DbReply::FileOnDisk { row: copy_opt_file(db.file_get_id(&id)), bytes: true },
            SupportedDBRequests::Search((search, limit, offset)) => DbReply::Ids(db.search_db_files(search, limit, offset)),
            SupportedDBRequests::GetTagId(id) => {
                let t = match db.tag_id_get(&id) {
                    Some(t) => Some(t.copied()),
                    None => None,
                };
                DbReply::Tag(t)
            },
            SupportedDBRequests::Logging(line) => DbReply::Log { line: line, print: true },
            SupportedDBRequests::LoggingNoPrint(line) => DbReply::Log { line: line, print: false },
            SupportedDBRequests::RelationshipAdd(file, tag, addtodb) => {
                db.relationship_add(file, tag, addtodb);
                DbReply::Flag(true)
            },
            SupportedDBRequests::PutTag(tags, namespace_id, addtodb, id) => DbReply::Number(db.tag_add(tags, namespace_id, addtodb, id)),
            SupportedDBRequests::GetDBLocation() => DbReply::Text(db.location_get()),
            SupportedDBRequests::SettingsSet(name, pretty, num, param, addtodb) => {
                db.setting_add(name, pretty, num, param, addtodb);
                DbReply::Flag(true)
            },
            SupportedDBRequests::RelationshipGetTagid(id) => {
                let r = db.relationship_get_tagid(&id);
                proof {
                    if r.is_none() {
                        assert(nonempty(tags_of_file(db@, id)).is_none());
                    }
                }
                DbReply::Ids(r)
            },
            SupportedDBRequests::GetFile(id) => DbReply::File(copy_opt_file(db.file_get_id(&id))),
            SupportedDBRequests::RelationshipGetFileid(id) => DbReply::Ids(db.relationship_get_fileid(&id)),
            SupportedDBRequests::SettingsGetName(name) => {
                let st = match db.settings_get_name(&name) {
                    Some(st) => Some(st.copied()),
                    None => None,
                };
                DbReply::Setting(st)
            },
            SupportedDBRequests::GetTagName((name, namespace)) => DbReply::Id(db.tag_get_name(name, namespace)),
            SupportedDBRequests::GetFileHash(name) => DbReply::Id(db.file_get_hash(&name)),
            SupportedDBRequests::CreateNamespace(name, description, addtodb) => DbReply::Number(db.namespace_add(name, description, addtodb)),
            SupportedDBRequests::GetNamespace(name) => DbReply::Id(db.namespace_get(&name)),
            SupportedDBRequests::TestUsize() => DbReply::Number(32),
            SupportedDBRequests::GetNamespaceString(id) => {
                let n = match db.namespace_get_string(&id) {
                    Some(n) => Some(n.copied()),
                    None => None,
                };
                DbReply::Namespace(n)
            },
            SupportedDBRequests::LoadTable(table) => DbReply::Load(table),
            SupportedDBRequests::TransactionFlush() => {
                db.transaction_flush();
                DbReply::Flag(true)
            },
            SupportedDBRequests::GetNamespaceTagIDs(id) => DbReply::Ids(db.namespage_get_tagids(&id)),
            SupportedDBRequests::GetFileListId() => DbReply::AllIds(db.file_get_list_id()),
            SupportedDBRequests::GetFileListAll() => DbReply::AllFiles(db.file_rows()),
        }
    }
}

impl PluginIpcInteract {
    pub closed spec fn view(&self) -> DbView {
        self.db_interface@
    }

    pub closed spec fn wf(&self) -> bool {
        self.db_interface.wf()
    }

    /// A well-formed server has a well-formed abstract state.
    pub proof fn lemma_wf(&self)
        requires
            self.wf(),
        ensures
            view_wf(self@),
    {
        self.db_interface.lemma_wf();
    }

    /// A server answering from `main_db`.
    pub fn new(main_db: Main) -> (r: Self)
        requires
            main_db.wf(),
        ensures
            r.wf(),
            r@ == main_db@,
    {
        PluginIpcInteract { db_interface: DbInteract { _database: main_db } }
    }

    /// The database answered from.
    pub fn database(&mut self) -> (r: &mut Main)
        requires
            old(self).wf(),
        ensures
            r.wf(),
            r@ == old(self)@,
            final(self)@ == final(r)@,
            final(self).wf() == final(r).wf(),
    {
        &mut self.db_interface._database
    }

    /// Whether a request can be answered (see `request_ok`); a request
    /// between plugins always can.
    pub fn answerable(&mut self, req: &SupportedRequests) -> (b: bool)
        requires
            old(self).wf(),
        ensures
            final(self).wf(),
            final(self)@ == old(self)@,
            b == (*req matches SupportedRequests::Database(d) ==> request_ok(old(self)@, d)),
    {
        match req {
            SupportedRequests::Database(d) => request_answerable(&self.db_interface._database, d),
            SupportedRequests::PluginCross(_) => true,
        }
    }

    /// Answers a request: a database request gets its reply; a request
    /// between plugins gets none.
    pub fn answer(&mut self, req: SupportedRequests) -> (r: Option<DbReply>)
        requires
            old(self).wf(),
            req matches SupportedRequests::Database(d) ==> request_ok(old(self)@, d),
        ensures
            final(self).wf(),
            match req {
                SupportedRequests::Database(d) => r matches Some(x) && reply_ok(old(self)@, final(self)@, d, x),
                SupportedRequests::PluginCross(_) => r.is_none() && final(self)@ == old(self)@,
            },
    {
        match req {
            SupportedRequests::Database(d) => Some(self.db_interface.dbactions_to_function(d)),
            SupportedRequests::PluginCross(_) => None,
        }
    }
}

/// A plugin that adds a tag and then asks for it by name and namespace gets
/// the id the addition answered.
pub proof fn law_put_tag_then_get(v: DbView, w: DbView, w2: DbView, name: String, ns: usize, addtodb: bool, id: Option<usize>, r1: DbReply, r2: DbReply)
    requires
        view_wf(v),
        request_ok(v, SupportedDBRequests::PutTag(name, ns, addtodb, id)),
        reply_ok(v, w, SupportedDBRequests::PutTag(name, ns, addtodb, id), r1),
        reply_ok(w, w2, SupportedDBRequests::GetTagName((name, ns)), r2),
    ensures
        r1 matches DbReply::Number(n) && r2 == DbReply::Id(Some(n)),
{
    law_tag_add_reads_back(v, name, ns, addtodb, id);
}

/// A plugin that creates a namespace and then asks for it by name gets the
/// id the creation answered.
pub proof fn law_create_namespace_then_get(v: DbView, w: DbView, w2: DbView, name: String, d: Option<String>, addtodb: bool, r1: DbReply, r2: DbReply)
    requires
        view_wf(v),
        request_ok(v, SupportedDBRequests::CreateNamespace(name, d, addtodb)),
        reply_ok(v, w, SupportedDBRequests::CreateNamespace(name, d, addtodb), r1),
        reply_ok(w, w2, SupportedDBRequests::GetNamespace(name), r2),
    ensures
        r1 matches DbReply::Number(n) && r2 == DbReply::Id(Some(n)),
{
    law_namespace_add_reads_back(v, name, d, addtodb);
}

/// A plugin that stores a setting and then asks for it by name gets it
/// back as stored.
pub proof fn law_set_setting_then_get(v: DbView, w: DbView, w2: DbView, s: DbSettingObj, addtodb: bool, r1: DbReply, r2: DbReply)
    requires
        reply_ok(v, w, SupportedDBRequests::SettingsSet(s.name, s.pretty, s.num, s.param, addtodb), r1),
        reply_ok(w, w2, SupportedDBRequests::SettingsGetName(s.name), r2),
    ensures
        r1 == DbReply::Flag(true),
        r2 matches DbReply::Setting(Some(st)) && setting_view(st) == setting_view(s),
{
}

/// A request that only reads leaves the database as it was.
pub proof fn law_reads_change_nothing(v: DbView, w: DbView, req: SupportedDBRequests, r: DbReply)
    requires
        reply_ok(v, w, req, r),
        !(req is PutTag || req is RelationshipAdd || req is CreateNamespace || req is SettingsSet || req is TransactionFlush),
    ensures
        w == v,
{
}

/// The reply to the request `client::tag_add` builds is the id that
/// `Main::tag_add` gives on the server's database, and the database is left
/// as `Main::tag_add` leaves it.
pub proof fn law_client_tag_add(v: DbView, w: DbView, tag: String, ns: usize, addtodb: bool, id: Option<usize>, r: DbReply)
    requires
        reply_ok(v, w, SupportedDBRequests::PutTag(tag, ns, addtodb, id), r),
    ensures
        r == DbReply::Number(tag_add_spec(v, tag, ns, addtodb, id).0),
        w == tag_add_spec(v, tag, ns, addtodb, id).1,
{
}

/// The reply to the request `client::namespace_put` builds is the id that
/// `Main::namespace_add` gives on the server's database, the database is
/// left as `Main::namespace_add` leaves it, and the name then reads back as
/// that id.
pub proof fn law_client_namespace_put(v: DbView, w: DbView, name: String, d: Option<String>, addtodb: bool, r: DbReply)
    requires
        view_wf(v),
        request_ok(v, SupportedDBRequests::CreateNamespace(name, d, addtodb)),
        reply_ok(v, w, SupportedDBRequests::CreateNamespace(name, d, addtodb), r),
    ensures
        r == DbReply::Number(namespace_add_spec(v, name, d, addtodb).0),
        w == namespace_add_spec(v, name, d, addtodb).1,
        ns_id_for(w.namespaces, name@) == Some(namespace_add_spec(v, name, d, addtodb).0),
{
    law_namespace_add_reads_back(v, name, d, addtodb);
}

/// The reply to the request `client::search_db_files` builds holds the
/// files `Main::search_db_files` finds on the server's database (none when
/// it finds none), and the database is left as it was.
pub proof fn law_client_search(v: DbView, w: DbView, search: SearchObj, limit: Option<usize>, offset: Option<usize>, r: DbReply)
    requires
        reply_ok(v, w, SupportedDBRequests::Search((search, limit, offset)), r),
    ensures
        w == v,
        r matches DbReply::Ids(o) && opt_ids(o) == nonempty(search_result(v, search)),
{
}

} // verus!
