//! The client side: each function builds the request that asks the server
//! for one database operation. Sending it and reading the reply is done by
//! the caller over the socket named by `socket_name`.

use vstd::prelude::*;
use crate::intcoms::types::{SupportedDBRequests, SupportedRequests};
use crate::sharedtypes::{LoadDBTable, SearchObj};

verus! {

/// Whether local sockets on this platform are named by filesystem paths
/// only, as `interprocess`'s `NameTypeSupport::query` reports it. Nothing is
/// claimed of the answer, which depends on the platform.
#[verifier::external_body]
fn platform_only_paths() -> bool {
    matches!(interprocess::local_socket::NameTypeSupport::query(), interprocess::local_socket::NameTypeSupport::OnlyPaths)
}

/// The socket's name where sockets are named by paths only, or not.
pub open spec fn socket_name_spec(only_paths: bool) -> Seq<char> {
    if only_paths { "/tmp/RustHydrus.sock"@ } else { "@RustHydrus.sock"@ }
}

/// The socket's name given how the platform names sockets.
pub fn socket_name_for(only_paths: bool) -> (r: String)
    ensures
        r@ == socket_name_spec(only_paths),
{
    if only_paths { String::from_str("/tmp/RustHydrus.sock") } else { String::from_str("@RustHydrus.sock") }
}

/// The name of the server's socket on this platform: a path where only
/// paths are supported, a namespaced name otherwise.
pub fn socket_name() -> (r: String)
    ensures
        r@ == socket_name_spec(true) || r@ == socket_name_spec(false),
{
    socket_name_for(platform_only_paths())
}

/// The request: Searches files by tags (see the database's search).
pub fn search_db_files(search: SearchObj, limit: Option<usize>, offset: Option<usize>) -> (r: SupportedRequests)
    ensures
        r == SupportedRequests::Database(SupportedDBRequests::Search((search, limit, offset))),
{
    SupportedRequests::Database(SupportedDBRequests::Search((search, limit, offset)))
}

/// The request: Loads a table into memory.
pub fn load_table(table: LoadDBTable) -> (r: SupportedRequests)
    ensures
        r == SupportedRequests::Database(SupportedDBRequests::LoadTable(table)),
{
    SupportedRequests::Database(SupportedDBRequests::LoadTable(table))
}

/// The request: The location of a file's bytes.
pub fn get_file(fileid: usize) -> (r: SupportedRequests)
    ensures
        r == SupportedRequests::Database(SupportedDBRequests::GetFileLocation(fileid)),
{
    SupportedRequests::Database(SupportedDBRequests::GetFileLocation(fileid))
}

/// The request: A file's bytes.
pub fn get_file_bytes(fileid: usize) -> (r: SupportedRequests)
    ensures
        r == SupportedRequests::Database(SupportedDBRequests::GetFileByte(fileid)),
{
    SupportedRequests::Database(SupportedDBRequests::GetFileByte(fileid))
}

/// The request: The namespace with an id.
pub fn namespace_get_string(id: usize) -> (r: SupportedRequests)
    ensures
        r == SupportedRequests::Database(SupportedDBRequests::GetNamespaceString(id)),
{
    SupportedRequests::Database(SupportedDBRequests::GetNamespaceString(id))
}

/// The request: Logs a line, printing it too.
pub fn log(msg: String) -> (r: SupportedRequests)
    ensures
        r == SupportedRequests::Database(SupportedDBRequests::Logging(msg)),
{
    SupportedRequests::Database(SupportedDBRequests::Logging(msg))
}

/// The request: Logs a line without printing it.
pub fn log_no_print(msg: String) -> (r: SupportedRequests)
    ensures
        r == SupportedRequests::Database(SupportedDBRequests::LoggingNoPrint(msg)),
{
    SupportedRequests::Database(SupportedDBRequests::LoggingNoPrint(msg))
}

/// The request: Stores a setting.
pub fn setting_add(name: String, pretty: Option<String>, num: Option<usize>, param: Option<String>, addtodb: bool) -> (r: SupportedRequests)
    ensures
        r == SupportedRequests::Database(SupportedDBRequests::SettingsSet(name, pretty, num, param, addtodb)),
{
    SupportedRequests::Database(SupportedDBRequests::SettingsSet(name, pretty, num, param, addtodb))
}

/// The request: The id of the namespace with a name.
pub fn namespace_get(name: String) -> (r: SupportedRequests)
    ensures
        r == SupportedRequests::Database(SupportedDBRequests::GetNamespace(name)),
{
    SupportedRequests::Database(SupportedDBRequests::GetNamespace(name))
}

/// The request: Adds a namespace.
pub fn namespace_put(name: String, description: Option<String>, addtodb: bool) -> (r: SupportedRequests)
    ensures
        r == SupportedRequests::Database(SupportedDBRequests::CreateNamespace(name, description, addtodb)),
{
    SupportedRequests::Database(SupportedDBRequests::CreateNamespace(name, description, addtodb))
}

/// The request: A test request answered with a fixed number.
pub fn testusize() -> (r: SupportedRequests)
    ensures
        r == SupportedRequests::Database(SupportedDBRequests::TestUsize()),
{
    SupportedRequests::Database(SupportedDBRequests::TestUsize())
}

/// The request: Commits what is pending.
pub fn transaction_flush() -> (r: SupportedRequests)
    ensures
        r == SupportedRequests::Database(SupportedDBRequests::TransactionFlush()),
{
    SupportedRequests::Database(SupportedDBRequests::TransactionFlush())
}

/// The request: Relates a file to a tag.
pub fn relationship_add_db(file: usize, tag: usize, addtodb: bool) -> (r: SupportedRequests)
    ensures
        r == SupportedRequests::Database(SupportedDBRequests::RelationshipAdd(file, tag, addtodb)),
{
    SupportedRequests::Database(SupportedDBRequests::RelationshipAdd(file, tag, addtodb))
}

/// The request: The ids of all files.
pub fn file_get_list_id() -> (r: SupportedRequests)
    ensures
        r == SupportedRequests::Database(SupportedDBRequests::GetFileListId()),
{
    SupportedRequests::Database(SupportedDBRequests::GetFileListId())
}

/// The request: The files carrying a tag.
pub fn relationship_get_fileid(id: usize) -> (r: SupportedRequests)
    ensures
        r == SupportedRequests::Database(SupportedDBRequests::RelationshipGetFileid(id)),
{
    SupportedRequests::Database(SupportedDBRequests::RelationshipGetFileid(id))
}

/// The request: The id of a tag by name and namespace.
pub fn tag_get_name(tag: String, namespaceid: usize) -> (r: SupportedRequests)
    ensures
        r == SupportedRequests::Database(SupportedDBRequests::GetTagName((tag, namespaceid))),
{
    SupportedRequests::Database(SupportedDBRequests::GetTagName((tag, namespaceid)))
}

/// The request: All files.
pub fn file_get_list_all() -> (r: SupportedRequests)
    ensures
        r == SupportedRequests::Database(SupportedDBRequests::GetFileListAll()),
{
    SupportedRequests::Database(SupportedDBRequests::GetFileListAll())
}

/// The request: A setting by name.
pub fn settings_get_name(name: String) -> (r: SupportedRequests)
    ensures
        r == SupportedRequests::Database(SupportedDBRequests::SettingsGetName(name)),
{
    SupportedRequests::Database(SupportedDBRequests::SettingsGetName(name))
}

/// The request: A tag by id.
pub fn tag_get_id(id: usize) -> (r: SupportedRequests)
    ensures
        r == SupportedRequests::Database(SupportedDBRequests::GetTagId(id)),
{
    SupportedRequests::Database(SupportedDBRequests::GetTagId(id))
}

/// The request: The tags of a namespace.
pub fn namespace_get_tagids(id: usize) -> (r: SupportedRequests)
    ensures
        r == SupportedRequests::Database(SupportedDBRequests::GetNamespaceTagIDs(id)),
{
    SupportedRequests::Database(SupportedDBRequests::GetNamespaceTagIDs(id))
}

/// The request: Where files are stored.
pub fn location_get() -> (r: SupportedRequests)
    ensures
        r == SupportedRequests::Database(SupportedDBRequests::GetDBLocation()),
{
    SupportedRequests::Database(SupportedDBRequests::GetDBLocation())
}

/// The request: Adds a tag.
pub fn tag_add(tag: String, namespace_id: usize, addtodb: bool, id: Option<usize>) -> (r: SupportedRequests)
    ensures
        r == SupportedRequests::Database(SupportedDBRequests::PutTag(tag, namespace_id, addtodb, id)),
{
    SupportedRequests::Database(SupportedDBRequests::PutTag(tag, namespace_id, addtodb, id))
}

} // verus!
