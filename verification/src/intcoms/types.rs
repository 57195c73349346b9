//! The messages exchanged with plugins.

use vstd::prelude::*;
use std::collections::HashSet;
use crate::sharedtypes::{DbFileObj, DbNamespaceObj, DbSettingObj, DbTagNNS, LoadDBTable, SearchObj};

verus! {

/// Which ways a connection carries data.
#[derive(Debug, Clone, Copy, PartialEq, Eq, Structural)]
pub enum EComType {
    SendOnly,
    RecieveOnly,
    BiDirectional,
    NoComs,
}

/// Control signals of a connection.
#[derive(Debug, Clone, Copy, PartialEq, Eq, Structural)]
pub enum EControlSigs {
    /// Sending data to and fro.
    Send,
    /// Come to a stop naturally.
    Halt,
    /// Stop now.
    Break,
}

/// The header of an exchange.
#[derive(Debug, Clone, Copy, PartialEq, Eq, Structural)]
pub struct Coms {
    pub com_type: EComType,
    pub control: EControlSigs,
}

/// The database operations a plugin can ask for.
#[derive(Debug)]
pub enum SupportedDBRequests {
    GetTagId(usize),
    PutTag(String, usize, bool, Option<usize>),
    GetTagName((String, usize)),
    RelationshipAdd(usize, usize, bool),
    RelationshipGetTagid(usize),
    RelationshipGetFileid(usize),
    GetFile(usize),
    GetFileHash(String),
    GetNamespace(String),
    CreateNamespace(String, Option<String>, bool),
    GetNamespaceTagIDs(usize),
    GetNamespaceString(usize),
    SettingsGetName(String),
    SettingsSet(String, Option<String>, Option<usize>, Option<String>, bool),
    LoadTable(LoadDBTable),
    TestUsize(),
    GetFileListId(),
    GetFileListAll(),
    TransactionFlush(),
    GetDBLocation(),
    Logging(String),
    LoggingNoPrint(String),
    Search((SearchObj, Option<usize>, Option<usize>)),
    GetFileByte(usize),
    GetFileLocation(usize),
}

/// Requests between plugins. No request is defined; the one value stands
/// for that.
#[derive(Debug)]
pub enum SupportedPluginRequests {
    NoRequest,
}

/// A request sent to the server.
#[derive(Debug)]
pub enum SupportedRequests {
    Database(SupportedDBRequests),
    PluginCross(SupportedPluginRequests),
}

/// Data returned by the database.
#[derive(Debug)]
pub enum DBReturns {
    GetTagId(Option<DbTagNNS>),
    GetTagName(Option<usize>),
    RelationshipGetTagid(Option<HashSet<usize>>),
    RelationshipGetFileid(Option<HashSet<usize>>),
    GetFile(Option<DbFileObj>),
    GetFileHash(Option<usize>),
    GetNamespaceTagIDs(HashSet<usize>),
    GetNamespace(Option<usize>),
    GetNamespaceString(Option<DbNamespaceObj>),
    SettingsGetName(Option<DbSettingObj>),
    LoadTable(bool),
}

/// Everything that can be returned.
#[derive(Debug)]
pub enum AllReturns {
    DB(DBReturns),
    Plugin(SupportedPluginRequests),
    Nune,
}

/// Raw bytes, or nothing.
pub enum EfficientDataReturn {
    Data(Vec<u8>),
    Nothing,
}

/// The header every client sends: both ways, sending.
pub fn coms_default() -> (r: Coms)
    ensures
        r == (Coms { com_type: EComType::BiDirectional, control: EControlSigs::Send }),
{
    Coms { com_type: EComType::BiDirectional, control: EControlSigs::Send }
}

} // verus!
