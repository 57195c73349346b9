//! The file-information plugin: the namespaces it fills, and the width and
//! height it reads from downloaded images.

use vstd::prelude::*;
use crate::intcoms::client;
use crate::intcoms::types::{SupportedDBRequests, SupportedRequests};
use crate::sharedtypes::{
    DBPluginOutput, DBPluginOutputEnum, DBPluginTagOut, DbPluginNamespace, DbPluginRelationshipObj, PluginCallback,
    PluginCommunicationChannel, PluginFileObj, PluginInfo, PluginSharedData, PluginThreadType, opt_text,
};
use crate::text::{dec, u64_to_string};

verus! {

/// What the plugin says of itself: its name and description, version 1.00
/// of itself and of the interface, called on start and on download, run in
/// line, talking over the pipe `beans`.
pub fn return_info() -> (r: PluginInfo)
    ensures
        r.name@ == "File Info"@,
        r.description@ == "Gets information from a file."@,
        r.version == 100,
        r.api_version == 100,
        r.callbacks@ == seq![PluginCallback::OnStart, PluginCallback::OnDownload],
        r.communication matches Some(c) && c.thread == PluginThreadType::Inline
            && (c.com_channel matches Some(PluginCommunicationChannel::Pipe(p)) && p@ == "beans"@),
{
    let callbackvec = vec![PluginCallback::OnStart, PluginCallback::OnDownload];
    PluginInfo {
        name: String::from_str("File Info"),
        description: String::from_str("Gets information from a file."),
        version: 100,
        api_version: 100,
        callbacks: callbackvec,
        communication: Some(PluginSharedData {
            thread: PluginThreadType::Inline,
            com_channel: Some(PluginCommunicationChannel::Pipe(String::from_str("beans"))),
        }),
    }
}

/// The facts the plugin keeps.
#[derive(Debug, Clone, Copy, PartialEq, Eq, Structural)]
pub enum Supset {
    Width,
    Height,
    ImportTime,
    Create,
    CreatorCreate,
}

/// A namespace the plugin keeps a fact under.
pub struct SettingInfo {
    pub name: String,
    pub description: Option<String>,
}

pub open spec fn set_name(s: Supset) -> Seq<char> {
    match s {
        Supset::Width => "FileInfo-Parse-Width"@,
        Supset::Height => "FileInfo-Parse-Height"@,
        Supset::ImportTime => "FileInfo-Parse-ImportTime"@,
        Supset::Create => "FileInfo-Parse-Create"@,
        Supset::CreatorCreate => "FileInfo-Parse-Creator-Create"@,
    }
}

pub open spec fn set_description(s: Supset) -> Seq<char> {
    match s {
        Supset::Width => "From plugin FileInfo. The width of a file."@,
        Supset::Height => "From plugin FileInfo. The height of a file."@,
        Supset::ImportTime => "From plugin FileInfo. The importation time of the file. Doubles as the last modified time if importing for the first time. Stored as a UNIX_EPOCH"@,
        Supset::Create => "From plugin FileInfo. The creation time of the file. Stored as a UNIX_EPOCH timestamp"@,
        Supset::CreatorCreate => "From plugin FileInfo. The creator creation time of the file. IE When the actual file was made by the creator. Sometimes this is embedded into a video file."@,
    }
}

fn set_texts(inp: Supset) -> (r: (&'static str, &'static str))
    ensures
        r.0@ == set_name(inp),
        r.1@ == set_description(inp),
{
    match inp {
        Supset::Width => ("FileInfo-Parse-Width", "From plugin FileInfo. The width of a file."),
        Supset::Height => ("FileInfo-Parse-Height", "From plugin FileInfo. The height of a file."),
        Supset::ImportTime => ("FileInfo-Parse-ImportTime", "From plugin FileInfo. The importation time of the file. Doubles as the last modified time if importing for the first time. Stored as a UNIX_EPOCH"),
        Supset::Create => ("FileInfo-Parse-Create", "From plugin FileInfo. The creation time of the file. Stored as a UNIX_EPOCH timestamp"),
        Supset::CreatorCreate => ("FileInfo-Parse-Creator-Create", "From plugin FileInfo. The creator creation time of the file. IE When the actual file was made by the creator. Sometimes this is embedded into a video file."),
    }
}

/// The namespace of a fact.
pub fn get_set(inp: Supset) -> (r: SettingInfo)
    ensures
        r.name@ == set_name(inp),
        opt_text(r.description) == Some(set_description(inp)),
{
    let (n, d) = set_texts(inp);
    SettingInfo { name: String::from_str(n), description: Some(String::from_str(d)) }
}

/// The width and height `image::load_from_memory` decodes from bytes, or
/// `None` where it cannot decode them.
pub uninterp spec fn image_size_of(b: Seq<u8>) -> Option<(u32, u32)>;

/// `image::load_from_memory`, then `width` and `height`.
#[verifier::external_body]
fn image_size(bytes: &[u8]) -> (r: Option<(u32, u32)>)
    ensures
        r == image_size_of(bytes@),
{
    match image::load_from_memory(bytes) {
        Ok(img) => Some((img.width(), img.height())),
        Err(_) => None,
    }
}

/// The output that records one size of a file: the file by hash and
/// extension, the fact's namespace, the size as a tag in it, and the file
/// related to the tag.
pub open spec fn size_output_ok(o: DBPluginOutput, hash: Seq<char>, ext: Seq<char>, n: u32, s: Supset) -> bool {
    &&& o.file matches Some(fs) && fs@.len() == 1 && fs@[0].id.is_none() && opt_text(fs@[0].hash) == Some(hash)
        && opt_text(fs@[0].ext) == Some(ext) && fs@[0].location.is_none()
    &&& o.jobs.is_none()
    &&& o.parents.is_none()
    &&& o.setting.is_none()
    &&& o.namespace matches Some(ns) && ns@.len() == 1 && ns@[0].name@ == set_name(s)
        && opt_text(ns@[0].description) == Some(set_description(s))
    &&& o.tag matches Some(ts) && ts@.len() == 1 && ts@[0].name@ == dec(n as nat) && ts@[0].namespace@ == set_name(s)
        && ts@[0].parents.is_none()
    &&& o.relationship matches Some(rs) && rs@.len() == 1 && rs@[0].file_hash@ == hash && rs@[0].tag_name@ == dec(n as nat)
        && rs@[0].tag_namespace@ == set_name(s)
}

fn size_output(hash_in: &String, ext_in: &String, n: u32, s: Supset) -> (o: DBPluginOutput)
    ensures
        size_output_ok(o, hash_in@, ext_in@, n, s),
{
    let text = u64_to_string(n as u64);
    DBPluginOutput {
        file: Some(vec![PluginFileObj { id: None, hash: Some(hash_in.clone()), ext: Some(ext_in.clone()), location: None }]),
        jobs: None,
        namespace: Some(vec![DbPluginNamespace { name: get_set(s).name, description: get_set(s).description }]),
        parents: None,
        setting: None,
        tag: Some(vec![DBPluginTagOut { name: text.clone(), namespace: get_set(s).name, parents: None }]),
        relationship: Some(vec![DbPluginRelationshipObj { file_hash: hash_in.clone(), tag_name: text, tag_namespace: get_set(s).name }]),
    }
}

/// What the plugin stores for a downloaded file: where the bytes decode
/// as an image, its width and its height, each as a tag of the file;
/// otherwise nothing.
pub fn on_download(byte_c: &[u8], hash_in: &String, ext_in: &String) -> (r: Vec<DBPluginOutputEnum>)
    ensures
        match image_size_of(byte_c@) {
            Some((w, h)) => r@.len() == 1 && (r@[0] matches DBPluginOutputEnum::Add(outs) && outs@.len() == 2
                && size_output_ok(outs@[0], hash_in@, ext_in@, w, Supset::Width)
                && size_output_ok(outs@[1], hash_in@, ext_in@, h, Supset::Height)),
            None => r@.len() == 0,
        },
{
    let mut output: Vec<DBPluginOutputEnum> = Vec::new();
    match image_size(byte_c) {
        Some((width, height)) => {
            let width_output = size_output(hash_in, ext_in, width, Supset::Width);
            let height_output = size_output(hash_in, ext_in, height, Supset::Height);
            output.push(DBPluginOutputEnum::Add(vec![width_output, height_output]));
        },
        None => {},
    }
    output
}

/// The line logged where a download's size cannot be read.
pub fn size_failure_line(hash_in: &String) -> (r: String)
    ensures
        r@ == "FileInfo - Couldn't parse size from: "@ + hash_in@,
{
    let mut r = String::from_str("FileInfo - Couldn't parse size from: ");
    r.append(hash_in.as_str());
    r
}

/// A namespace the plugin makes sure of.
pub struct TableData {
    pub name: String,
    pub description: Option<String>,
}

/// The first request in making sure a namespace exists: asking for its id.
pub fn check_existing_db_table(table: &TableData) -> (r: SupportedRequests)
    ensures
        r matches SupportedRequests::Database(SupportedDBRequests::GetNamespace(n)) && n@ == table.name@,
{
    client::namespace_get(table.name.clone())
}

/// The next request once the id was asked for: none where it was found;
/// otherwise adding the namespace (written to the file). A flush follows
/// either way.
pub fn check_existing_db_table_then(table: TableData, found: Option<usize>) -> (r: Option<SupportedRequests>)
    ensures
        match found {
            Some(_) => r.is_none(),
            None => r matches Some(SupportedRequests::Database(SupportedDBRequests::CreateNamespace(n, d, true)))
                && n@ == table.name@ && opt_text(d) == opt_text(table.description),
        },
{
    match found {
        Some(_) => None,
        None => Some(client::namespace_put(table.name, table.description, true)),
    }
}

} // verus!
