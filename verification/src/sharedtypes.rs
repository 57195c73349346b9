//! Data types shared by the database, the scrapers, the plugins and the
//! request channel.

use vstd::prelude::*;

verus! {

/// Whether a scraper is driven by the job runner or handles its own calls.
#[derive(Debug, Clone, Copy, PartialEq, Eq, Structural)]
pub enum ScraperType {
    Manual,
    Automatic,
}

/// The name a scraper type is written with in setting names.
pub open spec fn scraper_type_name_spec(t: ScraperType) -> Seq<char> {
    match t {
        ScraperType::Manual => "Manual"@,
        ScraperType::Automatic => "Automatic"@,
    }
}

impl ScraperType {
    /// The name of the variant, as `{:?}` and `{}` print it.
    pub fn name(&self) -> (r: String)
        ensures
            r@ == scraper_type_name_spec(*self),
    {
        match self {
            ScraperType::Manual => String::from_str("Manual"),
            ScraperType::Automatic => String::from_str("Automatic"),
        }
    }
}

/// A hash together with the algorithm that produced it.
#[derive(Debug, Clone)]
pub enum HashesSupported {
    Md5(String),
    Sha1(String),
    Sha256(String),
    NoHash,
}

/// What a scraper says of the files it can regenerate tags for.
#[derive(Debug, Clone)]
pub struct ScraperFileRegen {
    pub hash: HashesSupported,
}

/// A file handed to a scraper for regeneration: its hash and extension.
#[derive(Debug, Clone)]
pub struct ScraperFileInput {
    pub hash: Option<String>,
    pub ext: Option<String>,
}

/// A namespace as scrapers and plugins name it.
#[derive(Debug, Clone)]
pub struct GenericNamespaceObj {
    pub name: String,
    pub description: Option<String>,
}

/// Kind of a scraper parameter: given by the job, or stored in the database.
#[derive(Debug, Clone, Copy, PartialEq, Eq, Structural)]
pub enum ScraperParamType {
    Normal,
    Database,
}

/// One parameter for a scraper.
#[derive(Debug, Clone)]
pub struct ScraperParam {
    pub param_data: String,
    pub param_type: ScraperParamType,
}

/// How a job's parameter is to be used.
#[derive(Debug, Clone, Copy, PartialEq, Eq, Structural)]
pub enum DbJobType {
    Params,
    Plugin,
    FileUrl,
    Scraper,
}

/// The name a job type is stored under.
pub open spec fn job_type_name_spec(t: DbJobType) -> Seq<char> {
    match t {
        DbJobType::Params => "Params"@,
        DbJobType::Plugin => "Plugin"@,
        DbJobType::FileUrl => "FileUrl"@,
        DbJobType::Scraper => "Scraper"@,
    }
}

impl DbJobType {
    /// The stored name of the job type.
    pub fn name(&self) -> (r: String)
        ensures
            r@ == job_type_name_spec(*self),
    {
        match self {
            DbJobType::Params => String::from_str("Params"),
            DbJobType::Plugin => String::from_str("Plugin"),
            DbJobType::FileUrl => String::from_str("FileUrl"),
            DbJobType::Scraper => String::from_str("Scraper"),
        }
    }
}

/// A job handed to a scraper.
#[derive(Debug, Clone)]
pub struct JobScraper {
    pub site: String,
    pub param: Vec<ScraperParam>,
    pub original_param: String,
    pub job_type: DbJobType,
}

/// A tag that, when present, makes a url job unnecessary.
#[derive(Debug, Clone)]
pub struct Tag {
    pub tag: String,
    pub namespace: GenericNamespaceObj,
    pub needsrelationship: bool,
}

/// When to skip a url job.
#[derive(Debug, Clone)]
pub enum SkipIf {
    Never,
    Tag(Tag),
}

/// Kinds of tag a scraper returns.
#[derive(Debug, Clone)]
pub enum TagType {
    Normal,
    ParseUrl(JobScraper, SkipIf),
    Special,
}

/// A tag that another tag relates to.
#[derive(Debug, Clone)]
pub struct SubTag {
    pub namespace: GenericNamespaceObj,
    pub tag: String,
    pub tag_type: TagType,
}

/// A tag returned by a scraper.
#[derive(Debug, Clone)]
pub struct TagObject {
    pub namespace: GenericNamespaceObj,
    pub relates_to: Option<SubTag>,
    pub tag: String,
    pub tag_type: TagType,
}

/// A file returned by a scraper, with its tags.
#[derive(Debug, Clone)]
pub struct FileObject {
    pub source_url: Option<String>,
    pub hash: Option<HashesSupported>,
    pub tag_list: Vec<TagObject>,
}

/// What a scraper's parser returns: files and free tags, in the order it
/// produced them.
#[derive(Debug, Clone)]
pub struct ScraperObject {
    pub file: Vec<FileObject>,
    pub tag: Vec<TagObject>,
}

/// Why a parser returned no object.
#[derive(Debug, Clone)]
pub enum ScraperReturn {
    Nothing,
    EMCStop(String),
    Stop(String),
    Timeout(u64),
}

/// The tables of the database.
#[derive(Debug, Clone, Copy, PartialEq, Eq, Structural)]
pub enum LoadDBTable {
    Files,
    Jobs,
    Namespace,
    Parents,
    Relationship,
    Settings,
    Tags,
    All,
}

/// What a job does with what it finds.
#[derive(Debug, Clone, Copy, PartialEq, Eq, Structural)]
pub enum CommitType {
    StopOnNothing,
    StopOnFile,
    SkipOnFile,
    AddToDB,
}

/// The stored name of a commit type.
pub open spec fn commit_type_name_spec(t: CommitType) -> Seq<char> {
    match t {
        CommitType::StopOnNothing => "StopOnNothing"@,
        CommitType::StopOnFile => "StopOnFile"@,
        CommitType::SkipOnFile => "SkipOnFile"@,
        CommitType::AddToDB => "AddToDB"@,
    }
}

/// The commit type stored under a name.
pub open spec fn commit_type_from_name_spec(s: Seq<char>) -> Option<CommitType> {
    if s == "StopOnNothing"@ {
        Some(CommitType::StopOnNothing)
    } else if s == "StopOnFile"@ {
        Some(CommitType::StopOnFile)
    } else if s == "SkipOnFile"@ {
        Some(CommitType::SkipOnFile)
    } else if s == "AddToDB"@ {
        Some(CommitType::AddToDB)
    } else {
        None
    }
}

/// The commit type stored under a name, if any.
pub fn commit_type_from_name(s: &String) -> (r: Option<CommitType>)
    ensures
        r == commit_type_from_name_spec(s@),
{
    let a = String::from_str("StopOnNothing");
    let b = String::from_str("StopOnFile");
    let c = String::from_str("SkipOnFile");
    let d = String::from_str("AddToDB");
    if *s == a {
        Some(CommitType::StopOnNothing)
    } else if *s == b {
        Some(CommitType::StopOnFile)
    } else if *s == c {
        Some(CommitType::SkipOnFile)
    } else if *s == d {
        Some(CommitType::AddToDB)
    } else {
        None
    }
}

impl CommitType {
    /// The stored name of the commit type.
    pub fn name(&self) -> (r: String)
        ensures
            r@ == commit_type_name_spec(*self),
    {
        match self {
            CommitType::StopOnNothing => String::from_str("StopOnNothing"),
            CommitType::StopOnFile => String::from_str("StopOnFile"),
            CommitType::SkipOnFile => String::from_str("SkipOnFile"),
            CommitType::AddToDB => String::from_str("AddToDB"),
        }
    }
}

/// A job as the database keeps it.
#[derive(Debug, Clone)]
pub struct DbJobsObj {
    pub time: Option<usize>,
    pub reptime: Option<usize>,
    pub site: Option<String>,
    pub param: Option<String>,
    pub jobtype: DbJobType,
    pub committype: Option<CommitType>,
}

/// A file row.
#[derive(Debug, Clone)]
pub struct DbFileObj {
    pub id: Option<usize>,
    pub hash: String,
    pub ext: String,
    pub location: String,
}

/// A row of the tags table as stored.
#[derive(Debug, Clone)]
pub struct DbTagObjCompatability {
    pub id: usize,
    pub name: String,
    pub parents: Option<usize>,
    pub namespace: usize,
}

/// A tag's name and namespace id.
#[derive(Debug, Clone)]
pub struct DbTagNNS {
    pub name: String,
    pub namespace: usize,
}

/// A namespace row.
#[derive(Debug, Clone)]
pub struct DbNamespaceObj {
    pub id: usize,
    pub name: String,
    pub description: Option<String>,
}

/// A setting row.
#[derive(Debug, Clone)]
pub struct DbSettingObj {
    pub name: String,
    pub pretty: Option<String>,
    pub num: Option<usize>,
    pub param: Option<String>,
}

/// A parent row: the tag `tag_id` relates to the tag `relate_tag_id`.
#[derive(Debug, Clone, Copy, PartialEq, Eq, Structural)]
pub struct DbParentsObj {
    pub tag_namespace_id: usize,
    pub tag_id: usize,
    pub relate_tag_id: usize,
    pub relate_namespace_id: usize,
}

/// A relationship row: file `fileid` carries tag `tagid`.
#[derive(Debug, Clone, Copy, PartialEq, Eq, Structural)]
pub struct DbRelationshipObj {
    pub fileid: usize,
    pub tagid: usize,
}

/// One step of a search: a pair of tag ids (or, in a relate list, a pair of
/// step numbers) combined by set intersection, union or difference.
#[derive(Debug, Clone, Copy, PartialEq, Eq)]
pub enum SearchHolder {
    AND((usize, usize)),
    OR((usize, usize)),
    NOT((usize, usize)),
}

/// A search: the steps, and how their results combine.
#[derive(Debug, Clone)]
pub struct SearchObj {
    pub searches: Vec<SearchHolder>,
    pub search_relate: Option<Vec<SearchHolder>>,
}

/// One side of an advanced search: a tag, and its namespace by name or by id.
#[derive(Debug, Clone)]
pub struct DbSearchObject {
    pub tag: String,
    pub namespace: Option<String>,
    pub namespace_id: Option<usize>,
}

/// An advanced search over two tags.
#[derive(Debug, Clone)]
pub struct DbSearchQuery {
    pub tag_one: DbSearchObject,
    pub tag_two: DbSearchObject,
}

/// How a csv import places files.
#[derive(Debug, Clone, Copy, PartialEq, Eq, Structural)]
pub enum CsvCopyMvHard {
    Copy,
    Move,
    Hardlink,
}

/// When a plugin wants to be called.
#[derive(Debug, Clone, Copy, PartialEq, Eq, Structural)]
pub enum PluginCallback {
    OnDownload,
    OnStart,
}

/// How a plugin's work is scheduled.
#[derive(Debug, Clone, Copy, PartialEq, Eq, Structural)]
pub enum PluginThreadType {
    Inline,
    Spawn,
}

/// The channel a plugin talks over.
#[derive(Debug, Clone)]
pub enum PluginCommunicationChannel {
    Pipe(String),
}

/// Scheduling and channel of a plugin.
#[derive(Debug, Clone)]
pub struct PluginSharedData {
    pub thread: PluginThreadType,
    pub com_channel: Option<PluginCommunicationChannel>,
}

/// What a plugin says of itself. Versions are kept in hundredths
/// (`100` is version 1.00).
#[derive(Debug, Clone)]
pub struct PluginInfo {
    pub name: String,
    pub description: String,
    pub version: u32,
    pub api_version: u32,
    pub callbacks: Vec<PluginCallback>,
    pub communication: Option<PluginSharedData>,
}

/// A file a plugin reports on.
#[derive(Debug, Clone)]
pub struct PluginFileObj {
    pub id: Option<usize>,
    pub hash: Option<String>,
    pub ext: Option<String>,
    pub location: Option<String>,
}

/// A namespace a plugin wants created.
#[derive(Debug, Clone)]
pub struct DbPluginNamespace {
    pub name: String,
    pub description: Option<String>,
}

/// A parent relation a plugin wants added.
#[derive(Debug, Clone)]
pub struct DbPluginParentsObj {
    pub tag_namespace_string: String,
    pub parent_name: String,
    pub parent_namespace: String,
}

/// A tag a plugin wants added.
#[derive(Debug, Clone)]
pub struct DBPluginTagOut {
    pub name: String,
    pub namespace: String,
    pub parents: Option<Vec<DbPluginParentsObj>>,
}

/// A relationship a plugin wants added.
#[derive(Debug, Clone)]
pub struct DbPluginRelationshipObj {
    pub file_hash: String,
    pub tag_name: String,
    pub tag_namespace: String,
}

/// Everything a plugin hands back to be stored.
#[derive(Debug, Clone)]
pub struct DBPluginOutput {
    pub file: Option<Vec<PluginFileObj>>,
    pub jobs: Option<Vec<DbJobsObj>>,
    pub namespace: Option<Vec<DbPluginNamespace>>,
    pub parents: Option<Vec<DbParentsObj>>,
    pub setting: Option<Vec<DbSettingObj>>,
    pub tag: Option<Vec<DBPluginTagOut>>,
    pub relationship: Option<Vec<DbPluginRelationshipObj>>,
}

/// A batch of plugin output.
#[derive(Debug, Clone)]
pub enum DBPluginOutputEnum {
    Add(Vec<DBPluginOutput>),
    Del(Vec<DBPluginOutput>),
    Nothing,
}


/// A copy of an optional string, equal to it.
pub fn copy_opt_string(o: &Option<String>) -> (r: Option<String>)
    ensures
        r == *o,
{
    match o {
        Some(s) => Some(s.clone()),
        None => None,
    }
}

impl DbJobsObj {
    /// A copy equal to this job.
    pub fn copied(&self) -> (r: Self)
        ensures
            r == *self,
    {
        DbJobsObj {
            time: self.time,
            reptime: self.reptime,
            site: copy_opt_string(&self.site),
            param: copy_opt_string(&self.param),
            jobtype: self.jobtype,
            committype: self.committype,
        }
    }
}

impl DbNamespaceObj {
    /// A copy equal to this namespace row.
    pub fn copied(&self) -> (r: Self)
        ensures
            r == *self,
    {
        DbNamespaceObj { id: self.id, name: self.name.clone(), description: copy_opt_string(&self.description) }
    }
}

impl DbSettingObj {
    /// A copy equal to this setting.
    pub fn copied(&self) -> (r: Self)
        ensures
            r == *self,
    {
        DbSettingObj {
            name: self.name.clone(),
            pretty: copy_opt_string(&self.pretty),
            num: self.num,
            param: copy_opt_string(&self.param),
        }
    }
}


impl DbFileObj {
    /// A copy equal to this file row.
    pub fn copied(&self) -> (r: Self)
        ensures
            r == *self,
    {
        DbFileObj { id: self.id, hash: self.hash.clone(), ext: self.ext.clone(), location: self.location.clone() }
    }
}

impl DbTagNNS {
    /// A copy equal to this tag.
    pub fn copied(&self) -> (r: Self)
        ensures
            r == *self,
    {
        DbTagNNS { name: self.name.clone(), namespace: self.namespace }
    }
}


/// A namespace as the specifications see it.
pub struct NsV {
    pub name: Seq<char>,
    pub description: Option<Seq<char>>,
}

pub struct ParamV {
    pub data: Seq<char>,
    pub ptype: ScraperParamType,
}

pub struct JobV {
    pub site: Seq<char>,
    pub param: Seq<ParamV>,
    pub original: Seq<char>,
    pub job_type: DbJobType,
}

pub enum SkipV {
    Never,
    Tag { tag: Seq<char>, namespace: NsV, needsrelationship: bool },
}

pub enum TagTypeV {
    Normal,
    ParseUrl(JobV, SkipV),
    Special,
}

pub struct SubTagV {
    pub namespace: NsV,
    pub tag: Seq<char>,
    pub tag_type: TagTypeV,
}

/// A scraped tag as the specifications see it.
pub struct TagV {
    pub namespace: NsV,
    pub relates_to: Option<SubTagV>,
    pub tag: Seq<char>,
    pub tag_type: TagTypeV,
}

pub enum HashV {
    Md5(Seq<char>),
    Sha1(Seq<char>),
    Sha256(Seq<char>),
    NoHash,
}

/// A scraped file as the specifications see it.
pub struct FileV {
    pub source_url: Option<Seq<char>>,
    pub hash: Option<HashV>,
    pub tag_list: Seq<TagV>,
}

/// Why a parser returned nothing, as the specifications see it.
pub enum ReturnV {
    Nothing,
    EMCStop(Seq<char>),
    Stop(Seq<char>),
    Timeout(u64),
}

pub open spec fn opt_text(o: Option<String>) -> Option<Seq<char>> {
    match o {
        Some(s) => Some(s@),
        None => None,
    }
}

pub open spec fn ns_v(n: GenericNamespaceObj) -> NsV {
    NsV { name: n.name@, description: opt_text(n.description) }
}

pub open spec fn param_v(p: ScraperParam) -> ParamV {
    ParamV { data: p.param_data@, ptype: p.param_type }
}

pub open spec fn job_v(j: JobScraper) -> JobV {
    JobV { site: j.site@, param: j.param@.map_values(|p: ScraperParam| param_v(p)), original: j.original_param@, job_type: j.job_type }
}

pub open spec fn skip_v(s: SkipIf) -> SkipV {
    match s {
        SkipIf::Never => SkipV::Never,
        SkipIf::Tag(t) => SkipV::Tag { tag: t.tag@, namespace: ns_v(t.namespace), needsrelationship: t.needsrelationship },
    }
}

pub open spec fn tagtype_v(t: TagType) -> TagTypeV {
    match t {
        TagType::Normal => TagTypeV::Normal,
        TagType::ParseUrl(j, s) => TagTypeV::ParseUrl(job_v(j), skip_v(s)),
        TagType::Special => TagTypeV::Special,
    }
}

pub open spec fn subtag_v(t: SubTag) -> SubTagV {
    SubTagV { namespace: ns_v(t.namespace), tag: t.tag@, tag_type: tagtype_v(t.tag_type) }
}

pub open spec fn tag_v(t: TagObject) -> TagV {
    TagV {
        namespace: ns_v(t.namespace),
        relates_to: match t.relates_to { Some(r) => Some(subtag_v(r)), None => None },
        tag: t.tag@,
        tag_type: tagtype_v(t.tag_type),
    }
}

pub open spec fn hash_v(h: HashesSupported) -> HashV {
    match h {
        HashesSupported::Md5(x) => HashV::Md5(x@),
        HashesSupported::Sha1(x) => HashV::Sha1(x@),
        HashesSupported::Sha256(x) => HashV::Sha256(x@),
        HashesSupported::NoHash => HashV::NoHash,
    }
}

pub open spec fn file_v(f: FileObject) -> FileV {
    FileV {
        source_url: opt_text(f.source_url),
        hash: match f.hash { Some(h) => Some(hash_v(h)), None => None },
        tag_list: f.tag_list@.map_values(|t: TagObject| tag_v(t)),
    }
}

pub open spec fn return_v(r: ScraperReturn) -> ReturnV {
    match r {
        ScraperReturn::Nothing => ReturnV::Nothing,
        ScraperReturn::EMCStop(s) => ReturnV::EMCStop(s@),
        ScraperReturn::Stop(s) => ReturnV::Stop(s@),
        ScraperReturn::Timeout(n) => ReturnV::Timeout(n),
    }
}

fn opt_string_same(a: &Option<String>, b: &Option<String>) -> (r: bool)
    ensures
        r == (opt_text(*a) == opt_text(*b)),
{
    match (a, b) {
        (Some(x), Some(y)) => *x == *y,
        (None, None) => true,
        _ => false,
    }
}

impl GenericNamespaceObj {
    pub fn copied(&self) -> (r: Self)
        ensures
            ns_v(r) == ns_v(*self),
    {
        GenericNamespaceObj { name: self.name.clone(), description: copy_opt_string(&self.description) }
    }

    pub fn same(&self, other: &Self) -> (r: bool)
        ensures
            r == (ns_v(*self) == ns_v(*other)),
    {
        self.name == other.name && opt_string_same(&self.description, &other.description)
    }
}

impl ScraperParam {
    pub fn copied(&self) -> (r: Self)
        ensures
            param_v(r) == param_v(*self),
    {
        ScraperParam { param_data: self.param_data.clone(), param_type: self.param_type }
    }
}

fn params_copied(ps: &Vec<ScraperParam>) -> (r: Vec<ScraperParam>)
    ensures
        r@.map_values(|p: ScraperParam| param_v(p)) == ps@.map_values(|p: ScraperParam| param_v(p)),
{
    let mut out: Vec<ScraperParam> = Vec::new();
    let mut i: usize = 0;
    while i < ps.len()
        invariant
            i <= ps@.len(),
            out@.map_values(|p: ScraperParam| param_v(p)) == ps@.take(i as int).map_values(|p: ScraperParam| param_v(p)),
        decreases ps@.len() - i,
    {
        out.push(ps[i].copied());
        proof {
            assert(ps@.take(i + 1).map_values(|p: ScraperParam| param_v(p)) =~= ps@.take(i as int).map_values(|p: ScraperParam| param_v(p)).push(param_v(ps@[i as int])));
            assert(out@.map_values(|p: ScraperParam| param_v(p)) =~= ps@.take(i as int).map_values(|p: ScraperParam| param_v(p)).push(param_v(ps@[i as int])));
        }
        i = i + 1;
    }
    assert(ps@.take(ps@.len() as int) =~= ps@);
    out
}

fn params_same(a: &Vec<ScraperParam>, b: &Vec<ScraperParam>) -> (r: bool)
    ensures
        r == (a@.map_values(|p: ScraperParam| param_v(p)) == b@.map_values(|p: ScraperParam| param_v(p))),
{
    let ghost va = a@.map_values(|p: ScraperParam| param_v(p));
    let ghost vb = b@.map_values(|p: ScraperParam| param_v(p));
    if a.len() != b.len() {
        assert(va.len() != vb.len());
        return false;
    }
    let mut i: usize = 0;
    while i < a.len()
        invariant
            i <= a@.len(),
            a@.len() == b@.len(),
            va == a@.map_values(|p: ScraperParam| param_v(p)),
            vb == b@.map_values(|p: ScraperParam| param_v(p)),
            forall|j: int| 0 <= j < i ==> va[j] == vb[j],
        decreases a@.len() - i,
    {
        if !(a[i].param_data == b[i].param_data && a[i].param_type == b[i].param_type) {
            assert(va[i as int] != vb[i as int]);
            return false;
        }
        i = i + 1;
    }
    assert(va =~= vb);
    true
}

impl JobScraper {
    pub fn copied(&self) -> (r: Self)
        ensures
            job_v(r) == job_v(*self),
    {
        JobScraper {
            site: self.site.clone(),
            param: params_copied(&self.param),
            original_param: self.original_param.clone(),
            job_type: self.job_type,
        }
    }

    pub fn same(&self, other: &Self) -> (r: bool)
        ensures
            r == (job_v(*self) == job_v(*other)),
    {
        self.site == other.site && params_same(&self.param, &other.param)
            && self.original_param == other.original_param && self.job_type == other.job_type
    }
}

impl SkipIf {
    pub fn copied(&self) -> (r: Self)
        ensures
            skip_v(r) == skip_v(*self),
    {
        match self {
            SkipIf::Never => SkipIf::Never,
            SkipIf::Tag(t) => SkipIf::Tag(Tag { tag: t.tag.clone(), namespace: t.namespace.copied(), needsrelationship: t.needsrelationship }),
        }
    }

    pub fn same(&self, other: &Self) -> (r: bool)
        ensures
            r == (skip_v(*self) == skip_v(*other)),
    {
        match (self, other) {
            (SkipIf::Never, SkipIf::Never) => true,
            (SkipIf::Tag(a), SkipIf::Tag(b)) => a.tag == b.tag && a.namespace.same(&b.namespace) && a.needsrelationship == b.needsrelationship,
            _ => false,
        }
    }
}

impl TagType {
    pub fn copied(&self) -> (r: Self)
        ensures
            tagtype_v(r) == tagtype_v(*self),
    {
        match self {
            TagType::Normal => TagType::Normal,
            TagType::ParseUrl(j, sk) => TagType::ParseUrl(j.copied(), sk.copied()),
            TagType::Special => TagType::Special,
        }
    }

    pub fn same(&self, other: &Self) -> (r: bool)
        ensures
            r == (tagtype_v(*self) == tagtype_v(*other)),
    {
        match (self, other) {
            (TagType::Normal, TagType::Normal) => true,
            (TagType::Special, TagType::Special) => true,
            (TagType::ParseUrl(j1, s1), TagType::ParseUrl(j2, s2)) => j1.same(j2) && s1.same(s2),
            _ => false,
        }
    }
}

impl SubTag {
    pub fn copied(&self) -> (r: Self)
        ensures
            subtag_v(r) == subtag_v(*self),
    {
        SubTag { namespace: self.namespace.copied(), tag: self.tag.clone(), tag_type: self.tag_type.copied() }
    }

    pub fn same(&self, other: &Self) -> (r: bool)
        ensures
            r == (subtag_v(*self) == subtag_v(*other)),
    {
        self.namespace.same(&other.namespace) && self.tag == other.tag && self.tag_type.same(&other.tag_type)
    }
}

impl TagObject {
    pub fn same(&self, other: &Self) -> (r: bool)
        ensures
            r == (tag_v(*self) == tag_v(*other)),
    {
        let rel = match (&self.relates_to, &other.relates_to) {
            (Some(a), Some(b)) => a.same(b),
            (None, None) => true,
            _ => false,
        };
        self.namespace.same(&other.namespace) && rel && self.tag == other.tag && self.tag_type.same(&other.tag_type)
    }
}

impl HashesSupported {
    pub fn same(&self, other: &Self) -> (r: bool)
        ensures
            r == (hash_v(*self) == hash_v(*other)),
    {
        match (self, other) {
            (HashesSupported::Md5(a), HashesSupported::Md5(b)) => *a == *b,
            (HashesSupported::Sha1(a), HashesSupported::Sha1(b)) => *a == *b,
            (HashesSupported::Sha256(a), HashesSupported::Sha256(b)) => *a == *b,
            (HashesSupported::NoHash, HashesSupported::NoHash) => true,
            _ => false,
        }
    }
}

fn tags_same(a: &Vec<TagObject>, b: &Vec<TagObject>) -> (r: bool)
    ensures
        r == (a@.map_values(|t: TagObject| tag_v(t)) == b@.map_values(|t: TagObject| tag_v(t))),
{
    let ghost va = a@.map_values(|t: TagObject| tag_v(t));
    let ghost vb = b@.map_values(|t: TagObject| tag_v(t));
    if a.len() != b.len() {
        assert(va.len() != vb.len());
        return false;
    }
    let mut i: usize = 0;
    while i < a.len()
        invariant
            i <= a@.len(),
            a@.len() == b@.len(),
            va == a@.map_values(|t: TagObject| tag_v(t)),
            vb == b@.map_values(|t: TagObject| tag_v(t)),
            forall|j: int| 0 <= j < i ==> va[j] == vb[j],
        decreases a@.len() - i,
    {
        if !a[i].same(&b[i]) {
            assert(va[i as int] != vb[i as int]);
            return false;
        }
        i = i + 1;
    }
    assert(va =~= vb);
    true
}

impl FileObject {
    pub fn same(&self, other: &Self) -> (r: bool)
        ensures
            r == (file_v(*self) == file_v(*other)),
    {
        let h = match (&self.hash, &other.hash) {
            (Some(a), Some(b)) => a.same(b),
            (None, None) => true,
            _ => false,
        };
        opt_string_same(&self.source_url, &other.source_url) && h && tags_same(&self.tag_list, &other.tag_list)
    }
}

} // verus!
