//! The e6ai scraper: the urls it asks for, the namespaces it files tags
//! under, and the parsing of the site's JSON answers.

use vstd::prelude::*;
use crate::sharedtypes::{
    DbJobType, FileObject, FileV, GenericNamespaceObj, HashV, HashesSupported, JobScraper, JobV, NsV, ReturnV,
    ScraperFileInput, ScraperFileRegen, ScraperObject, ScraperParam, ScraperParamType, ScraperReturn, ScraperType,
    SkipIf, SkipV, SubTag, SubTagV, Tag, TagObject, TagType, TagTypeV, TagV, file_v, ns_v, return_v, subtag_v,
    tag_v, tagtype_v,
};
use crate::text::{contains_text, dec, has_text, i64_to_string, idec, u64_to_string, usize_to_string};
use crate::jsondoc::{JsonDoc, JsonKind, NodeView, jget, jitem, jlen, jmembers, json_doc_of, nv};
use crate::time_func::{lowercase_of, to_lowercase};
use crate::migrate::{dedup, lemma_dedup_contains};

verus! {

/// The namespaces the scraper files tags under.
#[derive(Debug, Clone, Copy, PartialEq, Eq, Structural)]
pub enum NsIdent {
    PoolCreatedAt,
    PoolCreator,
    PoolCreatorId,
    PoolDescription,
    PoolName,
    PoolUpdatedAt,
    PoolId,
    PoolPosition,
    FileId,
    Sources,
    Description,
    Parent,
    Children,
    Rating,
    Meta,
    Lore,
    Artist,
    Copyright,
    Character,
    Species,
    General,
}

/// The name of a namespace.
pub open spec fn ns_name(n: NsIdent) -> Seq<char> {
    match n {
        NsIdent::PoolCreatedAt => "Pool_Created_At"@,
        NsIdent::PoolCreator => "Pool_Creator_e6ai"@,
        NsIdent::PoolCreatorId => "Pool_Creator_Id_e6ai"@,
        NsIdent::PoolDescription => "Pool_Description_e6ai"@,
        NsIdent::PoolName => "Pool_Name_e6ai"@,
        NsIdent::PoolUpdatedAt => "Pool_Updated_At"@,
        NsIdent::PoolId => "Pool_Id_e6ai"@,
        NsIdent::PoolPosition => "Pool_Position"@,
        NsIdent::FileId => "Id_e6ai"@,
        NsIdent::Sources => "Sources"@,
        NsIdent::Description => "Description"@,
        NsIdent::Parent => "Parent_id"@,
        NsIdent::Children => "Children"@,
        NsIdent::Rating => "Rating"@,
        NsIdent::Meta => "Meta"@,
        NsIdent::Lore => "Lore"@,
        NsIdent::Artist => "Director"@,
        NsIdent::Copyright => "Copyright"@,
        NsIdent::Character => "Character"@,
        NsIdent::Species => "Species"@,
        NsIdent::General => "General"@,
    }
}

/// No two namespaces of the scraper share a name.
pub proof fn law_ns_names_distinct(a: NsIdent, b: NsIdent)
    ensures
        ns_name(a) == ns_name(b) ==> a == b,
{
    reveal_strlit("Pool_Created_At");
    reveal_strlit("Pool_Creator_e6ai");
    reveal_strlit("Pool_Creator_Id_e6ai");
    reveal_strlit("Pool_Description_e6ai");
    reveal_strlit("Pool_Name_e6ai");
    reveal_strlit("Pool_Updated_At");
    reveal_strlit("Pool_Id_e6ai");
    reveal_strlit("Pool_Position");
    reveal_strlit("Id_e6ai");
    reveal_strlit("Sources");
    reveal_strlit("Description");
    reveal_strlit("Parent_id");
    reveal_strlit("Children");
    reveal_strlit("Rating");
    reveal_strlit("Meta");
    reveal_strlit("Lore");
    reveal_strlit("Director");
    reveal_strlit("Copyright");
    reveal_strlit("Character");
    reveal_strlit("Species");
    reveal_strlit("General");
    if ns_name(a) == ns_name(b) {
        assert(ns_name(a).len() == ns_name(b).len());
        assert(ns_name(a)[0] == ns_name(b)[0]);
        assert(ns_name(a)[1] == ns_name(b)[1]);
        if ns_name(a).len() > 5 {
            assert(ns_name(a)[5] == ns_name(b)[5]);
        }
    }
}

/// The description of a namespace.
pub open spec fn ns_description(n: NsIdent) -> Seq<char> {
    match n {
        NsIdent::PoolCreatedAt => "Pool When the pool was created."@,
        NsIdent::PoolCreator => "Person who made a pool."@,
        NsIdent::PoolCreatorId => "Person's id for e6 who made a pool."@,
        NsIdent::PoolDescription => "Description for a pool."@,
        NsIdent::PoolName => "Name of a pool."@,
        NsIdent::PoolUpdatedAt => "Pool When the pool was last updated."@,
        NsIdent::PoolId => "Pool identifier unique id."@,
        NsIdent::PoolPosition => "Position of an id in a pool."@,
        NsIdent::FileId => "File id used by e6ai to uniquly identify a file."@,
        NsIdent::Sources => "Additional sources for a file."@,
        NsIdent::Description => "The description of a file."@,
        NsIdent::Parent => "Files that are dom or above the current file."@,
        NsIdent::Children => "Files that have a sub relationship to the current file."@,
        NsIdent::Rating => "The rating of the file."@,
        NsIdent::Meta => "Additional information not relating directly to the file"@,
        NsIdent::Lore => "Youre obviously here for the plot. :X"@,
        NsIdent::Artist => "Individual who directed the ai filth."@,
        NsIdent::Copyright => "Who holds the copyright info"@,
        NsIdent::Character => "What character's are in an image."@,
        NsIdent::Species => "Species namespace for e6ai."@,
        NsIdent::General => "General namespace for e6ai."@,
    }
}

fn ns_texts(name: &NsIdent) -> (r: (&'static str, &'static str))
    ensures
        r.0@ == ns_name(*name),
        r.1@ == ns_description(*name),
{
    match name {
        NsIdent::PoolCreatedAt => ("Pool_Created_At", "Pool When the pool was created."),
        NsIdent::PoolCreator => ("Pool_Creator_e6ai", "Person who made a pool."),
        NsIdent::PoolCreatorId => ("Pool_Creator_Id_e6ai", "Person's id for e6 who made a pool."),
        NsIdent::PoolDescription => ("Pool_Description_e6ai", "Description for a pool."),
        NsIdent::PoolName => ("Pool_Name_e6ai", "Name of a pool."),
        NsIdent::PoolUpdatedAt => ("Pool_Updated_At", "Pool When the pool was last updated."),
        NsIdent::PoolId => ("Pool_Id_e6ai", "Pool identifier unique id."),
        NsIdent::PoolPosition => ("Pool_Position", "Position of an id in a pool."),
        NsIdent::FileId => ("Id_e6ai", "File id used by e6ai to uniquly identify a file."),
        NsIdent::Sources => ("Sources", "Additional sources for a file."),
        NsIdent::Description => ("Description", "The description of a file."),
        NsIdent::Parent => ("Parent_id", "Files that are dom or above the current file."),
        NsIdent::Children => ("Children", "Files that have a sub relationship to the current file."),
        NsIdent::Rating => ("Rating", "The rating of the file."),
        NsIdent::Meta => ("Meta", "Additional information not relating directly to the file"),
        NsIdent::Lore => ("Lore", "Youre obviously here for the plot. :X"),
        NsIdent::Artist => ("Director", "Individual who directed the ai filth."),
        NsIdent::Copyright => ("Copyright", "Who holds the copyright info"),
        NsIdent::Character => ("Character", "What character's are in an image."),
        NsIdent::Species => ("Species", "Species namespace for e6ai."),
        NsIdent::General => ("General", "General namespace for e6ai."),
    }
}

/// The namespace object for a namespace.
pub fn nsobjplg(name: &NsIdent) -> (r: GenericNamespaceObj)
    ensures
        r.name@ == ns_name(*name),
        r.description matches Some(d) && d@ == ns_description(*name),
{
    let (n, d) = ns_texts(name);
    GenericNamespaceObj { name: String::from_str(n), description: Some(String::from_str(d)) }
}

/// A tag under a namespace, as something another tag relates to.
pub fn subgen(name: &NsIdent, tag: String, ttype: TagType) -> (r: SubTag)
    ensures
        r.namespace.name@ == ns_name(*name),
        r.namespace.description matches Some(d) && d@ == ns_description(*name),
        r.tag == tag,
        r.tag_type == ttype,
{
    SubTag { namespace: nsobjplg(name), tag: tag, tag_type: ttype }
}


/// The scraper's description: version, name, the sites it serves, its
/// rate limit (requests per number of seconds) and how it is driven.
pub struct InternalScraper {
    _version: usize,
    _name: String,
    _sites: Vec<String>,
    _ratelimit: (u64, u64),
    _type: ScraperType,
}

impl InternalScraper {
    pub closed spec fn version(&self) -> usize {
        self._version
    }

    pub closed spec fn name(&self) -> Seq<char> {
        self._name@
    }

    pub closed spec fn sites(&self) -> Seq<Seq<char>> {
        self._sites@.map_values(|s: String| s@)
    }

    pub closed spec fn ratelimit(&self) -> (u64, u64) {
        self._ratelimit
    }

    pub closed spec fn scraper_type(&self) -> ScraperType {
        self._type
    }

    /// The e6ai scraper: version 0, serving `e6ai` and `e6ai.net`, one
    /// request a second, driven by the job runner.
    pub fn new() -> (r: Self)
        ensures
            r.version() == 0,
            r.name() == "e6aiscraper"@,
            r.sites() == seq!["e6ai"@, "e6ai.net"@],
            r.ratelimit() == (1u64, 1u64),
            r.scraper_type() == ScraperType::Automatic,
    {
        let r = InternalScraper {
            _version: 0,
            _name: String::from_str("e6aiscraper"),
            _sites: vec![String::from_str("e6ai"), String::from_str("e6ai.net")],
            _ratelimit: (1, 1),
            _type: ScraperType::Automatic,
        };
        assert(r.sites() =~= seq!["e6ai"@, "e6ai.net"@]);
        r
    }

    pub fn version_get(&self) -> (r: usize)
        ensures
            r == self.version(),
    {
        self._version
    }

    pub fn name_get(&self) -> (r: &String)
        ensures
            r@ == self.name(),
    {
        &self._name
    }

    /// The rate limit: this many requests per this many seconds.
    pub fn ratelimit_get(&self) -> (r: (u64, u64))
        ensures
            r == self.ratelimit(),
    {
        self._ratelimit
    }

    /// How the scraper is driven.
    pub fn type_get(&self) -> (r: ScraperType)
        ensures
            r == self.scraper_type(),
    {
        self._type
    }

    pub fn name_put(&mut self, inp: String)
        ensures
            final(self).name() == inp@,
            final(self).version() == old(self).version(),
            final(self).sites() == old(self).sites(),
            final(self).ratelimit() == old(self).ratelimit(),
            final(self).scraper_type() == old(self).scraper_type(),
    {
        self._name = inp;
    }

    /// Whether the scraper serves a site.
    pub fn serves(&self, site: &String) -> (b: bool)
        ensures
            b == self.sites().contains(site@),
    {
        let mut i: usize = 0;
        while i < self._sites.len()
            invariant
                i <= self._sites@.len(),
                forall|j: int| 0 <= j < i ==> self._sites@[j]@ != site@,
            decreases self._sites@.len() - i,
        {
            if self._sites[i] == *site {
                assert(self.sites()[i as int] == site@);
                return true;
            }
            i = i + 1;
        }
        proof {
            if self.sites().contains(site@) {
                let j = choose|j: int| 0 <= j < self.sites().len() && self.sites()[j] == site@;
                assert(self._sites@[j]@ == site@);
            }
        }
        false
    }

    /// The sites served, copied.
    pub fn sites_get(&self) -> (r: Vec<String>)
        ensures
            r@.map_values(|s: String| s@) == self.sites(),
    {
        let mut vecs: Vec<String> = Vec::new();
        let mut i: usize = 0;
        while i < self._sites.len()
            invariant
                i <= self._sites@.len(),
                vecs@.map_values(|s: String| s@) == self._sites@.take(i as int).map_values(|s: String| s@),
            decreases self._sites@.len() - i,
        {
            vecs.push(self._sites[i].clone());
            proof {
                assert(self._sites@.take(i + 1).map_values(|s: String| s@) =~= self._sites@.take(i as int).map_values(|s: String| s@).push(self._sites@[i as int]@));
                assert(vecs@.map_values(|s: String| s@) =~= self._sites@.take(i as int).map_values(|s: String| s@).push(self._sites@[i as int]@));
            }
            i = i + 1;
        }
        assert(self._sites@.take(self._sites@.len() as int) =~= self._sites@);
        vecs
    }
}

/// The data of the parameters of one kind, in order.
pub open spec fn params_of(ps: Seq<ScraperParam>, t: ScraperParamType) -> Seq<Seq<char>>
    decreases ps.len(),
{
    if ps.len() == 0 {
        Seq::empty()
    } else {
        let rest = params_of(ps.drop_last(), t);
        if ps.last().param_type == t { rest.push(ps.last().param_data@) } else { rest }
    }
}

/// Each text followed by `+`.
pub open spec fn plus_prefix(s: Seq<Seq<char>>) -> Seq<char>
    decreases s.len(),
{
    if s.len() == 0 { Seq::empty() } else { plus_prefix(s.drop_last()) + s.last() + "+"@ }
}

/// The texts joined by `+`.
pub open spec fn plus_joined(s: Seq<Seq<char>>) -> Seq<char> {
    if s.len() == 0 { Seq::empty() } else { plus_prefix(s.drop_last()) + s.last() }
}

/// At most one database parameter comes with the normal ones.
pub open spec fn params_ok(ps: Seq<ScraperParam>) -> bool {
    params_of(ps, ScraperParamType::Normal).len() > 0 ==> params_of(ps, ScraperParamType::Database).len() <= 1
}

/// The posts url for a page: the normal parameters joined by `+` as tags,
/// after the database parameter (or `?tags=`); empty without a normal
/// parameter.
pub open spec fn build_url_spec(ps: Seq<ScraperParam>, pagenum: u64) -> Seq<char> {
    let normal = params_of(ps, ScraperParamType::Normal);
    let db = params_of(ps, ScraperParamType::Database);
    if normal.len() == 0 {
        Seq::empty()
    } else {
        let fin = if db.len() == 0 { "?tags="@ } else { db[0] + "&tags="@ };
        "https://e6ai.net/posts.json"@ + fin + plus_joined(normal) + "&page="@ + dec(pagenum as nat)
    }
}

/// Builds the url of a page of posts for the parameters.
pub fn build_url(params: &Vec<ScraperParam>, pagenum: u64) -> (r: String)
    requires
        params_ok(params@),
    ensures
        r@ == build_url_spec(params@, pagenum),
{
    let mut params_normal: Vec<String> = Vec::new();
    let mut params_database: Vec<String> = Vec::new();
    if params.len() == 0 {
        return String::new();
    }
    let mut i: usize = 0;
    while i < params.len()
        invariant
            i <= params@.len(),
            params_normal@.map_values(|x: String| x@) == params_of(params@.take(i as int), ScraperParamType::Normal),
            params_database@.map_values(|x: String| x@) == params_of(params@.take(i as int), ScraperParamType::Database),
        decreases params@.len() - i,
    {
        let p = &params[i];
        proof {
            assert(params@.take(i + 1).drop_last() =~= params@.take(i as int));
        }
        match p.param_type {
            ScraperParamType::Normal => {
                let ghost before = params_normal@;
                params_normal.push(p.param_data.clone());
                assert(params_normal@.map_values(|x: String| x@) =~= before.map_values(|x: String| x@).push(p.param_data@));
            },
            ScraperParamType::Database => {
                let ghost before = params_database@;
                params_database.push(p.param_data.clone());
                assert(params_database@.map_values(|x: String| x@) =~= before.map_values(|x: String| x@).push(p.param_data@));
            },
        }
        i = i + 1;
    }
    assert(params@.take(params@.len() as int) =~= params@);
    let ghost normal = params_normal@.map_values(|x: String| x@);
    if params_normal.len() == 0 {
        return String::new();
    }
    let mut url = String::from_str("https://e6ai.net/posts.json");
    if params_database.len() == 0 {
        url.append("?tags=");
    } else {
        url.append(params_database[0].as_str());
        url.append("&tags=");
    }
    let ghost head = url@;
    let n = params_normal.len();
    let mut k: usize = 0;
    while k + 1 < n
        invariant
            n == params_normal@.len(),
            n > 0,
            k + 1 <= n,
            normal == params_normal@.map_values(|x: String| x@),
            url@ == head + plus_prefix(normal.take(k as int)),
        decreases n - k,
    {
        url.append(params_normal[k].as_str());
        url.append("+");
        proof {
            assert(normal.take(k + 1).drop_last() =~= normal.take(k as int));
            assert(normal.take(k + 1).last() == params_normal@[k as int]@);
        }
        k = k + 1;
    }
    url.append(params_normal[n - 1].as_str());
    url.append("&page=");
    let page = u64_to_string(pagenum);
    url.append(page.as_str());
    proof {
        assert(normal.take(n - 1) =~= normal.drop_last());
        assert(url@ =~= build_url_spec(params@, pagenum));
    }
    url
}

/// A scraper object.
pub fn new() -> (r: InternalScraper)
    ensures
        r.version() == 0,
        r.name() == "e6aiscraper"@,
        r.sites() == seq!["e6ai"@, "e6ai.net"@],
        r.ratelimit() == (1u64, 1u64),
        r.scraper_type() == ScraperType::Automatic,
{
    InternalScraper::new()
}

/// The url of the first page.
pub fn url_get(params: &Vec<ScraperParam>) -> (r: Vec<String>)
    requires
        params_ok(params@),
    ensures
        r@.len() == 1,
        r@[0]@ == build_url_spec(params@, 1),
{
    vec![build_url(params, 1)]
}

/// The urls of pages 1 to 750.
pub fn url_dump(params: &Vec<ScraperParam>) -> (r: Vec<String>)
    requires
        params_ok(params@),
    ensures
        r@.len() == 750,
        forall|i: int| 0 <= i < 750 ==> (#[trigger] r@[i])@ == build_url_spec(params@, (i + 1) as u64),
{
    let mut ret: Vec<String> = Vec::new();
    let hardlimit: u64 = 751;
    let mut i: u64 = 1;
    while i < hardlimit
        invariant
            1 <= i <= hardlimit,
            hardlimit == 751,
            params_ok(params@),
            ret@.len() == i - 1,
            forall|j: int| 0 <= j < ret@.len() ==> (#[trigger] ret@[j])@ == build_url_spec(params@, (j + 1) as u64),
        decreases hardlimit - i,
    {
        let a = build_url(params, i);
        ret.push(a);
        i = i + 1;
    }
    ret
}

/// The name the scraper's cookie is stored under.
pub fn cookie_url() -> (r: String)
    ensures
        r@ == "e6aiscraper_cookie"@,
{
    String::from_str("e6aiscraper_cookie")
}

/// What the scraper needs asked of the user before it runs, with the
/// login and key the user gave: the cookie text for them.
pub fn cookie_text(user: &str, api: &str) -> (r: (ScraperType, String))
    ensures
        r.0 == ScraperType::Manual,
        r.1@ == "?login="@ + user@ + "&api_key="@ + api@,
{
    let mut c = String::from_str("?login=");
    c.append(user);
    c.append("&api_key=");
    c.append(api);
    (ScraperType::Manual, c)
}

/// Whether the scraper handles its own downloading: it does not.
pub fn scraper_download_get() -> (r: bool)
    ensures
        !r,
{
    false
}

/// What the scraper regenerates files by: their md5 hash.
pub fn scraper_file_regen() -> (r: ScraperFileRegen)
    ensures
        r.hash matches HashesSupported::Md5(h) && h@ == Seq::<char>::empty(),
{
    ScraperFileRegen { hash: HashesSupported::Md5(String::new()) }
}

/// The number of bytes UTF-8 takes for a character.
pub open spec fn utf8_len(c: char) -> nat {
    let n = c as u32;
    if 0x80 > n {
        1
    } else if 0x800 > n {
        2
    } else if 0x10000 > n {
        3
    } else {
        4
    }
}

/// The number of UTF-8 bytes of the first `k` characters of a text.
pub open spec fn prefix_bytes(s: Seq<char>, k: int) -> nat
    decreases k,
{
    if k <= 0 || k > s.len() { 0 } else { prefix_bytes(s, k - 1) + utf8_len(s[k - 1]) }
}

/// The number of characters that take exactly the first `b` bytes of a
/// text, searched from `k` on; `None` where byte `b` falls inside a
/// character or past the end.
pub open spec fn cut_from(s: Seq<char>, b: nat, k: int) -> Option<int>
    decreases s.len() - k,
{
    if k < 0 || k > s.len() {
        None
    } else if prefix_bytes(s, k) == b {
        Some(k)
    } else if prefix_bytes(s, k) > b || k == s.len() {
        None
    } else {
        cut_from(s, b, k + 1)
    }
}

/// Where the first `b` bytes of a text end, counted in characters.
pub open spec fn byte_cut(s: Seq<char>, b: nat) -> Option<int> {
    cut_from(s, b, 0)
}

/// Whether bytes 2 and 4 of a hash fall between characters, so that its
/// first two pairs of bytes can be cut out.
pub open spec fn md5_cuts_ok(s: Seq<char>) -> bool {
    byte_cut(s, 2).is_some() && byte_cut(s, 4).is_some()
}

/// The static url of a file by its md5 and extension: the hash's first two
/// pairs of bytes are folders.
pub open spec fn source_url_spec(md5: Seq<char>, ext: Seq<char>) -> Seq<char> {
    let c2 = byte_cut(md5, 2).unwrap();
    let c4 = byte_cut(md5, 4).unwrap();
    "https://static1.e6ai.net/data"@ + "/"@ + md5.subrange(0, c2) + "/"@ + md5.subrange(c2, c4) + "/"@ + md5 + "."@ + ext
}

/// More characters never take fewer bytes.
pub proof fn lemma_prefix_bytes_grow(s: Seq<char>, i: int, j: int)
    requires
        0 <= i <= j <= s.len(),
    ensures
        prefix_bytes(s, i) <= prefix_bytes(s, j),
    decreases j - i,
{
    if i < j {
        lemma_prefix_bytes_grow(s, i, j - 1);
    }
}

/// The number of characters that take exactly the first `b` bytes of the
/// characters `s`, where there is one.
pub fn byte_cut_exec(s: &Vec<char>, b: usize) -> (r: Option<usize>)
    requires
        b <= 4,
    ensures
        r matches Some(k) ==> k <= s@.len() && prefix_bytes(s@, k as int) == b && byte_cut(s@, b as nat) == Some(k as int),
        r is None ==> byte_cut(s@, b as nat) is None,
{
    let mut k: usize = 0;
    let mut acc: usize = 0;
    while k < s.len() && acc < b
        invariant
            k <= s@.len(),
            acc == prefix_bytes(s@, k as int),
            acc <= b,
            b <= 4,
            byte_cut(s@, b as nat) == cut_from(s@, b as nat, k as int),
        decreases s@.len() - k,
    {
        let c = s[k];
        let cn = c as u32;
        let n: usize = if 0x80 > cn {
            1
        } else if 0x800 > cn {
            2
        } else if 0x10000 > cn {
            3
        } else {
            4
        };
        acc = acc + n;
        k = k + 1;
        if acc > b {
            assert(cut_from(s@, b as nat, k as int) == None::<int>);
            return None;
        }
    }
    if acc == b {
        Some(k)
    } else {
        None
    }
}

fn first_chars(s: &String, a: usize, b: usize) -> (r: String)
    requires
        a <= b <= s@.len(),
    ensures
        r@ == s@.subrange(a as int, b as int),
{
    let mut r = String::new();
    let mut i = a;
    while i < b
        invariant
            a <= i <= b <= s@.len(),
            r@ == s@.subrange(a as int, i as int),
        decreases b - i,
    {
        crate::text::push_char(&mut r, s.as_str().get_char(i));
        i = i + 1;
        assert(r@ =~= s@.subrange(a as int, i as int));
    }
    r
}

/// The static url of a file by its md5 and extension.
pub fn gen_source_from_md5_ext(md5: &String, ext: &String) -> (r: String)
    requires
        md5_cuts_ok(md5@),
    ensures
        r@ == source_url_spec(md5@, ext@),
{
    let md = crate::text::chars_of(md5.as_str());
    let (c2, c4) = match (byte_cut_exec(&md, 2), byte_cut_exec(&md, 4)) {
        (Some(c2), Some(c4)) => (c2, c4),
        _ => {
            assert(false);
            return String::new();
        },
    };
    proof {
        if c2 > c4 {
            lemma_prefix_bytes_grow(md5@, c4 as int, c2 as int);
        }
    }
    let mut url = String::from_str("https://static1.e6ai.net/data");
    url.append("/");
    let a = first_chars(md5, 0, c2);
    url.append(a.as_str());
    url.append("/");
    let b = first_chars(md5, c2, c4);
    url.append(b.as_str());
    url.append("/");
    url.append(md5.as_str());
    url.append(".");
    url.append(ext.as_str());
    assert(c2 == byte_cut(md5@, 2).unwrap() && c4 == byte_cut(md5@, 4).unwrap());
    assert(url@ =~= source_url_spec(md5@, ext@));
    url
}

/// The source-url tag of a file given by hash and extension.
pub fn scraper_file_return(inp: &ScraperFileInput) -> (r: SubTag)
    requires
        inp.hash matches Some(h) && md5_cuts_ok(h@),
        inp.ext is Some,
    ensures
        r.namespace.name@ == "source_url"@,
        r.namespace.description.is_none(),
        r.tag@ == source_url_spec(inp.hash->0@, inp.ext->0@),
        r.tag_type == TagType::Normal,
{
    let md5 = match &inp.hash {
        Some(h) => h,
        None => {
            assert(false);
            return SubTag { namespace: GenericNamespaceObj { name: String::new(), description: None }, tag: String::new(), tag_type: TagType::Normal };
        },
    };
    let ext = match &inp.ext {
        Some(e) => e,
        None => {
            assert(false);
            return SubTag { namespace: GenericNamespaceObj { name: String::new(), description: None }, tag: String::new(), tag_type: TagType::Normal };
        },
    };
    let url = gen_source_from_md5_ext(md5, ext);
    SubTag {
        namespace: GenericNamespaceObj { name: String::from_str("source_url"), description: None },
        tag: url,
        tag_type: TagType::Normal,
    }
}


/// The text of a value.
pub open spec fn text_at(d: Seq<NodeView>, r: Option<usize>) -> Seq<char> {
    nv(d, r).text
}

/// A namespace of the scraper, as the specifications see it.
pub open spec fn nsv(n: NsIdent) -> NsV {
    NsV { name: ns_name(n), description: Some(ns_description(n)) }
}

/// A normal tag under a namespace, as something another tag relates to.
pub open spec fn sub_v(n: NsIdent, tag: Seq<char>) -> SubTagV {
    SubTagV { namespace: nsv(n), tag: tag, tag_type: TagTypeV::Normal }
}

pub open spec fn plain_tag(ns: NsV, rel: Option<SubTagV>, tag: Seq<char>) -> TagV {
    TagV { namespace: ns, relates_to: rel, tag: tag, tag_type: TagTypeV::Normal }
}

pub open spec fn tags_v(ts: Seq<TagObject>) -> Seq<TagV> {
    ts.map_values(|t: TagObject| tag_v(t))
}

pub open spec fn files_v(fs: Seq<FileObject>) -> Seq<FileV> {
    fs.map_values(|f: FileObject| file_v(f))
}

pub open spec fn opt_sub_v(o: Option<SubTag>) -> Option<SubTagV> {
    match o {
        Some(t) => Some(subtag_v(t)),
        None => None,
    }
}

/// The tags made of the elements found under a namespace's lower-case name
/// in a value: one per element, its text as the tag.
pub open spec fn sub_tags(d: Seq<NodeView>, r: Option<usize>, ns: NsV, rel: Option<SubTagV>, tt: TagTypeV) -> Seq<TagV> {
    jmembers(d, jget(d, r, lowercase_of(ns.name))).map_values(|m: usize| TagV { namespace: ns, relates_to: rel, tag: text_at(d, Some(m)), tag_type: tt })
}

fn opt_sub_copy(o: &Option<SubTag>) -> (r: Option<SubTag>)
    ensures
        opt_sub_v(r) == opt_sub_v(*o),
{
    match o {
        Some(t) => Some(t.copied()),
        None => None,
    }
}

/// Adds a tag for each element found under the namespace's lower-case name
/// in `jso`, relating it to `relates`.
pub fn json_sub_tag(tags_list: &mut Vec<TagObject>, doc: &JsonDoc, jso: Option<usize>, ns: GenericNamespaceObj, relates: Option<SubTag>, tagtype: TagType)
    ensures
        tags_v(final(tags_list)@) == tags_v(old(tags_list)@) + sub_tags(doc@, jso, ns_v(ns), opt_sub_v(relates), tagtype_v(tagtype)),
{
    let key = to_lowercase(ns.name.as_str());
    let node = doc.get(jso, key.as_str());
    let ms = doc.members(node);
    let ghost start = tags_v(tags_list@);
    let ghost all = sub_tags(doc@, jso, ns_v(ns), opt_sub_v(relates), tagtype_v(tagtype));
    let mut i: usize = 0;
    while i < ms.len()
        invariant
            i <= ms@.len(),
            ms@ == jmembers(doc@, jget(doc@, jso, lowercase_of(ns.name@))),
            all == sub_tags(doc@, jso, ns_v(ns), opt_sub_v(relates), tagtype_v(tagtype)),
            tags_v(tags_list@) == start + all.take(i as int),
        decreases ms@.len() - i,
    {
        let t = TagObject {
            namespace: ns.copied(),
            relates_to: opt_sub_copy(&relates),
            tag: doc.text(Some(ms[i])),
            tag_type: tagtype.copied(),
        };
        let ghost before = tags_list@;
        tags_list.push(t);
        proof {
            assert(all.take(i + 1) =~= all.take(i as int).push(all[i as int]));
            assert(tags_v(tags_list@) =~= tags_v(before).push(tag_v(t)));
        }
        i = i + 1;
    }
    assert(all.take(ms@.len() as int) =~= all);
}

/// The url of a pool's JSON.
pub open spec fn pool_url(t: Seq<char>) -> Seq<char> {
    "https://e6ai.net/pools?format=json&search[id="@ + t + "]"@
}

/// The two tags a pool of a post gives: its id, and a url job for the pool.
pub open spec fn pool_link_pair(t: Seq<char>) -> Seq<TagV> {
    seq![
        plain_tag(nsv(NsIdent::PoolId), None, t),
        TagV {
            namespace: NsV { name: "Do Not Add"@, description: Some("DO NOT PARSE ME"@) },
            relates_to: None,
            tag: pool_url(t),
            tag_type: TagTypeV::ParseUrl(
                JobV { site: "e6"@, param: Seq::empty(), original: pool_url(t), job_type: DbJobType::Scraper },
                SkipV::Never,
            ),
        },
    ]
}

pub open spec fn pool_links(d: Seq<NodeView>, ms: Seq<usize>) -> Seq<TagV>
    decreases ms.len(),
{
    if ms.len() == 0 { Seq::empty() } else { pool_links(d, ms.drop_last()) + pool_link_pair(text_at(d, Some(ms.last()))) }
}

/// The tags of a post's parent, where it has one.
pub open spec fn parent_tags(d: Seq<NodeView>, post: Option<usize>) -> Seq<TagV> {
    let rel = jget(d, post, "relationships"@);
    let pid = jget(d, rel, "parent_id"@);
    let fid = sub_v(NsIdent::FileId, text_at(d, jget(d, post, "id"@)));
    if nv(d, pid).kind != JsonKind::Null {
        seq![plain_tag(nsv(NsIdent::Parent), Some(fid), text_at(d, pid))] + sub_tags(d, rel, nsv(NsIdent::Parent), Some(fid), TagTypeV::Normal)
    } else {
        Seq::empty()
    }
}

/// The tags of a post, in the order they are read.
pub open spec fn post_tags(d: Seq<NodeView>, post: Option<usize>) -> Seq<TagV> {
    let tags = jget(d, post, "tags"@);
    let pools = jget(d, post, "pools"@);
    let desc = jget(d, post, "description"@);
    let fid = sub_v(NsIdent::FileId, text_at(d, jget(d, post, "id"@)));
    sub_tags(d, tags, nsv(NsIdent::General), None, TagTypeV::Normal)
        + sub_tags(d, tags, nsv(NsIdent::Species), None, TagTypeV::Normal)
        + sub_tags(d, tags, nsv(NsIdent::Character), None, TagTypeV::Normal)
        + sub_tags(d, tags, nsv(NsIdent::Copyright), None, TagTypeV::Normal)
        + sub_tags(d, tags, nsv(NsIdent::Artist), None, TagTypeV::Normal)
        + sub_tags(d, tags, nsv(NsIdent::Lore), None, TagTypeV::Normal)
        + sub_tags(d, tags, nsv(NsIdent::Meta), None, TagTypeV::Normal)
        + sub_tags(d, post, nsv(NsIdent::Sources), None, TagTypeV::Normal)
        + (if nv(d, pools).kind != JsonKind::Null { pool_links(d, jmembers(d, pools)) } else { Seq::empty() })
        + sub_tags(d, jget(d, post, "relationships"@), nsv(NsIdent::Children), Some(fid), TagTypeV::Normal)
        + (if !nv(d, desc).empty { seq![plain_tag(nsv(NsIdent::Description), None, text_at(d, desc))] } else { Seq::empty() })
        + seq![
            plain_tag(nsv(NsIdent::Rating), None, text_at(d, jget(d, post, "rating"@))),
            plain_tag(nsv(NsIdent::FileId), None, text_at(d, jget(d, post, "id"@))),
        ]
        + parent_tags(d, post)
}

/// A post's file: its url (or the static url made of its md5 and
/// extension), its md5, and its tags.
pub open spec fn post_file(d: Seq<NodeView>, post: Option<usize>) -> FileV {
    let file = jget(d, post, "file"@);
    let url = jget(d, file, "url"@);
    let md5 = text_at(d, jget(d, file, "md5"@));
    let ext = text_at(d, jget(d, file, "ext"@));
    FileV {
        source_url: Some(if nv(d, url).kind == JsonKind::Null { source_url_spec(md5, ext) } else { text_at(d, url) }),
        hash: Some(HashV::Md5(md5)),
        tag_list: post_tags(d, post),
    }
}

/// A post can be read: where it has no url, its md5 starts with four ASCII
/// characters.
pub open spec fn post_ok(d: Seq<NodeView>, post: Option<usize>) -> bool {
    let file = jget(d, post, "file"@);
    nv(d, jget(d, file, "url"@)).kind == JsonKind::Null ==> md5_cuts_ok(text_at(d, jget(d, file, "md5"@)))
}

/// The files of the posts, one per post in order.
pub open spec fn posts_files(d: Seq<NodeView>, posts: Option<usize>, n: nat) -> Seq<FileV> {
    Seq::new(n, |i: int| post_file(d, jitem(d, posts, i)))
}

fn push_tag(list: &mut Vec<TagObject>, namespace: GenericNamespaceObj, relates_to: Option<SubTag>, tag: String)
    ensures
        tags_v(final(list)@) == tags_v(old(list)@).push(TagV { namespace: ns_v(namespace), relates_to: opt_sub_v(relates_to), tag: tag@, tag_type: TagTypeV::Normal }),
{
    let t = TagObject { namespace: namespace, relates_to: relates_to, tag: tag, tag_type: TagType::Normal };
    let ghost before = list@;
    list.push(t);
    assert(tags_v(list@) =~= tags_v(before).push(tag_v(t)));
}

fn pool_link_tags(list: &mut Vec<TagObject>, doc: &JsonDoc, pools: Option<usize>)
    ensures
        tags_v(final(list)@) == tags_v(old(list)@) + pool_links(doc@, jmembers(doc@, pools)),
{
    let ms = doc.members(pools);
    let ghost start = tags_v(list@);
    let mut i: usize = 0;
    while i < ms.len()
        invariant
            i <= ms@.len(),
            ms@ == jmembers(doc@, pools),
            tags_v(list@) == start + pool_links(doc@, ms@.take(i as int)),
        decreases ms@.len() - i,
    {
        let each = doc.text(Some(ms[i]));
        push_tag(list, nsobjplg(&NsIdent::PoolId), None, each.clone());
        let mut url = String::from_str("https://e6ai.net/pools?format=json&search[id=");
        url.append(each.as_str());
        url.append("]");
        let job = JobScraper { site: String::from_str("e6"), param: Vec::new(), original_param: url.clone(), job_type: DbJobType::Scraper };
        let t = TagObject {
            namespace: GenericNamespaceObj { name: String::from_str("Do Not Add"), description: Some(String::from_str("DO NOT PARSE ME")) },
            relates_to: None,
            tag: url,
            tag_type: TagType::ParseUrl(job, SkipIf::Never),
        };
        let ghost before = list@;
        list.push(t);
        proof {
            assert(ms@.take(i + 1).drop_last() =~= ms@.take(i as int));
            assert(job.param@.map_values(|p: ScraperParam| crate::sharedtypes::param_v(p)) =~= Seq::empty());
            assert(tags_v(list@) =~= tags_v(before).push(tag_v(t)));
        }
        i = i + 1;
    }
    assert(ms@.take(ms@.len() as int) =~= ms@);
}

fn file_sub(doc: &JsonDoc, post: Option<usize>) -> (r: SubTag)
    ensures
        subtag_v(r) == sub_v(NsIdent::FileId, text_at(doc@, jget(doc@, post, "id"@))),
{
    let id = doc.get(post, "id");
    subgen(&NsIdent::FileId, doc.text(id), TagType::Normal)
}

/// Reads one post into a file.
fn post_to_file(doc: &JsonDoc, post: Option<usize>) -> (r: FileObject)
    requires
        post_ok(doc@, post),
    ensures
        file_v(r) == post_file(doc@, post),
{
    let mut tags_list: Vec<TagObject> = Vec::new();
    let tags = doc.get(post, "tags");
    json_sub_tag(&mut tags_list, doc, tags, nsobjplg(&NsIdent::General), None, TagType::Normal);
    json_sub_tag(&mut tags_list, doc, tags, nsobjplg(&NsIdent::Species), None, TagType::Normal);
    json_sub_tag(&mut tags_list, doc, tags, nsobjplg(&NsIdent::Character), None, TagType::Normal);
    json_sub_tag(&mut tags_list, doc, tags, nsobjplg(&NsIdent::Copyright), None, TagType::Normal);
    json_sub_tag(&mut tags_list, doc, tags, nsobjplg(&NsIdent::Artist), None, TagType::Normal);
    json_sub_tag(&mut tags_list, doc, tags, nsobjplg(&NsIdent::Lore), None, TagType::Normal);
    json_sub_tag(&mut tags_list, doc, tags, nsobjplg(&NsIdent::Meta), None, TagType::Normal);
    json_sub_tag(&mut tags_list, doc, post, nsobjplg(&NsIdent::Sources), None, TagType::Normal);
    let pools = doc.get(post, "pools");
    if !doc.is_null(pools) {
        pool_link_tags(&mut tags_list, doc, pools);
    }
    let rel = doc.get(post, "relationships");
    json_sub_tag(&mut tags_list, doc, rel, nsobjplg(&NsIdent::Children), Some(file_sub(doc, post)), TagType::Normal);
    let desc = doc.get(post, "description");
    if !doc.is_empty(desc) {
        push_tag(&mut tags_list, nsobjplg(&NsIdent::Description), None, doc.text(desc));
    }
    push_tag(&mut tags_list, nsobjplg(&NsIdent::Rating), None, doc.text(doc.get(post, "rating")));
    push_tag(&mut tags_list, nsobjplg(&NsIdent::FileId), None, doc.text(doc.get(post, "id")));
    let pid = doc.get(rel, "parent_id");
    if !doc.is_null(pid) {
        push_tag(&mut tags_list, nsobjplg(&NsIdent::Parent), Some(file_sub(doc, post)), doc.text(pid));
        json_sub_tag(&mut tags_list, doc, rel, nsobjplg(&NsIdent::Parent), Some(file_sub(doc, post)), TagType::Normal);
    }
    let file = doc.get(post, "file");
    let url_node = doc.get(file, "url");
    let md5 = doc.text(doc.get(file, "md5"));
    let url = if doc.is_null(url_node) {
        let ext = doc.text(doc.get(file, "ext"));
        gen_source_from_md5_ext(&md5, &ext)
    } else {
        doc.text(url_node)
    };
    let r = FileObject { source_url: Some(url), hash: Some(HashesSupported::Md5(md5)), tag_list: tags_list };
    proof {
        let d = doc@;
        assert(tags_v(r.tag_list@) =~= post_tags(d, post));
    }
    r
}

fn push_distinct_file(list: &mut Vec<FileObject>, f: FileObject)
    ensures
        files_v(final(list)@) == (if files_v(old(list)@).contains(file_v(f)) { files_v(old(list)@) } else { files_v(old(list)@).push(file_v(f)) }),
{
    let mut i: usize = 0;
    while i < list.len()
        invariant
            i <= list@.len(),
            forall|j: int| 0 <= j < i ==> file_v(#[trigger] list@[j]) != file_v(f),
        decreases list@.len() - i,
    {
        if list[i].same(&f) {
            assert(files_v(list@)[i as int] == file_v(f));
            return;
        }
        i = i + 1;
    }
    let ghost before = list@;
    proof {
        assert forall|j: int| 0 <= j < files_v(before).len() implies files_v(before)[j] != file_v(f) by {
            assert(files_v(before)[j] == file_v(before[j]));
        }
    }
    list.push(f);
    assert(files_v(list@) =~= files_v(before).push(file_v(f)));
}

fn push_distinct_tag(list: &mut Vec<TagObject>, t: TagObject)
    ensures
        tags_v(final(list)@) == (if tags_v(old(list)@).contains(tag_v(t)) { tags_v(old(list)@) } else { tags_v(old(list)@).push(tag_v(t)) }),
{
    let mut i: usize = 0;
    while i < list.len()
        invariant
            i <= list@.len(),
            forall|j: int| 0 <= j < i ==> tag_v(#[trigger] list@[j]) != tag_v(t),
        decreases list@.len() - i,
    {
        if list[i].same(&t) {
            assert(tags_v(list@)[i as int] == tag_v(t));
            return;
        }
        i = i + 1;
    }
    let ghost before = list@;
    proof {
        assert forall|j: int| 0 <= j < tags_v(before).len() implies tags_v(before)[j] != tag_v(t) by {
            assert(tags_v(before)[j] == tag_v(before[j]));
        }
    }
    list.push(t);
    assert(tags_v(list@) =~= tags_v(before).push(tag_v(t)));
}

/// Why a text that is not JSON was returned: a robot check, a bad gateway,
/// a failed handshake or maintenance ask to wait; anything else stops.
pub open spec fn not_json_return(p: Seq<char>) -> ReturnV {
    if has_text(p, "Please confirm you are not a robot."@) {
        ReturnV::Timeout(20)
    } else if has_text(p, "502: Bad gateway"@) {
        ReturnV::Timeout(10)
    } else if has_text(p, "SSL handshake failed"@) {
        ReturnV::Timeout(10)
    } else if has_text(p, "e6ai Maintenance"@) {
        ReturnV::Timeout(240)
    } else {
        ReturnV::EMCStop("Unknown Error"@)
    }
}


/// The seconds since the epoch `chrono`'s `DateTime::parse_from_str` reads
/// from a text in a format (with its offset applied), or `None` where the
/// text does not fit the format.
pub uninterp spec fn datetime_timestamp_of(s: Seq<char>, fmt: Seq<char>) -> Option<i64>;

/// `chrono::DateTime::parse_from_str` followed by `timestamp`; the result
/// is named by `datetime_timestamp_of`.
#[verifier::external_body]
fn parse_timestamp(s: &str, fmt: &str) -> (r: Option<i64>)
    ensures
        r == datetime_timestamp_of(s@, fmt@),
{
    match chrono::DateTime::parse_from_str(s, fmt) {
        Ok(t) => Some(t.timestamp()),
        Err(_) => None,
    }
}

/// The format pool times are written in.
pub open spec fn pool_time_format() -> Seq<char> {
    "%Y-%m-%dT%H:%M:%S.%f%:z"@
}

/// A pool's time under a key, in seconds since the epoch.
pub open spec fn pool_time(d: Seq<NodeView>, p: Option<usize>, key: Seq<char>) -> Option<i64> {
    datetime_timestamp_of(text_at(d, jget(d, p, key)), pool_time_format())
}

/// The tags describing a pool: its id, creator, creator's id, name,
/// description, and times of creation and update.
pub open spec fn pool_head_tags(d: Seq<NodeView>, p: Option<usize>) -> Seq<TagV> {
    let id = text_at(d, jget(d, p, "id"@));
    let cn = text_at(d, jget(d, p, "creator_name"@));
    let pid = Some(sub_v(NsIdent::PoolId, id));
    seq![
        plain_tag(nsv(NsIdent::PoolId), None, id),
        plain_tag(nsv(NsIdent::PoolCreator), pid, cn),
        plain_tag(nsv(NsIdent::PoolCreatorId), Some(sub_v(NsIdent::PoolCreator, cn)), text_at(d, jget(d, p, "creator_id"@))),
        plain_tag(nsv(NsIdent::PoolName), pid, text_at(d, jget(d, p, "name"@))),
        plain_tag(nsv(NsIdent::Description), pid, text_at(d, jget(d, p, "description"@))),
        plain_tag(nsv(NsIdent::PoolCreatedAt), pid, idec(pool_time(d, p, "created_at"@).unwrap() as int)),
        plain_tag(nsv(NsIdent::PoolUpdatedAt), pid, idec(pool_time(d, p, "updated_at"@).unwrap() as int)),
    ]
}

/// The tags linking a pool to one of its posts at a position: a job for
/// the post (skipped where the post is known), the post's place in the
/// pool, and its position.
pub open spec fn post_link_tags(id: Seq<char>, post: Seq<char>, cnt: nat) -> Seq<TagV> {
    seq![
        TagV {
            namespace: nsv(NsIdent::PoolId),
            relates_to: None,
            tag: id,
            tag_type: TagTypeV::ParseUrl(
                JobV { site: "e6ai"@, param: Seq::empty(), original: "https://e6ai.net/posts.json?tags=id:"@ + post, job_type: DbJobType::Scraper },
                SkipV::Tag { tag: post, namespace: nsv(NsIdent::FileId), needsrelationship: true },
            ),
        },
        plain_tag(nsv(NsIdent::PoolId), Some(sub_v(NsIdent::FileId, post)), id),
        plain_tag(nsv(NsIdent::PoolPosition), Some(sub_v(NsIdent::FileId, post)), dec(cnt)),
        plain_tag(nsv(NsIdent::PoolId), Some(sub_v(NsIdent::PoolPosition, id)), id),
    ]
}

pub open spec fn pool_post_tags(d: Seq<NodeView>, id: Seq<char>, ms: Seq<usize>) -> Seq<TagV>
    decreases ms.len(),
{
    if ms.len() == 0 {
        Seq::empty()
    } else {
        pool_post_tags(d, id, ms.drop_last()) + post_link_tags(id, text_at(d, Some(ms.last())), (ms.len() - 1) as nat)
    }
}

/// The tags of one pool.
pub open spec fn pool_tags(d: Seq<NodeView>, p: Option<usize>) -> Seq<TagV> {
    pool_head_tags(d, p) + pool_post_tags(d, text_at(d, jget(d, p, "id"@)), jmembers(d, jget(d, p, "post_ids"@)))
}

/// Whether a pool has an id; pools without one are passed over.
pub open spec fn pool_counts(d: Seq<NodeView>, p: Option<usize>) -> bool {
    nv(d, jget(d, p, "id"@)).kind != JsonKind::Null
}

/// The tags of the pools, in order.
pub open spec fn pools_tags(d: Seq<NodeView>, ms: Seq<usize>) -> Seq<TagV>
    decreases ms.len(),
{
    if ms.len() == 0 {
        Seq::empty()
    } else {
        let rest = pools_tags(d, ms.drop_last());
        if pool_counts(d, Some(ms.last())) { rest + pool_tags(d, Some(ms.last())) } else { rest }
    }
}

/// One file without url, hash or tags for each pool.
pub open spec fn pools_files(d: Seq<NodeView>, ms: Seq<usize>) -> Seq<FileV>
    decreases ms.len(),
{
    if ms.len() == 0 {
        Seq::empty()
    } else {
        let rest = pools_files(d, ms.drop_last());
        if pool_counts(d, Some(ms.last())) { rest.push(FileV { source_url: None, hash: None, tag_list: Seq::empty() }) } else { rest }
    }
}

/// Every pool with an id has times that parse.
pub open spec fn pools_ok(d: Seq<NodeView>, ms: Seq<usize>) -> bool {
    forall|i: int| 0 <= i < ms.len() && pool_counts(d, Some(#[trigger] ms[i])) ==> {
        &&& pool_time(d, Some(ms[i]), "created_at"@).is_some()
        &&& pool_time(d, Some(ms[i]), "updated_at"@).is_some()
    }
}

fn insert_tag(list: &mut Vec<TagObject>, t: TagObject, Ghost(acc): Ghost<Seq<TagV>>)
    requires
        tags_v(old(list)@) == dedup(acc),
    ensures
        tags_v(final(list)@) == dedup(acc.push(tag_v(t))),
{
    proof {
        assert(acc.push(tag_v(t)).drop_last() =~= acc);
    }
    push_distinct_tag(list, t);
}

fn plain_obj(ns: &NsIdent, rel: Option<SubTag>, tag: String) -> (r: TagObject)
    ensures
        tag_v(r) == plain_tag(nsv(*ns), opt_sub_v(rel), tag@),
{
    TagObject { namespace: nsobjplg(ns), relates_to: rel, tag: tag, tag_type: TagType::Normal }
}

/// Reads a list of pools into one empty file and the pools' tags, each
/// once.
fn parse_pools(doc: &JsonDoc, js: Option<usize>) -> (r: (Vec<FileObject>, Vec<TagObject>))
    requires
        pools_ok(doc@, jmembers(doc@, js)),
    ensures
        files_v(r.0@) == dedup(pools_files(doc@, jmembers(doc@, js))),
        tags_v(r.1@) == dedup(pools_tags(doc@, jmembers(doc@, js))),
{
    let ghost d = doc@;
    let ms = doc.members(js);
    let mut files: Vec<FileObject> = Vec::new();
    let mut tag: Vec<TagObject> = Vec::new();
    let ghost mut tacc: Seq<TagV> = Seq::empty();
    let fmt = "%Y-%m-%dT%H:%M:%S.%f%:z";
    let mut i: usize = 0;
    while i < ms.len()
        invariant
            d == doc@,
            i <= ms@.len(),
            ms@ == jmembers(d, js),
            pools_ok(d, ms@),
            fmt@ == pool_time_format(),
            tacc == pools_tags(d, ms@.take(i as int)),
            tags_v(tag@) == dedup(tacc),
            files_v(files@) == dedup(pools_files(d, ms@.take(i as int))),
        decreases ms@.len() - i,
    {
        let p = Some(ms[i]);
        proof {
            assert(ms@.take(i + 1).drop_last() =~= ms@.take(i as int));
            assert(ms@.take(i + 1).last() == ms@[i as int]);
        }
        let idn = doc.get(p, "id");
        if !doc.is_null(idn) {
            let ghost base = tacc;
            let id = doc.text(idn);
            let cn = doc.text(doc.get(p, "creator_name"));
            insert_tag(&mut tag, plain_obj(&NsIdent::PoolId, None, id.clone()), Ghost(tacc));
            proof { tacc = tacc.push(plain_tag(nsv(NsIdent::PoolId), None, id@)); }
            insert_tag(&mut tag, plain_obj(&NsIdent::PoolCreator, Some(subgen(&NsIdent::PoolId, id.clone(), TagType::Normal)), cn.clone()), Ghost(tacc));
            proof { tacc = tacc.push(pool_head_tags(d, p)[1]); }
            insert_tag(&mut tag, plain_obj(&NsIdent::PoolCreatorId, Some(subgen(&NsIdent::PoolCreator, cn.clone(), TagType::Normal)), doc.text(doc.get(p, "creator_id"))), Ghost(tacc));
            proof { tacc = tacc.push(pool_head_tags(d, p)[2]); }
            insert_tag(&mut tag, plain_obj(&NsIdent::PoolName, Some(subgen(&NsIdent::PoolId, id.clone(), TagType::Normal)), doc.text(doc.get(p, "name"))), Ghost(tacc));
            proof { tacc = tacc.push(pool_head_tags(d, p)[3]); }
            insert_tag(&mut tag, plain_obj(&NsIdent::Description, Some(subgen(&NsIdent::PoolId, id.clone(), TagType::Normal)), doc.text(doc.get(p, "description"))), Ghost(tacc));
            proof { tacc = tacc.push(pool_head_tags(d, p)[4]); }
            let created = match parse_timestamp(doc.text(doc.get(p, "created_at")).as_str(), fmt) {
                Some(t) => t,
                None => {
                    assert(false);
                    0
                },
            };
            let updated = match parse_timestamp(doc.text(doc.get(p, "updated_at")).as_str(), fmt) {
                Some(t) => t,
                None => {
                    assert(false);
                    0
                },
            };
            insert_tag(&mut tag, plain_obj(&NsIdent::PoolCreatedAt, Some(subgen(&NsIdent::PoolId, id.clone(), TagType::Normal)), i64_to_string(created)), Ghost(tacc));
            proof { tacc = tacc.push(pool_head_tags(d, p)[5]); }
            insert_tag(&mut tag, plain_obj(&NsIdent::PoolUpdatedAt, Some(subgen(&NsIdent::PoolId, id.clone(), TagType::Normal)), i64_to_string(updated)), Ghost(tacc));
            proof {
                tacc = tacc.push(pool_head_tags(d, p)[6]);
                assert(tacc =~= base + pool_head_tags(d, p));
            }
            let pids = doc.members(doc.get(p, "post_ids"));
            let mut cnt: usize = 0;
            while cnt < pids.len()
                invariant
                    d == doc@,
                    cnt <= pids@.len(),
                    pids@ == jmembers(d, jget(d, p, "post_ids"@)),
                    id@ == text_at(d, jget(d, p, "id"@)),
                    tacc == base + pool_head_tags(d, p) + pool_post_tags(d, id@, pids@.take(cnt as int)),
                    tags_v(tag@) == dedup(tacc),
                decreases pids@.len() - cnt,
            {
                let ghost before = tacc;
                let pt = doc.text(Some(pids[cnt]));
                let mut orig = String::from_str("https://e6ai.net/posts.json?tags=id:");
                orig.append(pt.as_str());
                let job = JobScraper { site: String::from_str("e6ai"), param: Vec::new(), original_param: orig, job_type: DbJobType::Scraper };
                let skip = SkipIf::Tag(Tag { tag: pt.clone(), namespace: nsobjplg(&NsIdent::FileId), needsrelationship: true });
                let t0 = TagObject { namespace: nsobjplg(&NsIdent::PoolId), relates_to: None, tag: id.clone(), tag_type: TagType::ParseUrl(job, skip) };
                let ghost links = post_link_tags(id@, pt@, cnt as nat);
                proof {
                    assert(job.param@.map_values(|q: ScraperParam| crate::sharedtypes::param_v(q)) =~= Seq::empty());
                    assert(tag_v(t0) == links[0]);
                }
                insert_tag(&mut tag, t0, Ghost(tacc));
                proof { tacc = tacc.push(links[0]); }
                insert_tag(&mut tag, plain_obj(&NsIdent::PoolId, Some(subgen(&NsIdent::FileId, pt.clone(), TagType::Normal)), id.clone()), Ghost(tacc));
                proof { tacc = tacc.push(links[1]); }
                insert_tag(&mut tag, plain_obj(&NsIdent::PoolPosition, Some(subgen(&NsIdent::FileId, pt.clone(), TagType::Normal)), usize_to_string(cnt)), Ghost(tacc));
                proof { tacc = tacc.push(links[2]); }
                insert_tag(&mut tag, plain_obj(&NsIdent::PoolId, Some(subgen(&NsIdent::PoolPosition, id.clone(), TagType::Normal)), id.clone()), Ghost(tacc));
                proof {
                    tacc = tacc.push(links[3]);
                    assert(pids@.take(cnt + 1).drop_last() =~= pids@.take(cnt as int));
                    assert(tacc =~= before + links);
                }
                cnt = cnt + 1;
            }
            proof {
                assert(pids@.take(pids@.len() as int) =~= pids@);
            }
            let ghost fb = pools_files(d, ms@.take(i as int));
            let empty_file = FileObject { source_url: None, hash: None, tag_list: Vec::new() };
            let ghost fv = FileV { source_url: None, hash: None, tag_list: Seq::empty() };
            proof {
                assert(file_v(empty_file).tag_list =~= Seq::empty());
                assert(file_v(empty_file) == fv);
            }
            push_distinct_file(&mut files, empty_file);
            proof {
                assert(fb.push(fv).drop_last() =~= fb);
                assert(pool_counts(d, Some(ms@[i as int])));
                assert(pools_files(d, ms@.take(i + 1)) == fb.push(fv));
            }
        } else {
            proof {
                assert(!pool_counts(d, Some(ms@[i as int])));
            }
        }
        i = i + 1;
    }
    proof {
        assert(ms@.take(ms@.len() as int) =~= ms@);
    }
    (files, tag)
}


/// Every post can be read.
pub open spec fn posts_ok(d: Seq<NodeView>, posts: Option<usize>) -> bool {
    forall|i: int| 0 <= i < jlen(d, posts) ==> post_ok(d, #[trigger] jitem(d, posts, i))
}

/// The position of a document's whole value.
pub open spec fn doc_root(d: Seq<NodeView>) -> Option<usize> {
    if d.len() > 0 { Some((d.len() - 1) as usize) } else { None }
}

/// What the parser needs of a text: where it is JSON with posts, each post
/// without a url has an md5 that starts with four ASCII characters; where
/// it has no posts, every pool's times parse.
pub open spec fn parser_ok(p: Seq<char>) -> bool {
    match json_doc_of(p) {
        None => true,
        Some(d) => {
            let posts = jget(d, doc_root(d), "posts"@);
            if nv(d, posts).empty && nv(d, posts).kind != JsonKind::Null {
                true
            } else if nv(d, posts).kind == JsonKind::Null {
                pools_ok(d, jmembers(d, doc_root(d)))
            } else {
                posts_ok(d, posts)
            }
        }
    }
}

/// What the parser returns for a text: for text that is not JSON, why;
/// for an empty list of posts, nothing; without posts, the pools; else
/// one file per post (repeats once), and no free tags.
pub open spec fn parser_spec(p: Seq<char>) -> Result<(Seq<FileV>, Seq<TagV>), ReturnV> {
    match json_doc_of(p) {
        None => Err(not_json_return(p)),
        Some(d) => {
            let root = doc_root(d);
            let posts = jget(d, root, "posts"@);
            if nv(d, posts).empty && nv(d, posts).kind != JsonKind::Null {
                Err(ReturnV::Nothing)
            } else if nv(d, posts).kind == JsonKind::Null {
                Ok((dedup(pools_files(d, jmembers(d, root))), dedup(pools_tags(d, jmembers(d, root)))))
            } else {
                Ok((dedup(posts_files(d, posts, jlen(d, posts))), Seq::empty()))
            }
        }
    }
}

/// The namespaces whose tags a post lists under `tags`, each under its
/// lower-case name.
pub open spec fn post_tag_namespace(n: NsIdent) -> bool {
    ||| n == NsIdent::General
    ||| n == NsIdent::Species
    ||| n == NsIdent::Character
    ||| n == NsIdent::Copyright
    ||| n == NsIdent::Artist
    ||| n == NsIdent::Lore
    ||| n == NsIdent::Meta
}

/// The post at position `i` of the posts a document holds.
pub open spec fn post_at(d: Seq<NodeView>, i: int) -> Option<usize> {
    jitem(d, jget(d, doc_root(d), "posts"@), i)
}

/// The md5 text a post gives for its file.
pub open spec fn post_md5(d: Seq<NodeView>, post: Option<usize>) -> Seq<char> {
    text_at(d, jget(d, jget(d, post, "file"@), "md5"@))
}

/// The elements a post lists under a namespace's lower-case name in its
/// `tags`.
pub open spec fn post_listed(d: Seq<NodeView>, post: Option<usize>, n: NsIdent) -> Seq<usize> {
    jmembers(d, jget(d, jget(d, post, "tags"@), lowercase_of(ns_name(n))))
}

/// Every tag a post lists (general, species, character, copyright,
/// director, lore, meta) reaches the file parsed for that post: among the
/// files returned there is one with the post's md5 whose tag list holds
/// the element as a normal tag in that namespace, relating to nothing.
pub proof fn law_parser_keeps_listed_tags(p: Seq<char>, d: Seq<NodeView>, i: int, n: NsIdent, j: int)
    requires
        json_doc_of(p) == Some(d),
        nv(d, jget(d, doc_root(d), "posts"@)).kind != JsonKind::Null,
        !nv(d, jget(d, doc_root(d), "posts"@)).empty,
        0 <= i < jlen(d, jget(d, doc_root(d), "posts"@)),
        post_tag_namespace(n),
        0 <= j < post_listed(d, post_at(d, i), n).len(),
    ensures
        parser_spec(p) matches Ok(r) && exists|k: int| 0 <= k < r.0.len()
            && (#[trigger] r.0[k]).hash == Some(HashV::Md5(post_md5(d, post_at(d, i))))
            && r.0[k].tag_list.contains(TagV {
                namespace: nsv(n),
                relates_to: None,
                tag: text_at(d, Some(post_listed(d, post_at(d, i), n)[j])),
                tag_type: TagTypeV::Normal,
            }),
{
    broadcast use vstd::seq_lib::lemma_seq_concat_contains_all_elements;
    let posts = jget(d, doc_root(d), "posts"@);
    let post = post_at(d, i);
    let all = posts_files(d, posts, jlen(d, posts));
    let f = post_file(d, post);
    assert(all[i] == f);
    assert(all.contains(f));
    crate::migrate::lemma_dedup_contains(all, f);
    let files = dedup(all);
    let k = choose|k: int| 0 <= k < files.len() && files[k] == f;
    let tags = jget(d, post, "tags"@);
    let x = TagV { namespace: nsv(n), relates_to: None, tag: text_at(d, Some(post_listed(d, post, n)[j])), tag_type: TagTypeV::Normal };
    let st = sub_tags(d, tags, nsv(n), None, TagTypeV::Normal);
    assert(st[j] == x);
    assert(st.contains(x));
    assert(f.tag_list.contains(x));
    assert(parser_spec(p) == Ok::<(Seq<FileV>, Seq<TagV>), ReturnV>((files, Seq::<TagV>::empty())));
    assert(files[k].hash == Some(HashV::Md5(post_md5(d, post))));
    assert(files[k].tag_list.contains(x));
    let r = parser_spec(p)->Ok_0;
    assert(r.0 == files);
    assert(0 <= k < r.0.len() && r.0[k].hash == Some(HashV::Md5(post_md5(d, post_at(d, i)))) && r.0[k].tag_list.contains(x));
}

/// The sources a post lists.
pub open spec fn post_sources(d: Seq<NodeView>, post: Option<usize>) -> Seq<usize> {
    jmembers(d, jget(d, post, lowercase_of(ns_name(NsIdent::Sources))))
}

/// The children a post's relationships list.
pub open spec fn post_children(d: Seq<NodeView>, post: Option<usize>) -> Seq<usize> {
    jmembers(d, jget(d, jget(d, post, "relationships"@), lowercase_of(ns_name(NsIdent::Children))))
}

/// The parent a post's relationships name.
pub open spec fn post_parent(d: Seq<NodeView>, post: Option<usize>) -> Option<usize> {
    jget(d, jget(d, post, "relationships"@), "parent_id"@)
}

/// The file parsed for a post carries the post's rating and id as tags,
/// each of its sources as a tag in the sources namespace, each of its
/// children and its parent (where it has one) as tags that relate to the
/// post's id, and its description where that is not empty.
pub proof fn law_parser_keeps_post_facts(p: Seq<char>, d: Seq<NodeView>, i: int)
    requires
        json_doc_of(p) == Some(d),
        nv(d, jget(d, doc_root(d), "posts"@)).kind != JsonKind::Null,
        !nv(d, jget(d, doc_root(d), "posts"@)).empty,
        0 <= i < jlen(d, jget(d, doc_root(d), "posts"@)),
    ensures
        parser_spec(p) matches Ok(r) && exists|k: int| 0 <= k < r.0.len()
            && (#[trigger] r.0[k]).hash == Some(HashV::Md5(post_md5(d, post_at(d, i))))
            && r.0[k].tag_list.contains(plain_tag(nsv(NsIdent::Rating), None, text_at(d, jget(d, post_at(d, i), "rating"@))))
            && r.0[k].tag_list.contains(plain_tag(nsv(NsIdent::FileId), None, text_at(d, jget(d, post_at(d, i), "id"@))))
            && (forall|j: int| 0 <= j < post_sources(d, post_at(d, i)).len()
                ==> r.0[k].tag_list.contains(plain_tag(nsv(NsIdent::Sources), None, text_at(d, Some(#[trigger] post_sources(d, post_at(d, i))[j])))))
            && (forall|j: int| 0 <= j < post_children(d, post_at(d, i)).len()
                ==> r.0[k].tag_list.contains(TagV {
                    namespace: nsv(NsIdent::Children),
                    relates_to: Some(SubTagV { namespace: nsv(NsIdent::FileId), tag: text_at(d, jget(d, post_at(d, i), "id"@)), tag_type: TagTypeV::Normal }),
                    tag: text_at(d, Some(#[trigger] post_children(d, post_at(d, i))[j])),
                    tag_type: TagTypeV::Normal,
                }))
            && (nv(d, post_parent(d, post_at(d, i))).kind != JsonKind::Null ==> r.0[k].tag_list.contains(TagV {
                    namespace: nsv(NsIdent::Parent),
                    relates_to: Some(SubTagV { namespace: nsv(NsIdent::FileId), tag: text_at(d, jget(d, post_at(d, i), "id"@)), tag_type: TagTypeV::Normal }),
                    tag: text_at(d, post_parent(d, post_at(d, i))),
                    tag_type: TagTypeV::Normal,
                }))
            && (!nv(d, jget(d, post_at(d, i), "description"@)).empty ==> r.0[k].tag_list.contains(
                plain_tag(nsv(NsIdent::Description), None, text_at(d, jget(d, post_at(d, i), "description"@)))))
            && (nv(d, jget(d, post_at(d, i), "pools"@)).kind != JsonKind::Null ==> forall|j: int| 0 <= j < jmembers(d, jget(d, post_at(d, i), "pools"@)).len()
                ==> r.0[k].tag_list.contains(plain_tag(nsv(NsIdent::PoolId), None, text_at(d, Some(#[trigger] jmembers(d, jget(d, post_at(d, i), "pools"@))[j]))))),
{
    broadcast use vstd::seq_lib::lemma_seq_concat_contains_all_elements;
    let posts = jget(d, doc_root(d), "posts"@);
    let post = post_at(d, i);
    let all = posts_files(d, posts, jlen(d, posts));
    let f = post_file(d, post);
    assert(all[i] == f);
    assert(all.contains(f));
    crate::migrate::lemma_dedup_contains(all, f);
    let files = dedup(all);
    let k = choose|k: int| 0 <= k < files.len() && files[k] == f;
    let rating = plain_tag(nsv(NsIdent::Rating), None, text_at(d, jget(d, post, "rating"@)));
    let fid = plain_tag(nsv(NsIdent::FileId), None, text_at(d, jget(d, post, "id"@)));
    let pair = seq![rating, fid];
    assert(pair[0] == rating && pair[1] == fid);
    assert(pair.contains(rating) && pair.contains(fid));
    assert(f.tag_list.contains(rating) && f.tag_list.contains(fid));
    let srcs = jmembers(d, jget(d, post, lowercase_of(ns_name(NsIdent::Sources))));
    let st = sub_tags(d, post, nsv(NsIdent::Sources), None, TagTypeV::Normal);
    assert forall|j: int| 0 <= j < srcs.len() implies f.tag_list.contains(plain_tag(nsv(NsIdent::Sources), None, text_at(d, Some(#[trigger] srcs[j])))) by {
        assert(st[j] == plain_tag(nsv(NsIdent::Sources), None, text_at(d, Some(srcs[j]))));
        assert(st.contains(st[j]));
    }
    let pools = jget(d, post, "pools"@);
    if nv(d, pools).kind != JsonKind::Null {
        let pms = jmembers(d, pools);
        assert forall|j: int| 0 <= j < pms.len() implies f.tag_list.contains(plain_tag(nsv(NsIdent::PoolId), None, text_at(d, Some(#[trigger] pms[j])))) by {
            lemma_pool_links_has(d, pms, j);
        }
    }
    let fidv = sub_v(NsIdent::FileId, text_at(d, jget(d, post, "id"@)));
    let kids = post_children(d, post);
    let ct = sub_tags(d, jget(d, post, "relationships"@), nsv(NsIdent::Children), Some(fidv), TagTypeV::Normal);
    assert forall|j: int| 0 <= j < kids.len() implies f.tag_list.contains(TagV {
        namespace: nsv(NsIdent::Children), relates_to: Some(fidv), tag: text_at(d, Some(#[trigger] kids[j])), tag_type: TagTypeV::Normal }) by {
        assert(ct.contains(ct[j]));
    }
    let desc = jget(d, post, "description"@);
    if !nv(d, desc).empty {
        let dt = seq![plain_tag(nsv(NsIdent::Description), None, text_at(d, desc))];
        assert(dt.contains(dt[0]));
    }
    let pid = post_parent(d, post);
    if nv(d, pid).kind != JsonKind::Null {
        let pt = parent_tags(d, post);
        assert(pt[0] == TagV { namespace: nsv(NsIdent::Parent), relates_to: Some(fidv), tag: text_at(d, pid), tag_type: TagTypeV::Normal });
        assert(pt.contains(pt[0]));
    }
    assert(parser_spec(p) == Ok::<(Seq<FileV>, Seq<TagV>), ReturnV>((files, Seq::<TagV>::empty())));
    let r = parser_spec(p)->Ok_0;
    assert(r.0 == files);
    assert(0 <= k < r.0.len() && r.0[k] == f);
}

proof fn lemma_pool_links_has(d: Seq<NodeView>, ms: Seq<usize>, j: int)
    requires
        0 <= j < ms.len(),
    ensures
        pool_links(d, ms).contains(plain_tag(nsv(NsIdent::PoolId), None, text_at(d, Some(ms[j])))),
    decreases ms.len(),
{
    broadcast use vstd::seq_lib::lemma_seq_concat_contains_all_elements;
    if j < ms.len() - 1 {
        lemma_pool_links_has(d, ms.drop_last(), j);
        assert(ms.drop_last()[j] == ms[j]);
    } else {
        let pr = pool_link_pair(text_at(d, Some(ms[j])));
        assert(pr.contains(pr[0]));
    }
}

proof fn lemma_pools_tags_has(d: Seq<NodeView>, ms: Seq<usize>, i: int, x: TagV)
    requires
        0 <= i < ms.len(),
        pool_counts(d, Some(ms[i])),
        pool_tags(d, Some(ms[i])).contains(x),
    ensures
        pools_tags(d, ms).contains(x),
    decreases ms.len(),
{
    broadcast use vstd::seq_lib::lemma_seq_concat_contains_all_elements;
    if i < ms.len() - 1 {
        lemma_pools_tags_has(d, ms.drop_last(), i, x);
        assert(ms.drop_last()[i] == ms[i]);
    }
}

proof fn lemma_pool_post_tags_has(d: Seq<NodeView>, id: Seq<char>, ms: Seq<usize>, j: int, x: TagV)
    requires
        0 <= j < ms.len(),
        post_link_tags(id, text_at(d, Some(ms[j])), j as nat).contains(x),
    ensures
        pool_post_tags(d, id, ms).contains(x),
    decreases ms.len(),
{
    broadcast use vstd::seq_lib::lemma_seq_concat_contains_all_elements;
    if j < ms.len() - 1 {
        lemma_pool_post_tags_has(d, id, ms.drop_last(), j, x);
        assert(ms.drop_last()[j] == ms[j]);
    }
}

/// The pools a document lists, where it has no posts.
pub open spec fn root_pools(d: Seq<NodeView>) -> Seq<usize> {
    jmembers(d, doc_root(d))
}

/// The posts a pool lists.
pub open spec fn pool_posts(d: Seq<NodeView>, pool: usize) -> Seq<usize> {
    jmembers(d, jget(d, Some(pool), "post_ids"@))
}

/// Where the document lists pools, each pool with an id gives, among the
/// tags returned, its id, its name relating to its id, and for each of its
/// posts, in order, the pool id and the post's position in the pool, both
/// relating to the post's id.
pub proof fn law_parser_keeps_pools(p: Seq<char>, d: Seq<NodeView>, i: int, j: int)
    requires
        json_doc_of(p) == Some(d),
        nv(d, jget(d, doc_root(d), "posts"@)).kind == JsonKind::Null,
        0 <= i < root_pools(d).len(),
        nv(d, jget(d, Some(root_pools(d)[i]), "id"@)).kind != JsonKind::Null,
    ensures
        parser_spec(p) matches Ok(r) && ({
            let pool = root_pools(d)[i];
            let id = text_at(d, jget(d, Some(pool), "id"@));
            let pid = SubTagV { namespace: nsv(NsIdent::PoolId), tag: id, tag_type: TagTypeV::Normal };
            &&& r.1.contains(plain_tag(nsv(NsIdent::PoolId), None, id))
            &&& r.1.contains(plain_tag(nsv(NsIdent::PoolName), Some(pid), text_at(d, jget(d, Some(pool), "name"@))))
            &&& (0 <= j < pool_posts(d, pool).len() ==> {
                let post = text_at(d, Some(pool_posts(d, pool)[j]));
                let fid = SubTagV { namespace: nsv(NsIdent::FileId), tag: post, tag_type: TagTypeV::Normal };
                &&& r.1.contains(plain_tag(nsv(NsIdent::PoolId), Some(fid), id))
                &&& r.1.contains(plain_tag(nsv(NsIdent::PoolPosition), Some(fid), dec(j as nat)))
            })
        }),
{
    broadcast use vstd::seq_lib::lemma_seq_concat_contains_all_elements;
    let ms = root_pools(d);
    let pool = ms[i];
    let id = text_at(d, jget(d, Some(pool), "id"@));
    let pid = sub_v(NsIdent::PoolId, id);
    let all = pools_tags(d, ms);
    let head = pool_head_tags(d, Some(pool));
    let a = plain_tag(nsv(NsIdent::PoolId), None, id);
    let b = plain_tag(nsv(NsIdent::PoolName), Some(pid), text_at(d, jget(d, Some(pool), "name"@)));
    assert(head[0] == a && head[3] == b);
    assert(head.contains(a) && head.contains(b));
    assert(pool_tags(d, Some(pool)).contains(a) && pool_tags(d, Some(pool)).contains(b));
    lemma_pools_tags_has(d, ms, i, a);
    lemma_pools_tags_has(d, ms, i, b);
    lemma_dedup_contains(all, a);
    lemma_dedup_contains(all, b);
    if 0 <= j < pool_posts(d, pool).len() {
        let ps = pool_posts(d, pool);
        let post = text_at(d, Some(ps[j]));
        let fid = sub_v(NsIdent::FileId, post);
        let lk = post_link_tags(id, post, j as nat);
        let c = plain_tag(nsv(NsIdent::PoolId), Some(fid), id);
        let e = plain_tag(nsv(NsIdent::PoolPosition), Some(fid), dec(j as nat));
        assert(lk[1] == c && lk[2] == e);
        assert(lk.contains(c) && lk.contains(e));
        lemma_pool_post_tags_has(d, id, ps, j, c);
        lemma_pool_post_tags_has(d, id, ps, j, e);
        assert(pool_tags(d, Some(pool)).contains(c) && pool_tags(d, Some(pool)).contains(e));
        lemma_pools_tags_has(d, ms, i, c);
        lemma_pools_tags_has(d, ms, i, e);
        lemma_dedup_contains(all, c);
        lemma_dedup_contains(all, e);
    }
    let posts = jget(d, doc_root(d), "posts"@);
    assert(!(nv(d, posts).empty && nv(d, posts).kind != JsonKind::Null));
    assert(parser_spec(p) == Ok::<(Seq<FileV>, Seq<TagV>), ReturnV>((dedup(pools_files(d, ms)), dedup(all))));
}

pub open spec fn scraper_result_v(r: Result<ScraperObject, ScraperReturn>) -> Result<(Seq<FileV>, Seq<TagV>), ReturnV> {
    match r {
        Ok(o) => Ok((files_v(o.file@), tags_v(o.tag@))),
        Err(e) => Err(return_v(e)),
    }
}

fn not_json(params: &String) -> (r: ScraperReturn)
    ensures
        return_v(r) == not_json_return(params@),
{
    if contains_text(params.as_str(), "Please confirm you are not a robot.") {
        ScraperReturn::Timeout(20)
    } else if contains_text(params.as_str(), "502: Bad gateway") {
        ScraperReturn::Timeout(10)
    } else if contains_text(params.as_str(), "SSL handshake failed") {
        ScraperReturn::Timeout(10)
    } else if contains_text(params.as_str(), "e6ai Maintenance") {
        ScraperReturn::Timeout(240)
    } else {
        ScraperReturn::EMCStop(String::from_str("Unknown Error"))
    }
}

/// Parses an answer of the site: posts into files with their tags, or a
/// list of pools into their tags.
pub fn parser(params: &String) -> (r: Result<ScraperObject, ScraperReturn>)
    requires
        parser_ok(params@),
    ensures
        scraper_result_v(r) == parser_spec(params@),
{
    let doc = match JsonDoc::parse(params.as_str()) {
        None => return Err(not_json(params)),
        Some(d) => d,
    };
    let ghost d = doc@;
    let root = doc.root_pos();
    let posts = doc.get(root, "posts");
    if doc.is_empty(posts) && !doc.is_null(posts) {
        return Err(ScraperReturn::Nothing);
    } else if doc.is_null(posts) {
        let (file, tag) = parse_pools(&doc, root);
        return Ok(ScraperObject { file: file, tag: tag });
    }
    let n = doc.len(posts);
    let mut files: Vec<FileObject> = Vec::new();
    let ghost mut facc: Seq<FileV> = Seq::empty();
    let mut inc: usize = 0;
    while inc < n
        invariant
            d == doc@,
            n == jlen(d, posts),
            inc <= n,
            posts_ok(d, posts),
            facc == posts_files(d, posts, inc as nat),
            files_v(files@) == dedup(facc),
        decreases n - inc,
    {
        let post = doc.item(posts, inc);
        proof {
            assert(post_ok(d, jitem(d, posts, inc as int)));
        }
        let f = post_to_file(&doc, post);
        proof {
            assert(facc.push(file_v(f)).drop_last() =~= facc);
        }
        push_distinct_file(&mut files, f);
        proof {
            facc = facc.push(file_v(f));
            assert(facc =~= posts_files(d, posts, (inc + 1) as nat));
        }
        inc = inc + 1;
    }
    let r = ScraperObject { file: files, tag: Vec::new() };
    assert(tags_v(r.tag@) =~= Seq::empty());
    Ok(r)
}

fn posts_readable(doc: &JsonDoc, posts: Option<usize>) -> (b: bool)
    ensures
        b == posts_ok(doc@, posts),
{
    let n = doc.len(posts);
    let mut i: usize = 0;
    while i < n
        invariant
            n == jlen(doc@, posts),
            i <= n,
            forall|j: int| 0 <= j < i ==> post_ok(doc@, #[trigger] jitem(doc@, posts, j)),
        decreases n - i,
    {
        let post = doc.item(posts, i);
        let file = doc.get(post, "file");
        if doc.is_null(doc.get(file, "url")) {
            let md5 = doc.text(doc.get(file, "md5"));
            let md = crate::text::chars_of(md5.as_str());
            let ok = byte_cut_exec(&md, 2).is_some() && byte_cut_exec(&md, 4).is_some();
            if !ok {
                proof {
                    assert(!post_ok(doc@, jitem(doc@, posts, i as int)));
                }
                return false;
            }
        }
        i = i + 1;
    }
    true
}

fn pools_readable(doc: &JsonDoc, js: Option<usize>) -> (b: bool)
    ensures
        b == pools_ok(doc@, jmembers(doc@, js)),
{
    let ms = doc.members(js);
    let fmt = "%Y-%m-%dT%H:%M:%S.%f%:z";
    let mut i: usize = 0;
    while i < ms.len()
        invariant
            ms@ == jmembers(doc@, js),
            fmt@ == pool_time_format(),
            i <= ms@.len(),
            forall|j: int| 0 <= j < i && pool_counts(doc@, Some(#[trigger] ms@[j])) ==> {
                &&& pool_time(doc@, Some(ms@[j]), "created_at"@).is_some()
                &&& pool_time(doc@, Some(ms@[j]), "updated_at"@).is_some()
            },
        decreases ms@.len() - i,
    {
        let p = Some(ms[i]);
        if !doc.is_null(doc.get(p, "id")) {
            let c = parse_timestamp(doc.text(doc.get(p, "created_at")).as_str(), fmt);
            let u = parse_timestamp(doc.text(doc.get(p, "updated_at")).as_str(), fmt);
            if c.is_none() || u.is_none() {
                return false;
            }
        }
        i = i + 1;
    }
    true
}

/// Whether the parser can read a text (see `parser_ok`).
pub fn parser_readable(params: &String) -> (b: bool)
    ensures
        b == parser_ok(params@),
{
    let doc = match JsonDoc::parse(params.as_str()) {
        None => return true,
        Some(d) => d,
    };
    let root = doc.root_pos();
    let posts = doc.get(root, "posts");
    if doc.is_empty(posts) && !doc.is_null(posts) {
        true
    } else if doc.is_null(posts) {
        pools_readable(&doc, root)
    } else {
        posts_readable(&doc, posts)
    }
}

/// Parses an answer of the site where the parser can read it (see
/// `parser_ok`); `None` otherwise.
pub fn parser_checked(params: &String) -> (r: Option<Result<ScraperObject, ScraperReturn>>)
    ensures
        match r {
            Some(x) => parser_ok(params@) && scraper_result_v(x) == parser_spec(params@),
            None => !parser_ok(params@),
        },
{
    if parser_readable(params) {
        Some(parser(params))
    } else {
        None
    }
}

} // verus!
