use rusthydrus::e6ai::{
    build_url, cookie_url, gen_source_from_md5_ext, nsobjplg, parser, parser_checked, parser_readable,
    scraper_file_return, url_dump, url_get, InternalScraper, NsIdent,
};
use rusthydrus::sharedtypes::{
    HashesSupported, ScraperFileInput, ScraperObject, ScraperParam, ScraperParamType, ScraperReturn, TagObject, TagType,
};

fn normal(s: &str) -> ScraperParam {
    ScraperParam { param_data: s.to_string(), param_type: ScraperParamType::Normal }
}

fn database(s: &str) -> ScraperParam {
    ScraperParam { param_data: s.to_string(), param_type: ScraperParamType::Database }
}

#[test]
fn build_url_joins_tags_with_plus() {
    let p = vec![normal("cat"), normal("dog")];
    assert_eq!(build_url(&p, 3), "https://e6ai.net/posts.json?tags=cat+dog&page=3");
}

#[test]
fn build_url_puts_the_database_param_first() {
    let p = vec![database("?login=me&api_key=k"), normal("cat")];
    assert_eq!(build_url(&p, 1), "https://e6ai.net/posts.json?login=me&api_key=k&tags=cat&page=1");
}

#[test]
fn build_url_without_tags_is_empty() {
    assert_eq!(build_url(&vec![], 1), "");
    assert_eq!(build_url(&vec![database("x")], 1), "");
}

#[test]
fn url_get_and_dump() {
    let p = vec![normal("cat")];
    assert_eq!(url_get(&p), vec!["https://e6ai.net/posts.json?tags=cat&page=1".to_string()]);
    let d = url_dump(&p);
    assert_eq!(d.len(), 750);
    assert_eq!(d[0], "https://e6ai.net/posts.json?tags=cat&page=1");
    assert_eq!(d[749], "https://e6ai.net/posts.json?tags=cat&page=750");
}

#[test]
fn source_url_from_md5() {
    let u = gen_source_from_md5_ext(&"1ca6868a2b0f5e7129d2b478198bfa91".to_string(), &"webm".to_string());
    assert_eq!(u, "https://static1.e6ai.net/data/1c/a6/1ca6868a2b0f5e7129d2b478198bfa91.webm");
    let t = scraper_file_return(&ScraperFileInput { hash: Some("abcdef".to_string()), ext: Some("png".to_string()) });
    assert_eq!(t.tag, "https://static1.e6ai.net/data/ab/cd/abcdef.png");
    assert_eq!(t.namespace.name, "source_url");
}

#[test]
fn source_url_cuts_the_hash_by_bytes() {
    let u = gen_source_from_md5_ext(&"abé".to_string(), &"png".to_string());
    assert_eq!(u, "https://static1.e6ai.net/data/ab/é/abé.png");
    let u = gen_source_from_md5_ext(&"éé".to_string(), &"gif".to_string());
    assert_eq!(u, "https://static1.e6ai.net/data/é/é/éé.gif");
}

#[test]
fn scraper_description() {
    let s = InternalScraper::new();
    assert_eq!(s.name_get(), "e6aiscraper");
    assert_eq!(s.version_get(), 0);
    assert_eq!(s.sites_get(), vec!["e6ai".to_string(), "e6ai.net".to_string()]);
    assert!(s.serves(&"e6ai.net".to_string()));
    assert!(!s.serves(&"e621".to_string()));
    assert_eq!(cookie_url(), "e6aiscraper_cookie");
    assert_eq!(nsobjplg(&NsIdent::Artist).name, "Director");
}

fn has_tag(tags: &Vec<TagObject>, ns: &str, tag: &str) -> bool {
    tags.iter().any(|t| t.namespace.name == ns && t.tag == tag)
}

const POSTS: &str = r#"{"posts":[{"id":5,"tags":{"general":["cat","hat"],"director":["bob"]},
"rating":"s","description":"a cat","pools":[9],
"relationships":{"parent_id":4,"children":[6]},
"file":{"url":"https://x.net/y.png","md5":"abcd1234","ext":"png"},"sources":["https://src"]},
{"id":8,"tags":{},"rating":"e","description":"","pools":[],"relationships":{"parent_id":null,"children":[]},
"file":{"url":null,"md5":"ffee0011","ext":"jpg"},"sources":[]}]}"#;

#[test]
fn parser_reads_posts() {
    let obj: ScraperObject = parser(&POSTS.to_string()).unwrap();
    assert_eq!(obj.file.len(), 2);
    let f = &obj.file[0];
    assert_eq!(f.source_url, Some("https://x.net/y.png".to_string()));
    assert!(matches!(&f.hash, Some(HashesSupported::Md5(h)) if h == "abcd1234"));
    assert!(has_tag(&f.tag_list, "General", "cat"));
    assert!(has_tag(&f.tag_list, "General", "hat"));
    assert!(has_tag(&f.tag_list, "Director", "bob"));
    assert!(has_tag(&f.tag_list, "Sources", "https://src"));
    assert!(has_tag(&f.tag_list, "Rating", "s"));
    assert!(has_tag(&f.tag_list, "Id_e6ai", "5"));
    assert!(has_tag(&f.tag_list, "Description", "a cat"));
    assert!(has_tag(&f.tag_list, "Pool_Id_e6ai", "9"));
    assert!(has_tag(&f.tag_list, "Children", "6"));
    assert!(has_tag(&f.tag_list, "Parent_id", "4"));
    assert!(f.tag_list.iter().any(|t| matches!(&t.tag_type, TagType::ParseUrl(j, _)
        if j.original_param == "https://e6ai.net/pools?format=json&search[id=9]")));
    let g = &obj.file[1];
    assert_eq!(g.source_url, Some("https://static1.e6ai.net/data/ff/ee/ffee0011.jpg".to_string()));
    assert!(!g.tag_list.iter().any(|t| t.namespace.name == "Description"));
    assert!(!g.tag_list.iter().any(|t| t.namespace.name == "Parent_id"));
}

#[test]
fn parser_reads_pools() {
    let pools = r#"[{"id":7,"creator_name":"ann","creator_id":3,"name":"set","description":"d",
"post_ids":[11,12],"created_at":"2023-01-02T03:04:05.000-05:00","updated_at":"2023-01-02T03:04:05.000-05:00"}]"#;
    let obj = parser(&pools.to_string()).unwrap();
    assert!(has_tag(&obj.tag, "Pool_Id_e6ai", "7"));
    assert!(has_tag(&obj.tag, "Pool_Creator_e6ai", "ann"));
    assert!(has_tag(&obj.tag, "Pool_Name_e6ai", "set"));
    assert!(has_tag(&obj.tag, "Pool_Created_At", "1672646645"));
    assert!(obj.tag.iter().any(|t| matches!(&t.tag_type, TagType::ParseUrl(j, _)
        if j.original_param == "https://e6ai.net/posts.json?tags=id:11")));
}

#[test]
fn parser_errors() {
    assert!(matches!(parser(&r#"{"posts":[]}"#.to_string()), Err(ScraperReturn::Nothing)));
    assert!(matches!(parser(&"<html>502: Bad gateway</html>".to_string()), Err(ScraperReturn::Timeout(10))));
    assert!(matches!(parser(&"Please confirm you are not a robot.".to_string()), Err(ScraperReturn::Timeout(20))));
    assert!(matches!(parser(&"e6ai Maintenance".to_string()), Err(ScraperReturn::Timeout(240))));
    assert!(matches!(parser(&"SSL handshake failed".to_string()), Err(ScraperReturn::Timeout(10))));
    assert!(matches!(parser(&"garbage".to_string()), Err(ScraperReturn::EMCStop(m)) if m == "Unknown Error"));
}

#[test]
fn parser_checked_agrees() {
    assert!(parser_readable(&POSTS.to_string()));
    assert!(matches!(parser_checked(&POSTS.to_string()), Some(Ok(o)) if o.file.len() == 2));
}

#[test]
fn namespace_names_are_distinct() {
    let all = vec![
        NsIdent::PoolCreatedAt, NsIdent::PoolCreator, NsIdent::PoolCreatorId, NsIdent::PoolDescription,
        NsIdent::PoolName, NsIdent::PoolUpdatedAt, NsIdent::PoolId, NsIdent::PoolPosition, NsIdent::FileId,
        NsIdent::Sources, NsIdent::Description, NsIdent::Parent, NsIdent::Children, NsIdent::Rating,
        NsIdent::Meta, NsIdent::Lore, NsIdent::Artist, NsIdent::Copyright, NsIdent::Character,
        NsIdent::Species, NsIdent::General,
    ];
    for a in &all {
        assert!(nsobjplg(a).description.is_some());
        for b in &all {
            assert_eq!(nsobjplg(a).name == nsobjplg(b).name, a == b);
        }
    }
}
