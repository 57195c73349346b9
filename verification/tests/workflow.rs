use rusthydrus::jobs::{scraper_setting_ensure, scraper_setting_key};
use rusthydrus::e6ai::scraper_file_return;
use rusthydrus::sharedtypes::ScraperFileInput;
use rusthydrus::tasks::reimport_file;
use rusthydrus::database::{Main, SqlOp};
use rusthydrus::e6ai::InternalScraper;
use rusthydrus::jobs::Jobs;
use rusthydrus::maintenance::{backup_folder, backup_paths, backup_paths_today, utc_date_of, VersionCheck};
use rusthydrus::migrate::{OldFileRow, OldJobRow, OldNamespaceRow, OldSettingRow, OldTables, OldTagRow};
use rusthydrus::sharedtypes::{
    CommitType, DbJobType, DbJobsObj, GenericNamespaceObj, JobScraper, ScraperParamType, ScraperReturn, ScraperType,
    SkipIf, SubTag, Tag, TagObject, TagType,
};
use rusthydrus::tasks::{headers_have_path, import_row};
use rusthydrus::worker::{
    file_registered, job_finished, job_list_add, job_list_remove, job_same, job_scraper, job_urls, known_file,
    parse_tags, return_action, source_url_namespace, split_words, UrlSource, WorkerAction,
};
use rusthydrus::sharedtypes::ScraperParam;

fn ns(name: &str) -> GenericNamespaceObj {
    GenericNamespaceObj { name: name.to_string(), description: None }
}

#[test]
fn split_words_on_white_space() {
    assert_eq!(split_words("  a bb\tc\n"), vec!["a".to_string(), "bb".to_string(), "c".to_string()]);
    assert_eq!(split_words(""), Vec::<String>::new());
}

#[test]
fn parse_tags_adds_tag_parent_and_relationship() {
    let mut db = Main::empty("t.db".to_string(), 2);
    let tag = TagObject {
        namespace: ns("General"),
        relates_to: Some(SubTag { namespace: ns("Id"), tag: "5".to_string(), tag_type: TagType::Normal }),
        tag: "cat".to_string(),
        tag_type: TagType::Normal,
    };
    let jobs = parse_tags(&mut db, tag, Some(42));
    assert!(jobs.is_empty());
    let g = db.namespace_get(&"General".to_string()).unwrap();
    let t = db.tag_get_name("cat".to_string(), g).unwrap();
    assert!(db.relationship_get_fileid(&t).unwrap().contains(&42));
    let i = db.namespace_get(&"Id".to_string()).unwrap();
    assert!(db.tag_get_name("5".to_string(), i).is_some());
    let ops = db.take_outbox();
    assert_eq!(ops.iter().filter(|o| matches!(o, SqlOp::InsertParent { .. })).count(), 1);
}

fn url_tag(skip: SkipIf) -> TagObject {
    TagObject {
        namespace: ns("Do Not Add"),
        relates_to: None,
        tag: "https://u".to_string(),
        tag_type: TagType::ParseUrl(
            JobScraper { site: "e6".to_string(), param: vec![], original_param: "https://u".to_string(), job_type: DbJobType::Scraper },
            skip,
        ),
    }
}

#[test]
fn parse_tags_yields_url_jobs_unless_skipped() {
    let mut db = Main::empty("t.db".to_string(), 2);
    let jobs = parse_tags(&mut db, url_tag(SkipIf::Never), None);
    assert_eq!(jobs.len(), 1);
    assert_eq!(jobs[0].original_param, "https://u");
    let n = db.namespace_add("Pool".to_string(), None, false);
    db.tag_add("7".to_string(), n, false, None);
    let skip = SkipIf::Tag(Tag { tag: "7".to_string(), namespace: ns("Pool"), needsrelationship: false });
    assert!(parse_tags(&mut db, url_tag(skip), None).is_empty());
    let need = SkipIf::Tag(Tag { tag: "7".to_string(), namespace: ns("Pool"), needsrelationship: true });
    assert_eq!(parse_tags(&mut db, url_tag(need), None).len(), 1);
}

#[test]
fn return_actions() {
    assert!(matches!(return_action(&ScraperReturn::Nothing), WorkerAction::EndJob));
    assert!(matches!(return_action(&ScraperReturn::Stop("x".to_string())), WorkerAction::DropJobRetry));
    assert!(matches!(return_action(&ScraperReturn::Timeout(7)), WorkerAction::WaitRetry(7)));
    assert!(matches!(return_action(&ScraperReturn::EMCStop("why".to_string())), WorkerAction::Halt(m) if m == "why"));
}

#[test]
fn job_scraper_adds_the_stored_parameter() {
    let mut db = Main::empty("t.db".to_string(), 2);
    db.setting_add("Automatic_e6aiscraper".to_string(), None, None, Some("&login=me".to_string()), false);
    let job = DbJobsObj {
        time: Some(0),
        reptime: Some(0),
        site: Some("e6ai".to_string()),
        param: Some("cat  dog".to_string()),
        jobtype: DbJobType::Params,
        committype: None,
    };
    let js = job_scraper(&db, &job, ScraperType::Automatic, &"e6aiscraper".to_string());
    assert_eq!(js.param.len(), 3);
    assert_eq!(js.param[0].param_data, "cat");
    assert_eq!(js.param[1].param_data, "dog");
    assert_eq!(js.param[2].param_data, "&login=me");
    assert_eq!(js.param[2].param_type, ScraperParamType::Database);
    assert!(matches!(job_urls(&js), UrlSource::Scraper(ps) if ps.len() == 3));
    let file_urls = JobScraper { site: "x".to_string(), param: vec![], original_param: "a b".to_string(), job_type: DbJobType::FileUrl };
    assert!(matches!(job_urls(&file_urls), UrlSource::Urls(us) if us == vec!["a".to_string(), "b".to_string()]));
}

#[test]
fn downloaded_file_is_found_by_its_url() {
    let mut db = Main::empty("t.db".to_string(), 2);
    let n = source_url_namespace(&mut db);
    assert_eq!(source_url_namespace(&mut db), n);
    assert_eq!(known_file(&db, &"https://f".to_string(), n), None);
    let f = file_registered(&mut db, &"HASH".to_string(), &"png".to_string(), &"loc".to_string(), "https://f".to_string(), n);
    assert_eq!(known_file(&db, &"https://f".to_string(), n), Some(f));
    job_finished(&mut db, &"cat".to_string());
    let ops = db.take_outbox();
    assert!(ops.iter().any(|o| matches!(o, SqlOp::Execute(s) if s == "DELETE FROM Jobs WHERE param LIKE 'cat'")));
}

#[test]
fn jobs_due_go_to_the_serving_scraper() {
    let mut db = Main::empty("t.db".to_string(), 2);
    db.jobs_add_new(&"e6ai".to_string(), &"cat".to_string(), &"60s".to_string(), Some(CommitType::StopOnNothing), false, DbJobType::Params, 100);
    db.jobs_add_new(&"elsewhere".to_string(), &"dog".to_string(), &"0s".to_string(), Some(CommitType::StopOnNothing), false, DbJobType::Params, 100);
    let mut jobs = Jobs::new(vec![InternalScraper::new()]);
    jobs.jobs_get_at(&db, 150);
    assert!(jobs.jobs_for(0).is_empty());
    jobs.jobs_get_at(&db, 160);
    let due = jobs.jobs_for(0);
    assert_eq!(due.len(), 1);
    assert_eq!(due[0].1.param, Some("cat".to_string()));
}

#[test]
fn version_checks() {
    let db = Main::empty("t.db".to_string(), 2);
    assert_eq!(db.check_version(&vec![vec![2]]), VersionCheck::Current);
    assert_eq!(db.check_version(&vec![vec![], vec![1]]), VersionCheck::UpgradeOneToTwo);
    assert_eq!(db.check_version(&vec![vec![1, 2], vec![3]]), VersionCheck::Unsupported);
    assert_eq!(db.check_version(&vec![vec![1, 2]]), VersionCheck::Unreadable);
}

#[test]
fn utc_dates_of_known_instants() {
    assert_eq!(utc_date_of(0), (1970, 1, 1));
    assert_eq!(utc_date_of(86399), (1970, 1, 1));
    assert_eq!(utc_date_of(951782400), (2000, 2, 29));
    assert_eq!(utc_date_of(1709942400), (2024, 3, 9));
    assert_eq!(utc_date_of(1704067199), (2023, 12, 31));
}

#[test]
fn backup_places() {
    let mut db = Main::empty("t.db".to_string(), 2);
    assert_eq!(backup_folder(&db), ("dbbackup".to_string(), true));
    db.setting_add("db_backup_location".to_string(), None, None, Some("/b".to_string()), false);
    assert_eq!(backup_folder(&db), ("/b".to_string(), false));
    let (dir, file) = backup_paths(&"/b".to_string(), 2024, 3, 9, 2, '/');
    assert_eq!(dir, "/b/2024/3/9/");
    assert_eq!(file, "/b/2024/3/9/db2.db");
    let (dir, file) = backup_paths_today(&"x".to_string(), 0, '/').unwrap();
    assert!(dir.starts_with("x/20"));
    assert!(file.ends_with("/db0.db"));
}

#[test]
fn import_row_stores_file_and_tag() {
    assert!(headers_have_path(&vec!["hash".to_string(), "path".to_string()]));
    assert!(!headers_have_path(&vec!["hash".to_string()]));
    let mut db = Main::empty("t.db".to_string(), 2);
    import_row(&mut db, &"h".to_string(), &"png".to_string(), &"l".to_string(), "ns".to_string(), "t".to_string(), 4);
    let f = db.file_get_hash(&"h".to_string()).unwrap();
    let n = db.namespace_get(&"ns".to_string()).unwrap();
    assert_eq!(db.tag_get_name("t".to_string(), n), Some(4));
    assert!(db.relationship_get_tagid(&f).unwrap().contains(&4));
}

fn s(x: &str) -> String {
    x.to_string()
}

#[test]
fn older_rows_are_carried_over_once() {
    let mut db = Main::empty("t.db".to_string(), 2);
    let file = || OldFileRow { id: s("1"), hash: s("h"), ext: s("png"), location: s("l") };
    let rows = OldTables {
        settings: vec![OldSettingRow { name: s("a"), pretty: s("p"), num: s("3"), param: s("") }],
        files: vec![file(), file()],
        jobs: vec![OldJobRow { time: s("5"), reptime: s("10"), site: s("e6ai"), param: s("cat"), committype: s("AddToDB") }],
        namespaces: vec![OldNamespaceRow { id: s("0"), name: s("n"), description: s("d") }],
        parents: vec![],
        relationships: vec![],
        tags: vec![OldTagRow { id: s("2"), name: s("t"), parents: s(""), namespace: s("0") }],
    };
    db.load_mesm(&rows, 1000);
    let ops = db.take_outbox();
    assert_eq!(ops.iter().filter(|o| matches!(o, SqlOp::InsertFile { id: 1, .. })).count(), 1);
    assert_eq!(ops.iter().filter(|o| matches!(o, SqlOp::UpsertSetting { .. })).count(), 1);
    assert!(ops.iter().any(|o| matches!(o, SqlOp::InsertJob { time: 1000, reptime: 0, .. })));
    assert!(ops.iter().any(|o| matches!(o, SqlOp::InsertTagRow { id: 2, namespace: 0, .. })));
    // the rows are in memory too
    assert_eq!(db.file_get_hash(&s("h")), Some(1));
    assert_eq!(db.namespace_get(&s("n")), Some(0));
    assert_eq!(db.tag_get_name(s("t"), 0), Some(2));
    assert_eq!(db.settings_get_name(&s("a")).unwrap().num, Some(3));
    let jobs = db.jobs_get_all();
    assert_eq!(jobs.len(), 1);
    assert_eq!(jobs.value_at(0).time, Some(1000));
    assert_eq!(jobs.value_at(0).site, Some(s("e6ai")));
}

#[test]
fn repeated_old_jobs_are_stored_once() {
    let mut db = Main::empty("t.db".to_string(), 2);
    let job = || OldJobRow { time: s("5"), reptime: s("10"), site: s("e6ai"), param: s("cat"), committype: s("AddToDB") };
    let rows = OldTables {
        settings: vec![],
        files: vec![],
        jobs: vec![job(), job()],
        namespaces: vec![],
        parents: vec![],
        relationships: vec![],
        tags: vec![],
    };
    db.load_mesm(&rows, 7);
    assert_eq!(db.jobs_get_all().len(), 1);
    let ops = db.take_outbox();
    assert_eq!(ops.iter().filter(|o| matches!(o, SqlOp::InsertJob { .. })).count(), 1);
}

#[test]
fn scraper_setting_is_stored_once() {
    let mut db = Main::empty("t.db".to_string(), 2);
    let s = InternalScraper::new();
    assert_eq!(scraper_setting_key(&s), "Automatic_e6aiscraper");
    assert!(scraper_setting_ensure(&mut db, &s, "?login=a&api_key=b".to_string()));
    assert!(!scraper_setting_ensure(&mut db, &s, "other".to_string()));
    let st = db.settings_get_name(&"Automatic_e6aiscraper".to_string()).unwrap();
    assert_eq!(st.param, Some("?login=a&api_key=b".to_string()));
    assert_eq!(st.pretty, Some("Automatic Scraper".to_string()));
    assert_eq!(s.ratelimit_get(), (1, 1));
    assert_eq!(s.type_get(), ScraperType::Automatic);
}

#[test]
fn reimported_file_gets_its_source_tag() {
    let mut db = Main::empty("t.db".to_string(), 2);
    let tag = scraper_file_return(&ScraperFileInput { hash: Some("abcdef".to_string()), ext: Some("png".to_string()) });
    reimport_file(&mut db, &"SHA".to_string(), &"png".to_string(), &"./Files/".to_string(), tag);
    let f = db.file_get_hash(&"SHA".to_string()).unwrap();
    let n = db.namespace_get(&"source_url".to_string()).unwrap();
    let t = db.tag_get_name("https://static1.e6ai.net/data/ab/cd/abcdef.png".to_string(), n).unwrap();
    assert!(db.relationship_get_fileid(&t).unwrap().contains(&f));
}

fn job(url: &str, data: &str) -> JobScraper {
    JobScraper {
        site: "e6".to_string(),
        param: vec![ScraperParam { param_data: data.to_string(), param_type: ScraperParamType::Normal }],
        original_param: url.to_string(),
        job_type: DbJobType::Scraper,
    }
}

#[test]
fn job_list_keeps_each_job_once() {
    assert!(job_same(&job("a", "x"), &job("a", "x")));
    assert!(!job_same(&job("a", "x"), &job("a", "y")));
    assert!(!job_same(&job("a", "x"), &job("b", "x")));
    let mut l = Vec::new();
    assert!(job_list_add(&mut l, job("a", "x")));
    assert!(job_list_add(&mut l, job("b", "x")));
    assert!(!job_list_add(&mut l, job("a", "x")));
    assert_eq!(l.len(), 2);
    job_list_remove(&mut l, &job("a", "x"));
    assert_eq!(l.len(), 1);
    assert_eq!(l[0].original_param, "b");
    job_list_remove(&mut l, &job("z", "x"));
    assert_eq!(l.len(), 1);
}

#[test]
fn old_tables_check_finds_unreadable_rows() {
    let good = || OldTables {
        settings: vec![OldSettingRow { name: s("a"), pretty: s("p"), num: s("3"), param: s("") }],
        files: vec![OldFileRow { id: s("1"), hash: s("h"), ext: s("png"), location: s("l") }],
        jobs: vec![OldJobRow { time: s("5"), reptime: s("10"), site: s("e6ai"), param: s("cat"), committype: s("AddToDB") }],
        namespaces: vec![OldNamespaceRow { id: s("0"), name: s("n"), description: s("d") }],
        parents: vec![],
        relationships: vec![],
        tags: vec![OldTagRow { id: s("2"), name: s("t"), parents: s(""), namespace: s("0") }],
    };
    assert!(rusthydrus::migrate::old_tables_check(&good()));
    let mut bad = good();
    bad.files[0].id = s("x1");
    assert!(!rusthydrus::migrate::old_tables_check(&bad));
    let mut bad = good();
    bad.jobs[0].committype = s("Sometimes");
    assert!(!rusthydrus::migrate::old_tables_check(&bad));
    let mut bad = good();
    bad.tags[0].namespace = s("");
    assert!(!rusthydrus::migrate::old_tables_check(&bad));
}
