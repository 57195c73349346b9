use rusthydrus::database::{Main, SqlOp};
use rusthydrus::loading::TableRows;
use rusthydrus::sharedtypes::{
    CommitType, DbFileObj, DbJobType, DbNamespaceObj, DbSearchObject, DbSearchQuery, DbSettingObj,
    DbTagObjCompatability, LoadDBTable, SearchHolder, SearchObj,
};

fn fresh() -> Main {
    Main::empty("test.db".to_string(), 2)
}

fn count_ops(ops: &Vec<SqlOp>, pred: &dyn Fn(&SqlOp) -> bool) -> usize {
    ops.iter().filter(|o| pred(o)).count()
}

#[test]
fn tag_add_twice_gives_the_same_id() {
    let mut db = fresh();
    let a = db.tag_add("cat".to_string(), 0, false, None);
    let b = db.tag_add("cat".to_string(), 0, true, None);
    let c = db.tag_add("dog".to_string(), 0, false, None);
    assert_eq!(a, 0);
    assert_eq!(b, a);
    assert_eq!(c, 1);
    assert_eq!(db.tag_get_name("cat".to_string(), 0), Some(0));
    assert_eq!(db.tag_get_name("cat".to_string(), 1), None);
    assert_eq!(db.tag_id_get(&1).unwrap().name, "dog");
}

#[test]
fn tag_add_with_an_id_moves_the_next_id_past_it() {
    let mut db = fresh();
    assert_eq!(db.tag_add("a".to_string(), 3, false, Some(7)), 7);
    assert_eq!(db.tag_add("b".to_string(), 3, false, None), 8);
}

#[test]
fn namespace_add_reads_back() {
    let mut db = fresh();
    let n = db.namespace_add("artist".to_string(), Some("who made it".to_string()), true);
    let m = db.namespace_add("artist".to_string(), None, true);
    assert_eq!(n, m);
    assert_eq!(db.namespace_get(&"artist".to_string()), Some(n));
    assert_eq!(db.namespace_get_string(&n).unwrap().name, "artist");
    assert_eq!(db.namespace_keys(), vec![n]);
    let ops = db.take_outbox();
    assert_eq!(count_ops(&ops, &|o| matches!(o, SqlOp::InsertNamespace { .. })), 1);
}

#[test]
fn file_add_by_hash_once() {
    let mut db = fresh();
    let f = db.file_add(None, &"abc".to_string(), &"png".to_string(), &"here".to_string(), true);
    let g = db.file_add(None, &"abc".to_string(), &"jpg".to_string(), &"there".to_string(), true);
    assert_eq!(f, g);
    assert_eq!(db.file_get_hash(&"abc".to_string()), Some(f));
    assert_eq!(db.file_get_id(&f).unwrap().ext, "png");
    assert!(db.file_get_list_id().contains(&f));
    let ops = db.take_outbox();
    assert_eq!(count_ops(&ops, &|o| matches!(o, SqlOp::InsertFile { .. })), 1);
    assert_eq!(db.take_outbox().len(), 0);
}

#[test]
fn relationship_add_reads_back_both_ways() {
    let mut db = fresh();
    db.relationship_add(4, 9, true);
    db.relationship_add(4, 9, true);
    db.relationship_add(5, 9, false);
    let files = db.relationship_get_fileid(&9).unwrap();
    assert_eq!(files.len(), 2);
    assert!(files.contains(&4) && files.contains(&5));
    assert_eq!(db.relationship_get_tagid(&4).unwrap().len(), 1);
    assert_eq!(db.relationship_get_fileid(&10), None);
    let ops = db.take_outbox();
    assert_eq!(count_ops(&ops, &|o| matches!(o, SqlOp::InsertRelationship { file: 4, tag: 9 })), 1);
}

#[test]
fn setting_reads_back_as_stored() {
    let mut db = fresh();
    db.setting_add("k".to_string(), Some("pretty".to_string()), Some(5), None, true);
    db.setting_add("k".to_string(), None, Some(6), Some("p".to_string()), false);
    let s = db.settings_get_name(&"k".to_string()).unwrap();
    assert_eq!(s.num, Some(6));
    assert_eq!(s.pretty, None);
    assert_eq!(s.param, Some("p".to_string()));
    assert!(db.settings_get_name(&"other".to_string()).is_none());
}

#[test]
fn new_database_has_its_default_settings() {
    let db = Main::new("new.db".to_string(), 2, false);
    let c = db.settings_get_name(&"DBCOMMITNUM".to_string()).unwrap();
    assert_eq!(c.num, Some(3000));
    assert_eq!(db.location_get(), "./Files/");
    let v = db.settings_get_name(&"VERSION".to_string()).unwrap();
    assert_eq!(v.num, Some(2));
}

#[test]
fn tag_remove_takes_its_parents() {
    let mut db = fresh();
    let a = db.tag_add("a".to_string(), 0, false, None);
    let b = db.tag_add("b".to_string(), 0, false, None);
    let c = db.tag_add("c".to_string(), 0, false, None);
    db.parents_add(0, a, 0, b, true);
    db.parents_add(0, b, 0, c, true);
    db.take_outbox();
    db.tag_remove(&a);
    assert!(db.tag_id_get(&a).is_none());
    assert!(db.tag_id_get(&b).is_some());
    let ops = db.take_outbox();
    assert_eq!(count_ops(&ops, &|o| matches!(o, SqlOp::DeleteTag { .. })), 1);
    assert_eq!(count_ops(&ops, &|o| matches!(o, SqlOp::DeleteParent { .. })), 1);
}

#[test]
fn delete_tag_relationship_clears_the_tag() {
    let mut db = fresh();
    db.relationship_add(1, 3, false);
    db.relationship_add(2, 3, false);
    db.relationship_add(2, 4, false);
    db.delete_tag_relationship(&3);
    assert_eq!(db.relationship_get_fileid(&3), None);
    assert_eq!(db.relationship_get_fileid(&4).unwrap().len(), 1);
    let ops = db.take_outbox();
    assert_eq!(count_ops(&ops, &|o| matches!(o, SqlOp::DeleteRelationship { tag: 3, .. })), 2);
    assert_eq!(count_ops(&ops, &|o| matches!(o, SqlOp::DeleteTag { id: 3 })), 1);
}

#[test]
fn delete_tag_relationship_removes_the_tag() {
    let mut db = fresh();
    let t = db.tag_add("gone".to_string(), 0, false, None);
    let k = db.tag_add("kept".to_string(), 0, false, None);
    db.relationship_add(1, t, false);
    db.relationship_add(1, k, false);
    db.delete_tag_relationship(&t);
    assert!(db.tag_id_get(&t).is_none());
    assert!(db.tag_id_get(&k).is_some());
    assert_eq!(db.relationship_get_fileid(&t), None);
    assert_eq!(db.relationship_get_tagid(&1).unwrap().len(), 1);
}

#[test]
fn condense_numbers_tags_without_gaps() {
    let mut db = fresh();
    db.tag_add("zero".to_string(), 0, false, Some(0));
    db.tag_add("five".to_string(), 1, false, Some(5));
    db.tag_add("nine".to_string(), 0, false, Some(9));
    db.relationship_add(100, 5, false);
    db.relationship_add(101, 9, false);
    db.relationship_add(102, 0, false);
    db.condese_relationships_tags();
    assert_eq!(db.tag_get_name("zero".to_string(), 0), Some(0));
    assert_eq!(db.tag_get_name("five".to_string(), 1), Some(1));
    assert_eq!(db.tag_get_name("nine".to_string(), 0), Some(2));
    assert!(db.tag_id_get(&5).is_none());
    assert!(db.tag_id_get(&9).is_none());
    assert!(db.relationship_get_fileid(&1).unwrap().contains(&100));
    assert!(db.relationship_get_fileid(&2).unwrap().contains(&101));
    assert!(db.relationship_get_fileid(&0).unwrap().contains(&102));
    assert_eq!(db.relationship_get_fileid(&5), None);
    // the next new tag comes right after the last one
    assert_eq!(db.tag_add("new".to_string(), 0, false, None), 3);
}

#[test]
fn namespace_delete_removes_its_tags() {
    let mut db = fresh();
    let keep = db.namespace_add("keep".to_string(), None, false);
    let gone = db.namespace_add("gone".to_string(), None, false);
    let t0 = db.tag_add("x".to_string(), gone, false, None);
    let t1 = db.tag_add("y".to_string(), keep, false, None);
    db.relationship_add(7, t0, false);
    db.relationship_add(7, t1, false);
    db.namespace_delete_id(&gone);
    assert!(db.namespace_get_string(&gone).is_none());
    assert!(db.namespace_get_string(&keep).is_some());
    assert_eq!(db.tag_get_name("x".to_string(), gone), None);
    // the kept tag moves down to id 0
    assert_eq!(db.tag_get_name("y".to_string(), keep), Some(0));
    assert_eq!(db.relationship_get_tagid(&7).unwrap().len(), 1);
    assert!(db.relationship_get_tagid(&7).unwrap().contains(&0));
}

#[test]
fn namespace_without_tags_is_deleted() {
    let mut db = fresh();
    let n = db.namespace_add("empty".to_string(), None, false);
    db.namespace_delete_id(&n);
    assert!(db.namespace_get_string(&n).is_none());
    assert!(db.namespace_get(&"empty".to_string()).is_none());
}

#[test]
fn delete_namespace_sql_queues_the_delete() {
    let mut db = fresh();
    db.delete_namespace_sql(&4);
    let ops = db.take_outbox();
    assert_eq!(ops.len(), 1);
    assert!(matches!(ops[0], SqlOp::DeleteNamespace { id: 4 }));
}

#[test]
fn search_combines_tag_file_sets() {
    let mut db = fresh();
    db.relationship_add(1, 10, false);
    db.relationship_add(2, 10, false);
    db.relationship_add(2, 11, false);
    db.relationship_add(3, 11, false);
    let and = SearchObj { searches: vec![SearchHolder::AND((10, 11))], search_relate: None };
    let r = db.search_db_files(and, None, None).unwrap();
    assert_eq!(r.len(), 1);
    assert!(r.contains(&2));
    let or = SearchObj { searches: vec![SearchHolder::OR((10, 11))], search_relate: None };
    assert_eq!(db.search_db_files(or, None, None).unwrap().len(), 3);
    let not = SearchObj { searches: vec![SearchHolder::NOT((10, 11))], search_relate: None };
    let r = db.search_db_files(not, None, None).unwrap();
    assert_eq!(r.len(), 1);
    assert!(r.contains(&1));
    let none = SearchObj {
        searches: vec![SearchHolder::NOT((10, 11)), SearchHolder::NOT((11, 10))],
        search_relate: Some(vec![SearchHolder::AND((0, 1))]),
    };
    assert_eq!(db.search_db_files(none, None, None), None);
}

#[test]
fn search_without_relate_intersects_every_step() {
    let mut db = fresh();
    for f in [1, 2, 3, 4] {
        db.relationship_add(f, 10, false);
    }
    for f in [2, 3, 4] {
        db.relationship_add(f, 11, false);
    }
    for f in [3, 4, 5] {
        db.relationship_add(f, 12, false);
    }
    db.relationship_add(4, 13, false);
    db.relationship_add(9, 13, false);
    let three = SearchObj {
        searches: vec![SearchHolder::AND((10, 11)), SearchHolder::OR((12, 12)), SearchHolder::NOT((10, 13))],
        search_relate: None,
    };
    assert!(db.search_answerable_exec(&three));
    let r = db.search_db_files(three, None, None).unwrap();
    assert_eq!(r.len(), 1);
    assert!(r.contains(&3));
    let disjoint = SearchObj {
        searches: vec![SearchHolder::NOT((10, 11)), SearchHolder::AND((12, 12))],
        search_relate: None,
    };
    assert_eq!(db.search_db_files(disjoint, None, None), None);
    let empty = SearchObj { searches: vec![], search_relate: None };
    assert_eq!(db.search_db_files(empty, None, None), None);
    let missing = SearchObj { searches: vec![SearchHolder::AND((10, 11)), SearchHolder::AND((10, 77))], search_relate: None };
    assert!(!db.search_answerable_exec(&missing));
}

#[test]
fn search_for_namespace_by_name_or_id() {
    let mut db = fresh();
    let n = db.namespace_add("artist".to_string(), None, false);
    let by_name = DbSearchQuery {
        tag_one: DbSearchObject { tag: "t".to_string(), namespace: Some("artist".to_string()), namespace_id: Some(99) },
        tag_two: DbSearchObject { tag: "u".to_string(), namespace: None, namespace_id: None },
    };
    assert_eq!(db.db_search_adv(by_name), Some(n));
    let by_id = DbSearchQuery {
        tag_one: DbSearchObject { tag: "t".to_string(), namespace: None, namespace_id: Some(99) },
        tag_two: DbSearchObject { tag: "u".to_string(), namespace: None, namespace_id: None },
    };
    assert_eq!(db.db_search_adv(by_id), Some(99));
    let unknown = DbSearchQuery {
        tag_one: DbSearchObject { tag: "t".to_string(), namespace: Some("nobody".to_string()), namespace_id: Some(1) },
        tag_two: DbSearchObject { tag: "u".to_string(), namespace: None, namespace_id: None },
    };
    assert_eq!(db.db_search_adv(unknown), None);
}

fn rows() -> TableRows {
    TableRows {
        files: vec![DbFileObj { id: Some(3), hash: "h".to_string(), ext: "png".to_string(), location: "l".to_string() }],
        jobs: vec![],
        namespaces: vec![DbNamespaceObj { id: 0, name: "ns".to_string(), description: None }],
        parents: vec![],
        relationships: vec![],
        settings: vec![DbSettingObj { name: "DBCOMMITNUM".to_string(), pretty: None, num: Some(10), param: None }],
        tags: vec![DbTagObjCompatability { id: 2, name: "t".to_string(), parents: None, namespace: 0 }],
    }
}

#[test]
fn load_table_loads_once() {
    let mut db = fresh();
    assert!(!db.table_loaded(&LoadDBTable::Files));
    db.load_table(&LoadDBTable::Files, &rows());
    assert!(db.table_loaded(&LoadDBTable::Files));
    assert_eq!(db.file_get_hash(&"h".to_string()), Some(3));
    let mut other = rows();
    other.files[0].hash = "other".to_string();
    db.load_table(&LoadDBTable::Files, &other);
    assert_eq!(db.file_get_hash(&"other".to_string()), None);
}

#[test]
fn load_all_reads_every_table() {
    let mut db = fresh();
    db.load_table(&LoadDBTable::All, &rows());
    assert!(db.table_loaded(&LoadDBTable::All));
    assert_eq!(db.tag_get_name("t".to_string(), 0), Some(2));
    assert_eq!(db.namespace_get(&"ns".to_string()), Some(0));
    assert_eq!(db.settings_get_name(&"DBCOMMITNUM".to_string()).unwrap().num, Some(10));
}

#[test]
fn jobs_add_new_stores_the_repeat_time() {
    let mut db = fresh();
    db.jobs_add_new(
        &"e6ai".to_string(),
        &"cat".to_string(),
        &"1d".to_string(),
        Some(CommitType::StopOnNothing),
        true,
        DbJobType::Params,
        1000,
    );
    assert_eq!(db.jobs_get_max(), 1);
    let job = db.jobs_get_all().get(0).unwrap();
    assert_eq!(job.reptime, Some(86400));
    assert_eq!(job.time, Some(1000));
    assert_eq!(job.site, Some("e6ai".to_string()));
    let ops = db.take_outbox();
    assert_eq!(count_ops(&ops, &|o| matches!(o, SqlOp::InsertJob { reptime: 86400, .. })), 1);
}

#[test]
fn commit_threshold_flushes() {
    let mut db = fresh();
    db.load_table(&LoadDBTable::Settings, &rows());
    db.db_commit_man_set();
    db.take_outbox();
    for i in 0..10 {
        db.relationship_add(i, 1, true);
    }
    let ops = db.take_outbox();
    assert_eq!(count_ops(&ops, &|o| matches!(o, SqlOp::Commit)), 1);
}

#[test]
fn table_collumns_reads_names_and_types() {
    let sqls = vec![
        "CREATE TABLE File (id INTEGER PRIMARY KEY, hash TEXT, ext TEXT)".to_string(),
        "CREATE TABLE Tags (name TEXT, namespace INTEGER)".to_string(),
    ];
    let (stmts, names, types) = Main::table_collumns(&sqls);
    assert_eq!(stmts, sqls);
    assert_eq!(names, vec!["id", "hash", "ext", "name", "namespace"]);
    assert_eq!(types, vec!["INTEGER", "TEXT", "TEXT", "TEXT", "INTEGER"]);
}

#[test]
fn drop_recreate_keeps_one_namespace() {
    let mut db = fresh();
    let a = db.namespace_add("a".to_string(), None, false);
    let b = db.namespace_add("b".to_string(), None, false);
    db.tag_add("a1".to_string(), a, false, Some(3));
    db.tag_add("a2".to_string(), a, false, Some(7));
    db.tag_add("b1".to_string(), b, false, Some(5));
    db.relationship_add(1, 3, false);
    db.relationship_add(2, 7, false);
    db.relationship_add(3, 5, false);
    db.take_outbox();
    db.drop_recreate_ns(&a);
    let ops = db.take_outbox();
    let mut rows: Vec<(usize, String, usize)> = ops
        .iter()
        .filter_map(|o| match o {
            SqlOp::InsertTag { id, name, namespace } => Some((*id, name.clone(), *namespace)),
            _ => None,
        })
        .collect();
    rows.sort();
    assert_eq!(rows.len(), 2);
    assert_eq!(rows[0].0, 0);
    assert_eq!(rows[1].0, 1);
    assert!(rows.iter().all(|r| r.2 == a));
    let mut names: Vec<String> = rows.iter().map(|r| r.1.clone()).collect();
    names.sort();
    assert_eq!(names, vec!["a1".to_string(), "a2".to_string()]);
    assert!(db.tag_id_get(&3).is_none());
    assert!(db.tag_id_get(&5).is_none());
    assert_eq!(db.relationship_get_fileid(&5), None);
}

#[test]
fn removing_a_new_tag_undoes_its_addition() {
    let mut db = fresh();
    let keep = db.tag_add("keep".to_string(), 0, false, None);
    let t = db.tag_add("new".to_string(), 0, true, None);
    db.tag_remove(&t);
    assert_eq!(db.tag_get_name("new".to_string(), 0), None);
    assert_eq!(db.tag_get_name("keep".to_string(), 0), Some(keep));
    assert!(db.tag_id_get(&t).is_none());
}

#[test]
fn table_create_writes_each_column_once() {
    let mut db = fresh();
    db.table_create(&"One".to_string(), &vec!["a".to_string()], &vec!["INTEGER".to_string()]);
    db.table_create(
        &"Two".to_string(),
        &vec!["a".to_string(), "b".to_string(), "c".to_string()],
        &vec!["INTEGER".to_string(), "TEXT".to_string(), "TEXT".to_string()],
    );
    let ops = db.take_outbox();
    assert_eq!(ops.len(), 2);
    assert!(matches!(&ops[0], SqlOp::Execute(q) if q == "CREATE TABLE IF NOT EXISTS One (a INTEGER)"));
    assert!(matches!(&ops[1], SqlOp::Execute(q) if q == "CREATE TABLE IF NOT EXISTS Two (a INTEGER, b TEXT, c TEXT)"));
}

#[test]
fn jobs_add_new_now_checked_reads_the_time_first() {
    let mut db = fresh();
    let before = db.jobs_get_all().len();
    assert_eq!(
        db.jobs_add_new_now_checked(&"e6ai".to_string(), &"cat".to_string(), &"xd".to_string(), Some(CommitType::AddToDB), true, DbJobType::Params),
        None
    );
    assert_eq!(db.jobs_get_all().len(), before);
    assert_eq!(
        db.jobs_add_new_now_checked(&"e6ai".to_string(), &"cat".to_string(), &"NOW".to_string(), Some(CommitType::AddToDB), true, DbJobType::Params),
        Some(false)
    );
    assert_eq!(db.jobs_get_all().len(), before);
    assert_eq!(
        db.jobs_add_new_now_checked(&"e6ai".to_string(), &"cat".to_string(), &"1d".to_string(), Some(CommitType::AddToDB), true, DbJobType::Params),
        Some(true)
    );
    assert_eq!(db.jobs_get_all().len(), before + 1);
    assert_eq!(db.jobs_get_all().value_at(before).reptime, Some(86400));
}
