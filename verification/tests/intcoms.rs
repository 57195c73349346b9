use rusthydrus::sharedtypes::{SearchHolder, SearchObj};
use rusthydrus::database::Main;
use rusthydrus::intcoms::client;
use rusthydrus::intcoms::server::{DbReply, PluginIpcInteract};
use rusthydrus::intcoms::types::{SupportedDBRequests, SupportedPluginRequests, SupportedRequests};
use rusthydrus::sharedtypes::LoadDBTable;

fn server() -> PluginIpcInteract {
    PluginIpcInteract::new(Main::new("ipc.db".to_string(), 2, false))
}

#[test]
fn socket_names() {
    assert_eq!(client::socket_name_for(true), "/tmp/RustHydrus.sock");
    assert_eq!(client::socket_name_for(false), "@RustHydrus.sock");
    let n = client::socket_name();
    assert!(n == "/tmp/RustHydrus.sock" || n == "@RustHydrus.sock");
}

#[test]
fn builders_name_their_request() {
    assert!(matches!(client::tag_get_id(3), SupportedRequests::Database(SupportedDBRequests::GetTagId(3))));
    assert!(matches!(client::load_table(LoadDBTable::Tags), SupportedRequests::Database(SupportedDBRequests::LoadTable(LoadDBTable::Tags))));
    assert!(matches!(client::log("m".to_string()), SupportedRequests::Database(SupportedDBRequests::Logging(m)) if m == "m"));
    assert!(matches!(client::tag_add("t".to_string(), 1, true, Some(4)),
        SupportedRequests::Database(SupportedDBRequests::PutTag(t, 1, true, Some(4))) if t == "t"));
    assert!(matches!(client::testusize(), SupportedRequests::Database(SupportedDBRequests::TestUsize())));
}

#[test]
fn a_tag_put_reads_back_over_the_server() {
    let mut s = server();
    let put = s.answer(client::tag_add("cat".to_string(), 2, true, None));
    let id = match put {
        Some(DbReply::Number(n)) => n,
        _ => panic!("expected a number"),
    };
    let got = s.answer(client::tag_get_name("cat".to_string(), 2));
    assert!(matches!(got, Some(DbReply::Id(Some(x))) if x == id));
    let tag = s.answer(client::tag_get_id(id));
    assert!(matches!(tag, Some(DbReply::Tag(Some(t))) if t.name == "cat" && t.namespace == 2));
}

#[test]
fn a_namespace_and_setting_read_back() {
    let mut s = server();
    let n = match s.answer(client::namespace_put("ns".to_string(), None, true)) {
        Some(DbReply::Number(n)) => n,
        _ => panic!("expected a number"),
    };
    assert!(matches!(s.answer(client::namespace_get("ns".to_string())), Some(DbReply::Id(Some(x))) if x == n));
    assert!(matches!(s.answer(client::setting_add("k".to_string(), None, Some(9), None, true)), Some(DbReply::Flag(true))));
    assert!(matches!(s.answer(client::settings_get_name("k".to_string())), Some(DbReply::Setting(Some(st))) if st.num == Some(9)));
    assert!(matches!(s.answer(client::location_get()), Some(DbReply::Text(t)) if t == "./Files/"));
}

#[test]
fn other_replies() {
    let mut s = server();
    assert!(matches!(s.answer(client::testusize()), Some(DbReply::Number(32))));
    assert!(matches!(s.answer(client::relationship_add_db(1, 2, true)), Some(DbReply::Flag(true))));
    assert!(matches!(s.answer(client::relationship_get_fileid(2)), Some(DbReply::Ids(Some(f))) if f.contains(&1)));
    assert!(matches!(s.answer(client::relationship_get_fileid(3)), Some(DbReply::Ids(None))));
    assert!(matches!(s.answer(client::log_no_print("x".to_string())), Some(DbReply::Log { print: false, .. })));
    assert!(matches!(s.answer(client::load_table(LoadDBTable::All)), Some(DbReply::Load(LoadDBTable::All))));
    assert!(matches!(s.answer(client::get_file(9)), Some(DbReply::FileOnDisk { row: None, bytes: false })));
    assert!(s.answer(SupportedRequests::PluginCross(SupportedPluginRequests::NoRequest)).is_none());
}

#[test]
fn unanswerable_requests_are_told_apart() {
    let mut s = server();
    let two_steps = SearchObj { searches: vec![SearchHolder::AND((1, 2)), SearchHolder::AND((1, 2))], search_relate: None };
    assert!(!s.answerable(&client::search_db_files(two_steps, None, None)));
    assert!(s.answerable(&client::location_get()));
    assert!(s.answerable(&client::tag_add("x".to_string(), 0, false, None)));
    let mut bare = PluginIpcInteract::new(Main::empty("b.db".to_string(), 2));
    assert!(!bare.answerable(&client::location_get()));
    assert!(bare.database().search_answerable_exec(&SearchObj { searches: vec![], search_relate: None }));
}

#[test]
fn client_requests_answer_as_the_database_does() {
    let mut s = server();
    let mut direct = Main::new("ipc.db".to_string(), 2, false);
    let expect_ns = direct.namespace_add("artist".to_string(), None, false);
    let got_ns = s.answer(client::namespace_put("artist".to_string(), None, false));
    assert!(matches!(got_ns, Some(DbReply::Number(n)) if n == expect_ns));
    assert!(matches!(s.answer(client::namespace_get("artist".to_string())), Some(DbReply::Id(Some(n))) if n == expect_ns));
    let expect_tag = direct.tag_add("cat".to_string(), expect_ns, false, None);
    let got_tag = s.answer(client::tag_add("cat".to_string(), expect_ns, false, None));
    assert!(matches!(got_tag, Some(DbReply::Number(n)) if n == expect_tag));
    direct.relationship_add(5, expect_tag, false);
    s.answer(client::relationship_add_db(5, expect_tag, false));
    let search = || SearchObj { searches: vec![SearchHolder::AND((expect_tag, expect_tag))], search_relate: None };
    let expect = direct.search_db_files(search(), None, None);
    assert!(matches!(s.answer(client::search_db_files(search(), None, None)), Some(DbReply::Ids(o)) if o == expect));
}
