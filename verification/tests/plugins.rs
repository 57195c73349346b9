use std::io::Cursor;

use rusthydrus::file_info::{check_existing_db_table, check_existing_db_table_then, get_set, on_download, size_failure_line, Supset, TableData};
use rusthydrus::intcoms::types::{SupportedDBRequests, SupportedRequests};
use rusthydrus::sharedtypes::{DBPluginOutputEnum, PluginCallback};
use rusthydrus::{file_info, sleepy_dev};

#[test]
fn sleepy_dev_describes_itself() {
    let info = sleepy_dev::return_info();
    assert_eq!(info.name, "SleepyDev");
    assert_eq!(info.version, 100);
    assert!(matches!(info.callbacks.as_slice(), [PluginCallback::OnStart]));
    assert!(info.communication.is_some());
}

#[test]
fn file_info_describes_itself() {
    let info = file_info::return_info();
    assert_eq!(info.name, "File Info");
    assert!(info.callbacks.iter().any(|c| *c == PluginCallback::OnDownload));
}

#[test]
fn namespaces_of_the_facts() {
    assert_eq!(get_set(Supset::Width).name, "FileInfo-Parse-Width");
    assert_eq!(get_set(Supset::Height).name, "FileInfo-Parse-Height");
    assert!(get_set(Supset::Create).description.unwrap().contains("UNIX_EPOCH"));
}

fn png(w: u32, h: u32) -> Vec<u8> {
    let img = image::RgbImage::new(w, h);
    let mut out = Cursor::new(Vec::new());
    img.write_to(&mut out, image::ImageOutputFormat::Png).unwrap();
    out.into_inner()
}

#[test]
fn on_download_tags_width_and_height() {
    let r = on_download(&png(3, 2), &"hh".to_string(), &"png".to_string());
    assert_eq!(r.len(), 1);
    match &r[0] {
        DBPluginOutputEnum::Add(outs) => {
            assert_eq!(outs.len(), 2);
            let w = &outs[0].tag.as_ref().unwrap()[0];
            assert_eq!(w.name, "3");
            assert_eq!(w.namespace, "FileInfo-Parse-Width");
            let h = &outs[1].tag.as_ref().unwrap()[0];
            assert_eq!(h.name, "2");
            assert_eq!(outs[1].relationship.as_ref().unwrap()[0].file_hash, "hh");
        }
        _ => panic!("expected an addition"),
    }
}

#[test]
fn on_download_of_non_image_stores_nothing() {
    assert_eq!(on_download(b"not an image", &"hh".to_string(), &"txt".to_string()).len(), 0);
    assert_eq!(size_failure_line(&"hh".to_string()), "FileInfo - Couldn't parse size from: hh");
}

#[test]
fn namespace_is_made_sure_of() {
    let t = TableData { name: "FileInfo-Parse-Width".to_string(), description: None };
    assert!(matches!(check_existing_db_table(&t),
        SupportedRequests::Database(SupportedDBRequests::GetNamespace(n)) if n == "FileInfo-Parse-Width"));
    let t2 = TableData { name: "x".to_string(), description: Some("d".to_string()) };
    assert!(check_existing_db_table_then(TableData { name: "x".to_string(), description: None }, Some(3)).is_none());
    assert!(matches!(check_existing_db_table_then(t2, None),
        Some(SupportedRequests::Database(SupportedDBRequests::CreateNamespace(n, Some(d), true))) if n == "x" && d == "d"));
}
