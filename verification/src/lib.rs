//! A media-tagging database: in-memory tables with a write-ahead outbox of
//! SQL statements, the e6ai scraper, the plugin helpers, and the request
//! types that plugins send over the local socket.

pub mod text;
pub mod time_func;
pub mod sharedtypes;
pub mod idmap;
pub mod tables;
pub mod database;
pub mod db_laws;
pub mod dbtraits;
pub mod sqlitedb;
pub mod table_info;
pub mod loading;
pub mod migrate;
pub mod intcoms;
pub mod jsondoc;
pub mod e6ai;
pub mod worker;
pub mod download;
pub mod sleepy_dev;
pub mod file_info;
pub mod tasks;
pub mod jobs;
pub mod maintenance;
