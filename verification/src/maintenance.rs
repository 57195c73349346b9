//! Keeping the database file in shape: checking and upgrading its layout,
//! and the decisions around backing it up.

use vstd::prelude::*;
use crate::database::{DbView, Main, OpView, first_db_ops, flushed, setting_add_spec, vacuumed, with_op, with_ops};
use crate::migrate::{OldTables, load_mesm_spec, old_tables_valid};
use crate::sharedtypes::DbSettingObj;
use crate::text::{dec, u64_to_string};
use crate::time_func::time_secs;

verus! {

/// What the version stored in the file calls for.
#[derive(Debug, Clone, Copy, PartialEq, Eq, Structural)]
pub enum VersionCheck {
    /// The file is at this program's version.
    Current,
    /// The file is at version 1 and this program writes version 2: upgrade
    /// it, then stop.
    UpgradeOneToTwo,
    /// Any other version: stop.
    Unsupported,
    /// No single version could be read: stop.
    Unreadable,
}

/// The version read: from the first attempt that found exactly one.
pub open spec fn first_single(attempts: Seq<Seq<isize>>) -> Option<isize>
    decreases attempts.len(),
{
    if attempts.len() == 0 {
        None
    } else if attempts[0].len() == 1 {
        Some(attempts[0][0])
    } else {
        first_single(attempts.drop_first())
    }
}

/// What a read version calls for, given the version this program writes.
pub open spec fn version_check_spec(vers: int, found: Option<isize>) -> VersionCheck {
    match found {
        None => VersionCheck::Unreadable,
        Some(f) => if f as int == vers {
            VersionCheck::Current
        } else if f == 1 && vers == 2 {
            VersionCheck::UpgradeOneToTwo
        } else {
            VersionCheck::Unsupported
        },
    }
}

pub open spec fn attempts_v(a: Seq<Vec<isize>>) -> Seq<Seq<isize>> {
    a.map_values(|v: Vec<isize>| v@)
}

/// The names of the tables of the older layout, renamed with `_Old`.
pub open spec fn layout_tables() -> Seq<Seq<char>> {
    seq!["File"@, "Jobs"@, "Namespace"@, "Parents"@, "Relationship"@, "Settings"@, "Tags"@]
}

/// The renames of the tables whose older copy is not there yet.
pub open spec fn rename_ops(names: Seq<Seq<char>>, old_exists: Seq<bool>) -> Seq<OpView>
    decreases names.len(),
{
    if names.len() == 0 {
        Seq::empty()
    } else {
        let n = (names.len() - 1) as int;
        let rest = rename_ops(names.drop_last(), old_exists);
        if old_exists[n] {
            rest
        } else {
            rest.push(OpView::Execute("ALTER TABLE "@ + names[n] + " RENAME TO "@ + (names[n] + "_Old"@) + ";"@))
        }
    }
}

/// The drops of the older copies.
pub open spec fn drop_old_ops(names: Seq<Seq<char>>) -> Seq<OpView>
    decreases names.len(),
{
    if names.len() == 0 {
        Seq::empty()
    } else {
        drop_old_ops(names.drop_last()).push(OpView::Execute("DROP TABLE IF EXISTS "@ + (names.last() + "_Old"@) + ";"@))
    }
}

fn layout_names() -> (r: Vec<String>)
    ensures
        r@.map_values(|s: String| s@) == layout_tables(),
{
    let r = vec![
        String::from_str("File"),
        String::from_str("Jobs"),
        String::from_str("Namespace"),
        String::from_str("Parents"),
        String::from_str("Relationship"),
        String::from_str("Settings"),
        String::from_str("Tags"),
    ];
    assert(r@.map_values(|s: String| s@) =~= layout_tables());
    r
}

fn first_single_exec(attempts: &Vec<Vec<isize>>) -> (r: Option<isize>)
    ensures
        r == first_single(attempts_v(attempts@)),
{
    let mut i: usize = 0;
    assert(attempts_v(attempts@).skip(0) =~= attempts_v(attempts@));
    while i < attempts.len()
        invariant
            i <= attempts@.len(),
            first_single(attempts_v(attempts@)) == first_single(attempts_v(attempts@).skip(i as int)),
        decreases attempts@.len() - i,
    {
        proof {
            let rest = attempts_v(attempts@).skip(i as int);
            assert(rest.drop_first() =~= attempts_v(attempts@).skip(i + 1));
            assert(rest[0] == attempts@[i as int]@);
        }
        if attempts[i].len() == 1 {
            return Some(attempts[i][0]);
        }
        i = i + 1;
    }
    assert(attempts_v(attempts@).skip(i as int) =~= Seq::<Seq<isize>>::empty());
    None
}

impl Main {
    /// What the versions read from the file call for; the attempts are
    /// taken in order and the first with exactly one version counts.
    pub fn check_version(&self, attempts: &Vec<Vec<isize>>) -> (r: VersionCheck)
        ensures
            r == version_check_spec(self@.vers, first_single(attempts_v(attempts@))),
    {
        let found = first_single_exec(attempts);
        let vers = self.vers_get();
        match found {
            None => VersionCheck::Unreadable,
            Some(f) => if f == vers {
                VersionCheck::Current
            } else if f == 1 && vers == 2 {
                VersionCheck::UpgradeOneToTwo
            } else {
                VersionCheck::Unsupported
            },
        }
    }

    /// The first half of moving from layout 1 to 2: each table whose older
    /// copy is not there (`old_exists`, in the order of `layout_tables`) is
    /// renamed to it, and the tables are made anew.
    pub fn db_update_begin(&mut self, old_exists: &Vec<bool>)
        requires
            old(self).wf(),
            old_exists@.len() == 7,
        ensures
            final(self).wf(),
            final(self)@ == flushed(flushed(with_ops(with_ops(old(self)@, rename_ops(layout_tables(), old_exists@)), first_db_ops()))),
    {
        let names = layout_names();
        assert(names@.len() == 7) by {
            assert(names@.map_values(|s: String| s@).len() == layout_tables().len());
        }
        let ghost v0 = self@;
        let mut i: usize = 0;
        while i < 7
            invariant
                self.wf(),
                i <= 7,
                old_exists@.len() == 7,
                names@.len() == 7,
                names@.map_values(|s: String| s@) == layout_tables(),
                self@ == with_ops(v0, rename_ops(layout_tables().take(i as int), old_exists@)),
            decreases 7 - i,
        {
            proof {
                assert(layout_tables().take(i + 1).drop_last() =~= layout_tables().take(i as int));
                assert(names@.map_values(|s: String| s@)[i as int] == names@[i as int]@);
                assert(layout_tables().take(i + 1)[i as int] == names@[i as int]@);
            }
            if !old_exists[i] {
                let mut newname = names[i].clone();
                newname.append("_Old");
                let ghost before = self@;
                self.alter_table(&names[i], &newname);
                assert(self@ =~= with_ops(v0, rename_ops(layout_tables().take(i + 1), old_exists@)));
            }
            i = i + 1;
        }
        assert(layout_tables().take(7) =~= layout_tables());
        self.first_db();
        self.transaction_flush();
    }

    /// The second half: the older rows carried over, the older copies
    /// dropped, the file vacuumed, and the version 2 stored.
    pub fn db_update_finish(&mut self, old_rows: &OldTables, current_time: usize)
        requires
            old(self).wf(),
            old_tables_valid(*old_rows),
        ensures
            final(self).wf(),
            exists|name: String, pretty: String| name@ == "VERSION"@ && pretty@ == "Version that the database is currently on."@
                && final(self)@ == #[trigger] flushed(setting_add_spec(
                    vacuumed(flushed(with_ops(load_mesm_spec(old(self)@, *old_rows, current_time), drop_old_ops(layout_tables())))),
                    DbSettingObj { name: name, pretty: Some(pretty), num: Some(2), param: None },
                    true,
                )),
    {
        self.load_mesm(old_rows, current_time);
        let ghost v1 = self@;
        let names = layout_names();
        assert(names@.len() == 7) by {
            assert(names@.map_values(|s: String| s@).len() == layout_tables().len());
        }
        let mut i: usize = 0;
        while i < 7
            invariant
                self.wf(),
                i <= 7,
                names@.len() == 7,
                names@.map_values(|s: String| s@) == layout_tables(),
                self@ == with_ops(v1, drop_old_ops(layout_tables().take(i as int))),
            decreases 7 - i,
        {
            proof {
                assert(layout_tables().take(i + 1).drop_last() =~= layout_tables().take(i as int));
                assert(names@.map_values(|s: String| s@)[i as int] == names@[i as int]@);
                assert(layout_tables().take(i + 1).last() == names@[i as int]@);
            }
            let mut oldname = names[i].clone();
            oldname.append("_Old");
            self.db_drop_table(&oldname);
            assert(self@ =~= with_ops(v1, drop_old_ops(layout_tables().take(i + 1))));
            i = i + 1;
        }
        assert(layout_tables().take(7) =~= layout_tables());
        self.transaction_flush();
        self.vacuum();
        let name = String::from_str("VERSION");
        let pretty = String::from_str("Version that the database is currently on.");
        let ghost gname = name;
        let ghost gpretty = pretty;
        let ghost v2 = self@;
        self.setting_add(name, Some(pretty), Some(2), None, true);
        self.transaction_flush();
        assert(gname@ == "VERSION"@);
        assert(v2 == vacuumed(flushed(with_ops(load_mesm_spec(old(self)@, *old_rows, current_time), drop_old_ops(layout_tables())))));
        assert(self@ == flushed(setting_add_spec(v2, DbSettingObj { name: gname, pretty: Some(gpretty), num: Some(2), param: None }, true)));
    }
}

/// The civil date (year, month 1 to 12, day 1 to 31) of a count of days
/// since 1970-01-01, in the proleptic Gregorian calendar: days are shifted to
/// start on 0000-03-01, split into 400-year eras, and the year of the era
/// and the day of that year found, with the months counted from March.
pub open spec fn civil_from_days(days: int) -> (int, int, int) {
    let z = days + 719468;
    let era = z / 146097;
    let doe = z - era * 146097;
    let yoe = (doe - doe / 1460 + doe / 36524 - doe / 146096) / 365;
    let doy = doe - (365 * yoe + yoe / 4 - yoe / 100);
    let mp = (5 * doy + 2) / 153;
    let d = doy - (153 * mp + 2) / 5 + 1;
    let m = if mp < 10 { mp + 3 } else { mp - 9 };
    (if m <= 2 { yoe + era * 400 + 1 } else { yoe + era * 400 }, m, d)
}

/// The UTC date of a count of seconds since the unix epoch.
pub open spec fn utc_date_spec(secs: int) -> (int, int, int) {
    civil_from_days(secs / 86400)
}

/// The UTC date (year, month, day) of a count of seconds since the epoch.
pub fn utc_date_of(secs: u64) -> (r: (u64, u64, u64))
    ensures
        (r.0 as int, r.1 as int, r.2 as int) == utc_date_spec(secs as int),
        1 <= r.1 <= 12,
        1 <= r.2 <= 31,
{
    let days: u64 = secs / 86400;
    assert(days <= 213503982334601) by (nonlinear_arith)
        requires days == secs / 86400, secs <= u64::MAX;
    let z: u64 = days + 719468;
    let era: u64 = z / 146097;
    let doe: u64 = z % 146097;
    assert(doe == z - era * 146097) by (nonlinear_arith)
        requires era == z / 146097, doe == z % 146097;
    assert(era <= 1461403209826) by (nonlinear_arith)
        requires era == z / 146097, z <= 213503983054069;
    let yoe: u64 = (doe - doe / 1460 + doe / 36524 - doe / 146096) / 365;
    assert(yoe <= 399);
    let doy: u64 = doe - (365 * yoe + yoe / 4 - yoe / 100);
    assert(doy <= 365);
    let mp: u64 = (5 * doy + 2) / 153;
    let d: u64 = doy - (153 * mp + 2) / 5 + 1;
    let m: u64 = if mp < 10 { mp + 3 } else { mp - 9 };
    let y: u64 = if m <= 2 { yoe + era * 400 + 1 } else { yoe + era * 400 };
    (y, m, d)
}

/// Where backups go: the `db_backup_location` setting's text, or
/// `dbbackup` (to be stored afterwards) where it has none.
pub open spec fn backup_folder_spec(v: DbView) -> (Seq<char>, bool) {
    let key = "db_backup_location"@;
    if v.settings.dom().contains(key) && v.settings[key].param.is_some() {
        (v.settings[key].param.unwrap(), false)
    } else {
        ("dbbackup"@, true)
    }
}

/// The folder and file of a backup: `folder/year/month/day/` and
/// `db<n>.db` in it, with the separator given.
pub open spec fn backup_paths_spec(folder: Seq<char>, year: u64, month: u64, day: u64, n: u64, sep: char) -> (Seq<char>, Seq<char>) {
    let dir = folder + seq![sep] + dec(year as nat) + seq![sep] + dec(month as nat) + seq![sep] + dec(day as nat) + seq![sep];
    (dir, dir + "db"@ + dec(n as nat) + ".db"@)
}

/// Where a backup goes and whether that is the default, to be stored.
pub fn backup_folder(db: &Main) -> (r: (String, bool))
    requires
        db.wf(),
    ensures
        (r.0@, r.1) == backup_folder_spec(db@),
{
    let key = String::from_str("db_backup_location");
    match db.settings_get_name(&key) {
        Some(st) => match &st.param {
            Some(p) => (p.clone(), false),
            None => (String::from_str("dbbackup"), true),
        },
        None => (String::from_str("dbbackup"), true),
    }
}

/// The folder and file of the `n`-th backup of a day.
pub fn backup_paths(folder: &String, year: u64, month: u64, day: u64, n: u64, sep: char) -> (r: (String, String))
    ensures
        (r.0@, r.1@) == backup_paths_spec(folder@, year, month, day, n, sep),
{
    let mut dir = folder.clone();
    crate::text::push_char(&mut dir, sep);
    dir.append(u64_to_string(year).as_str());
    crate::text::push_char(&mut dir, sep);
    dir.append(u64_to_string(month).as_str());
    crate::text::push_char(&mut dir, sep);
    dir.append(u64_to_string(day).as_str());
    crate::text::push_char(&mut dir, sep);
    let mut file = dir.clone();
    file.append("db");
    file.append(u64_to_string(n).as_str());
    file.append(".db");
    assert(dir@ =~= backup_paths_spec(folder@, year, month, day, n, sep).0);
    assert(file@ =~= backup_paths_spec(folder@, year, month, day, n, sep).1);
    (dir, file)
}

/// Today's backup folder and the file of its `n`-th backup, by the UTC
/// date of the clock; `None` where the clock cannot be read.
pub fn backup_paths_today(folder: &String, n: u64, sep: char) -> (r: Option<(String, String)>)
    ensures
        r matches Some(p) ==> exists|s: u64| #![trigger utc_date_spec(s as int)]
            (p.0@, p.1@) == backup_paths_spec(folder@, utc_date_spec(s as int).0 as u64,
                utc_date_spec(s as int).1 as u64, utc_date_spec(s as int).2 as u64, n, sep),
{
    match time_secs() {
        Some(s) => {
            let (y, m, d) = utc_date_of(s as u64);
            Some(backup_paths(folder, y, m, d, n, sep))
        },
        None => None,
    }
}

impl Main {
    /// Before the file is copied: everything pending is committed.
    pub fn backup_begin(&mut self)
        requires
            old(self).wf(),
        ensures
            final(self).wf(),
            final(self)@ == (DbView { commit_num: 0, outbox: flushed(old(self)@).outbox.push(OpView::Commit), ..flushed(old(self)@) }),
    {
        self.transaction_flush();
        self.transaction_close();
    }

    /// After the copy: a transaction begins, the default backup folder is
    /// stored where it was used, and everything is flushed.
    pub fn backup_end(&mut self, default_used: Option<String>)
        requires
            old(self).wf(),
        ensures
            final(self).wf(),
            match default_used {
                None => final(self)@ == flushed(with_op(old(self)@, OpView::Begin)),
                Some(f) => exists|name: String, pretty: String| name@ == "db_backup_location"@
                    && pretty@ == "The location that the DB get's backed up to"@
                    && final(self)@ == #[trigger] flushed(setting_add_spec(with_op(old(self)@, OpView::Begin),
                        DbSettingObj { name: name, pretty: Some(pretty), num: None, param: Some(f) }, true)),
            },
    {
        self.transaction_start();
        match default_used {
            Some(f) => {
                let name = String::from_str("db_backup_location");
                let pretty = String::from_str("The location that the DB get's backed up to");
                let ghost gn = name;
                let ghost gp = pretty;
                self.setting_add(name, Some(pretty), None, Some(f), true);
                assert(gn@ == "db_backup_location"@);
            },
            None => {},
        }
        self.transaction_flush();
    }
}

} // verus!
