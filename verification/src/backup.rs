//! The user's backup settings and the names used inside backup archives.

use vstd::prelude::*;
use crate::clock::{compact_stamp, compact_stamp_of, epoch_time, is_utc_reading, utc_now, UtcTime};
use crate::models::{copy_opt_text, opt_text};
use crate::text::{trim, trim_seq};

verus! {

/// The settings the application keeps between runs.
#[derive(Debug)]
pub struct AppSettings {
    pub backup_location: Option<String>,
}

impl Default for AppSettings {
    fn default() -> (s: Self)
        ensures
            s.backup_location is None,
    {
        AppSettings { backup_location: None }
    }
}

/// The folder where backups go, if one was chosen.
pub fn get_backup_location(settings: &AppSettings) -> (r: Option<String>)
    ensures
        opt_text(r) == opt_text(settings.backup_location),
{
    copy_opt_text(&settings.backup_location)
}

/// The message when a chosen backup folder does not exist.
pub open spec fn not_a_folder_message() -> Seq<char> {
    "Backup location must be an existing folder"@
}

/// Chooses the folder where backups go: `path` trimmed, provided that the
/// trimmed path names an existing folder (`is_existing_folder`, which the
/// caller finds out). On success the settings hold the folder, and it is
/// returned; otherwise they are unchanged.
pub fn set_backup_location(settings: &mut AppSettings, path: &str, is_existing_folder: bool) -> (r:
    Result<Option<String>, String>)
    ensures
        match r {
            Ok(loc) => is_existing_folder && opt_text(loc) == Some(trim_seq(path@)) && opt_text(
                final(settings).backup_location,
            ) == Some(trim_seq(path@)),
            Err(e) => !is_existing_folder && e@ == not_a_folder_message()
                && opt_text(final(settings).backup_location) == opt_text(old(settings).backup_location),
        },
{
    if !is_existing_folder {
        return Err(String::from_str("Backup location must be an existing folder"));
    }
    let target = trim(path);
    settings.backup_location = Some(target.clone());
    Ok(Some(target))
}

/// The text with every backslash turned into a slash.
pub open spec fn forward_slashes(s: Seq<char>) -> Seq<char> {
    s.map_values(|c: char| if c == '\\' { '/' } else { c })
}

/// The name of an archive entry for a file or folder of the data folder,
/// given by its path `relative` to the data folder: below `data/`, with
/// slashes as separators, and a trailing slash for a folder.
pub fn backup_entry_name(relative: &str, is_dir: bool) -> (r: String)
    ensures
        r@ == "data/"@ + forward_slashes(relative@) + if is_dir {
            seq!['/']
        } else {
            Seq::<char>::empty()
        },
{
    proof {
        reveal_strlit("/");
    }
    let mut r = String::from_str("data/");
    let ghost head = r@;
    let n = relative.unicode_len();
    let mut i: usize = 0;
    while i < n
        invariant
            n == relative@.len(),
            i <= n,
            "/"@ == seq!['/'],
            r@ == head + forward_slashes(relative@.take(i as int)),
        decreases n - i,
    {
        let c = relative.get_char(i);
        if c == '\\' {
            r.append("/");
        } else {
            r.append(relative.substring_char(i, i + 1));
        }
        assert(forward_slashes(relative@.take(i + 1)) =~= forward_slashes(relative@.take(i as int)).push(if c == '\\' { '/' } else { c }));
        i = i + 1;
    }
    assert(relative@.take(n as int) =~= relative@);
    if is_dir {
        r.append("/");
    }
    r
}

/// Whether an archive entry stands for a folder (its name ends in `/`).
pub fn is_directory_entry(name: &str) -> (r: bool)
    ensures
        r == (name@.len() > 0 && name@.last() == '/'),
{
    let n = name.unicode_len();
    n > 0 && name.get_char(n - 1) == '/'
}

/// The file name of a backup archive made at `timestamp`.
pub fn backup_archive_name(timestamp: &str) -> (r: String)
    ensures
        r@ == "tracklog-backup-"@ + timestamp@ + ".zip"@,
{
    let mut r = String::from_str("tracklog-backup-");
    r.append(timestamp);
    r.append(".zip");
    r
}

/// The file name for a backup made now: `tracklog-backup-`, the current
/// UTC time in the form `YYYYmmdd-HHMMSS` (see `compact_stamp_of`), and
/// `.zip`.
pub fn new_backup_archive_name() -> (r: String)
    ensures
        exists|t: UtcTime|
            t.valid() && (is_utc_reading(t) || t == epoch_time()) && r@ == "tracklog-backup-"@
                + compact_stamp_of(t) + ".zip"@,
{
    let t = utc_now();
    let stamp = compact_stamp(&t);
    backup_archive_name(stamp.as_str())
}

} // verus!
