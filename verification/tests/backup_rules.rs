use tracklog::backup::{
    backup_archive_name, backup_entry_name, get_backup_location, is_directory_entry,
    new_backup_archive_name, set_backup_location, AppSettings,
};

#[test]
fn backup_location_must_be_a_folder() {
    let mut settings = AppSettings::default();
    assert_eq!(get_backup_location(&settings), None);
    let err = set_backup_location(&mut settings, "/nowhere", false).unwrap_err();
    assert_eq!(err, "Backup location must be an existing folder");
    assert_eq!(get_backup_location(&settings), None);
    let ok = set_backup_location(&mut settings, "  /backups  ", true).unwrap();
    assert_eq!(ok, Some("/backups".to_string()));
    assert_eq!(get_backup_location(&settings), Some("/backups".to_string()));
    let err2 = set_backup_location(&mut settings, "/gone", false).unwrap_err();
    assert_eq!(err2, "Backup location must be an existing folder");
    assert_eq!(get_backup_location(&settings), Some("/backups".to_string()));
}

#[test]
fn archive_entry_names() {
    assert_eq!(backup_entry_name("catalog.db", false), "data/catalog.db");
    assert_eq!(backup_entry_name("images\\releases\\R.png", false), "data/images/releases/R.png");
    assert_eq!(backup_entry_name("images/releases", true), "data/images/releases/");
    assert!(is_directory_entry("data/images/"));
    assert!(!is_directory_entry("data/catalog.db"));
    assert!(!is_directory_entry(""));
}

#[test]
fn archive_names() {
    assert_eq!(backup_archive_name("20240102-030405"), "tracklog-backup-20240102-030405.zip");
    let fresh = new_backup_archive_name();
    assert!(fresh.starts_with("tracklog-backup-"));
    assert!(fresh.ends_with(".zip"));
    assert_eq!(fresh.len(), "tracklog-backup-20240102-030405.zip".len());
}
