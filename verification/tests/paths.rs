use std::path::PathBuf;
use tracklog::fs::{
    allowed_image_extension, app_root_in, managed_release_image_name, resolve_portable_path_in,
    sanitize_filename, to_portable_local_appdata_path, ResolvedPath, StoragePath,
};

fn names(p: &StoragePath) -> Vec<String> {
    p.segments.clone()
}

#[test]
fn app_root_sits_below_local_app_data() {
    let root = app_root_in(Some(PathBuf::from("/home/u/.local/share"))).unwrap();
    assert_eq!(root.base, PathBuf::from("/home/u/.local/share"));
    assert_eq!(names(&root), vec!["TrackLog".to_string()]);
    let data = root.child("data").child("catalog.db");
    assert_eq!(names(&data), vec!["TrackLog", "data", "catalog.db"]);
    assert_eq!(app_root_in(None).err().unwrap(), "Could not resolve Local AppData path");
}

#[test]
fn sanitize_keeps_only_safe_characters() {
    assert_eq!(sanitize_filename("R-001_ok"), "R-001_ok");
    assert_eq!(sanitize_filename("my album/2024 é!"), "my_album_2024___");
    assert_eq!(sanitize_filename(""), "");
    assert_eq!(sanitize_filename(&sanitize_filename("a b")), "a_b");
}

#[test]
fn image_extensions() {
    assert!(allowed_image_extension(Some("png")));
    assert!(allowed_image_extension(Some("JPG")));
    assert!(allowed_image_extension(Some("jpeg")));
    assert!(allowed_image_extension(Some("WebP")));
    assert!(!allowed_image_extension(Some("gif")));
    assert!(!allowed_image_extension(None));
}

#[test]
fn managed_image_names() {
    assert_eq!(managed_release_image_name("R 001", Some("PNG")).unwrap(), "R_001.png");
    assert_eq!(managed_release_image_name("R-2", Some("jpeg")).unwrap(), "R-2.jpeg");
    assert_eq!(
        managed_release_image_name("R-2", None).unwrap_err(),
        "Image file has no valid extension"
    );
}

#[test]
fn resolve_token_paths() {
    let local = Some(PathBuf::from("/L"));
    match resolve_portable_path_in("  %LOCALAPPDATA%\\TrackLog\\data//images/x.png ", local.clone()) {
        ResolvedPath::UnderLocalAppData(p) => {
            assert_eq!(p.base, PathBuf::from("/L"));
            assert_eq!(names(&p), vec!["TrackLog", "data", "images", "x.png"]);
        }
        ResolvedPath::Plain(_) => panic!("expected a path below the local folder"),
    }
    match resolve_portable_path_in("%LocalAppData%", local.clone()) {
        ResolvedPath::UnderLocalAppData(p) => assert!(p.segments.is_empty()),
        ResolvedPath::Plain(_) => panic!("expected the local folder itself"),
    }
    match resolve_portable_path_in(" C:\\images\\a.png ", local.clone()) {
        ResolvedPath::Plain(p) => assert_eq!(p, "C:\\images\\a.png"),
        ResolvedPath::UnderLocalAppData(_) => panic!("expected a plain path"),
    }
    match resolve_portable_path_in("%LocalAppData%\\x", None) {
        ResolvedPath::Plain(p) => assert_eq!(p, "%LocalAppData%\\x"),
        ResolvedPath::UnderLocalAppData(_) => panic!("no local folder is known"),
    }
}

#[test]
fn portable_form_of_paths() {
    assert_eq!(
        to_portable_local_appdata_path(Some("TrackLog/data/images/releases/R.png"), "/L/TrackLog/data/images/releases/R.png"),
        "%LocalAppData%\\TrackLog\\data\\images\\releases\\R.png"
    );
    assert_eq!(to_portable_local_appdata_path(Some(""), "/L"), "%LocalAppData%");
    assert_eq!(to_portable_local_appdata_path(None, "/elsewhere/a.png"), "/elsewhere/a.png");
}

#[test]
fn portable_paths_resolve_back() {
    let stored = to_portable_local_appdata_path(Some("TrackLog/data/images/releases/R-1.png"), "");
    match resolve_portable_path_in(&stored, Some(PathBuf::from("/L"))) {
        ResolvedPath::UnderLocalAppData(p) => {
            assert_eq!(names(&p), vec!["TrackLog", "data", "images", "releases", "R-1.png"]);
        }
        ResolvedPath::Plain(_) => panic!("expected a path below the local folder"),
    }
}
