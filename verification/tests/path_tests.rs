use spectre_automation::instance::lock_path;
use spectre_automation::paths::{bundle_binary, dir_part_of, file_name_of, joined, PathStyle};

const W: PathStyle = PathStyle::Windows;
const U: PathStyle = PathStyle::Unix;

fn name(path: &str, style: PathStyle) -> Option<String> {
    file_name_of(path, style)
}

fn parent(path: &str, style: PathStyle) -> Option<String> {
    dir_part_of(path, style)
}

#[test]
fn a_share_alone_names_no_file() {
    assert_eq!(name(r"\\server\share", W), None);
    assert_eq!(name(r"\\server\share\", W), None);
    assert_eq!(parent(r"\\server\share", W), None);
    assert_eq!(parent(r"\\server\share\", W), None);
}

#[test]
fn files_on_a_share() {
    assert_eq!(name(r"\\server\share\builds\App.exe", W), Some("App.exe".to_string()));
    assert_eq!(parent(r"\\server\share\App.exe", W), Some(r"\\server\share\".to_string()));
    assert_eq!(parent(r"\\server\share\a\b", W), Some(r"\\server\share\a".to_string()));
    assert_eq!(name("//server/share/App.exe", W), Some("App.exe".to_string()));
    assert_eq!(
        lock_path(r"\\server\share\data\exchanges.db", W),
        r"\\server\share\data\instance.lock"
    );
}

#[test]
fn a_double_backslash_without_a_share_is_no_prefix() {
    assert_eq!(name(r"\\server", W), Some("server".to_string()));
    assert_eq!(name(r"\\server\", W), Some("server".to_string()));
}

#[test]
fn device_paths_name_no_file() {
    assert_eq!(name(r"\\.\COM42", W), None);
    assert_eq!(name(r"\\.\pipe\spectre", W), Some("spectre".to_string()));
}

#[test]
fn verbatim_paths_split_only_at_backslashes() {
    assert_eq!(name(r"\\?\C:\Builds\App.exe", W), Some("App.exe".to_string()));
    assert_eq!(parent(r"\\?\C:\Builds\App.exe", W), Some(r"\\?\C:\Builds".to_string()));
    assert_eq!(parent(r"\\?\C:\App.exe", W), Some(r"\\?\C:\".to_string()));
    assert_eq!(parent(r"\\?\C:", W), None);
    assert_eq!(name(r"\\?\C:\a/b", W), Some("a/b".to_string()));
    assert_eq!(name(r"\\?\C:\a\.", W), None);
    assert_eq!(parent(r"\\?\C:\a\.", W), Some(r"\\?\C:\a".to_string()));
    assert_eq!(name(r"\\?\C:\a\", W), Some("a".to_string()));
    assert_eq!(name(r"\\?\pictures\cat.png", W), Some("cat.png".to_string()));
    assert_eq!(name(r"\\?\pictures", W), None);
}

#[test]
fn verbatim_shares() {
    assert_eq!(name(r"\\?\UNC\server\share\x.db", W), Some("x.db".to_string()));
    assert_eq!(parent(r"\\?\UNC\server\share\x.db", W), Some(r"\\?\UNC\server\share\".to_string()));
    assert_eq!(name(r"\\?\UNC\server\share", W), None);
}

#[test]
fn prefixes_mean_nothing_on_unix() {
    assert_eq!(name(r"\\server\share", U), Some(r"\\server\share".to_string()));
    assert_eq!(name(r"\\?\C:\a\b", U), Some(r"\\?\C:\a\b".to_string()));
}

#[test]
fn joining_onto_a_verbatim_directory_rebuilds_it() {
    assert_eq!(joined(r"\\?\C:\data", "instance.lock", W), r"\\?\C:\data\instance.lock");
    assert_eq!(joined(r"\\?\C:\a\\b\", "x", W), r"\\?\C:\a\b\x");
    assert_eq!(joined(r"\\?\C:\a", "Contents/MacOS", W), r"\\?\C:\a\Contents\MacOS");
    assert_eq!(joined(r"\\?\C:", "x", W), r"\\?\C:\x");
    assert_eq!(joined(r"\\?\C:\a\b", r"..\c", W), r"\\?\C:\a\c");
    assert_eq!(joined(r"\\?\C:\a", r"\x", W), r"\\?\C:\x");
    assert_eq!(joined(r"\\?\C:\a", "", W), r"\\?\C:\a\");
    assert_eq!(
        lock_path(r"\\?\C:\data\exchanges.db", W),
        r"\\?\C:\data\instance.lock"
    );
}

#[test]
fn joining_a_rooted_or_prefixed_name() {
    assert_eq!(joined("/home/u", "/etc", U), "/etc");
    assert_eq!(joined(r"C:\x", r"\y", W), r"C:\y");
    assert_eq!(joined(r"C:\x", "D:y", W), "D:y");
    assert_eq!(joined(r"C:\x", r"\\server\share\y", W), r"\\server\share\y");
    assert_eq!(joined(r"\\server\share\x", r"\y", W), r"\\server\share\y");
    assert_eq!(joined("C:", "x", W), "C:x");
    assert_eq!(joined(r"a\", "x", U), r"a\/x");
}

#[test]
fn bundles_on_windows_paths() {
    assert_eq!(
        bundle_binary(r"\\?\C:\Apps\Spectre.app", W),
        Some(r"\\?\C:\Apps\Spectre.app\Contents\MacOS\Spectre".to_string())
    );
    assert_eq!(
        bundle_binary("/Applications/Spectre.app", U),
        Some("/Applications/Spectre.app/Contents/MacOS/Spectre".to_string())
    );
}
