use rusteam::filesystem::{extension, file_name, has_same_name_as_parent_dir};
use rusteam::game::Game;
use rusteam::is_installer;
use rusteam::strings::join_with_spaces;

#[test]
fn file_name_of_plain_path() {
    assert_eq!(file_name("/games/Portal"), Some("Portal".to_string()));
    assert_eq!(file_name("Portal"), Some("Portal".to_string()));
    assert_eq!(file_name(""), None);
    assert_eq!(file_name("/"), None);
}

#[test]
fn file_name_ignores_trailing_separators() {
    assert_eq!(file_name("/games/Portal/"), Some("Portal".to_string()));
    assert_eq!(file_name("/games/Portal//"), Some("Portal".to_string()));
}

#[test]
fn parent_references_have_no_file_name() {
    assert_eq!(file_name(".."), None);
    assert_eq!(file_name("/games/.."), None);
    assert_eq!(extension("/games/.."), None);
}

#[test]
fn extension_of_paths() {
    assert_eq!(extension("/g/run.sh"), Some("sh".to_string()));
    assert_eq!(extension("/g/game.x86_64"), Some("x86_64".to_string()));
    assert_eq!(extension("/g/readme"), None);
    assert_eq!(extension("/g/.rusteam-ignore"), None);
    assert_eq!(extension("/g/archive.tar.gz"), Some("gz".to_string()));
}

#[test]
fn same_name_as_parent() {
    assert!(has_same_name_as_parent_dir("/path/to/entry/entry"));
    assert!(has_same_name_as_parent_dir("entry/entry"));
    assert!(has_same_name_as_parent_dir("a/a/"));
    assert!(!has_same_name_as_parent_dir("entry"));
    assert!(!has_same_name_as_parent_dir("/path/to/entry/other"));
    assert!(!has_same_name_as_parent_dir("a/../.."));
    // The parent of `/foo` is the root, which has no final component.
    assert!(!has_same_name_as_parent_dir("/foo"));
}

#[test]
fn native_and_wine_extensions() {
    assert!(Game::is_native("/g/run.sh"));
    assert!(Game::is_native("/g/game.x86"));
    assert!(Game::is_native("/g/game.x86_64"));
    assert!(!Game::is_native("/g/game.exe"));
    assert!(Game::is_wine("/g/game.exe"));
    assert!(!Game::is_wine("/g/run.sh"));
}

#[test]
fn uninstaller_is_never_a_candidate() {
    // Shares the launcher extension and still may not launch the game.
    assert!(Game::is_uninstall("/g/uninstall.sh"));
    assert!(!Game::is_launcher("/g/uninstall.sh"));
    // Even when it is named like its parent directory.
    assert!(Game::is_uninstall("/g/uninstall/uninstall"));
    assert!(!Game::is_launcher("/g/uninstall/uninstall"));
}

#[test]
fn launcher_candidates() {
    assert!(Game::is_launcher("/g/run.sh"));
    assert!(Game::is_launcher("/g/game.exe"));
    assert!(Game::is_launcher("/games/Portal/Portal"));
    assert!(!Game::is_launcher("/g/readme.txt"));
}

#[test]
fn installer_classification() {
    assert!(is_installer("/g/install_game.sh"));
    assert!(is_installer("/g/gog_witcher3.sh"));
    assert!(!is_installer("/g/setup.exe"));
    assert!(!is_installer("/g/install.txt"));
    assert!(!is_installer("/g/run.sh"));
}

#[test]
fn installers_keep_listing_order() {
    let children = vec![
        "/g/readme.txt".to_string(),
        "/g/install_part2.sh".to_string(),
        "/g/gog_part1.sh".to_string(),
    ];
    let found = rusteam::installers(&children);
    assert_eq!(
        found,
        vec!["/g/install_part2.sh".to_string(), "/g/gog_part1.sh".to_string()]
    );
}

#[test]
fn matching_is_case_insensitive() {
    assert!(rusteam::matches("DOOM 2016", "doom"));
    assert!(rusteam::matches("doom", "DOOM"));
    assert!(rusteam::matches("The Witcher 3", "witch"));
    assert!(!rusteam::matches("Portal", "doom"));
}

#[test]
fn empty_pattern_matches_everything() {
    assert!(rusteam::matches("anything", ""));
    assert!(rusteam::matches("", ""));
}

#[test]
fn join_patterns_with_spaces() {
    assert_eq!(join_with_spaces(&vec![]), "".to_string());
    assert_eq!(join_with_spaces(&vec!["half".to_string()]), "half".to_string());
    assert_eq!(
        join_with_spaces(&vec!["half".to_string(), "life".to_string()]),
        "half life".to_string()
    );
}
