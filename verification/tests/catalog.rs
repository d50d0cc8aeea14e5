use rusteam::filesystem::DirListing;
use rusteam::game::{Game, Platform};
use rusteam::{choose_launcher, find_game, ignore, list_games, scan, Error};

fn dir(path: &str, children: &[&str]) -> DirListing {
    DirListing {
        path: path.to_string(),
        children: children.iter().map(|c| c.to_string()).collect(),
    }
}

#[test]
fn single_native_launcher_named_like_directory() {
    let g = Game::from_path(
        "/games/Portal".to_string(),
        &vec!["/games/Portal/Portal.sh".to_string()],
    );
    assert_eq!(g.name, Some("Portal".to_string()));
    assert_eq!(g.platform, Some(Platform::Native));
    assert_eq!(g.launchers, vec!["/games/Portal/Portal.sh".to_string()]);
    assert_eq!(g.directory, "/games/Portal".to_string());
    assert!(g.genres.is_empty());
}

#[test]
fn mixed_platforms_give_none() {
    let g = Game::from_path(
        "/games/Mixed".to_string(),
        &vec![
            "/games/Mixed/a.sh".to_string(),
            "/games/Mixed/b.exe".to_string(),
        ],
    );
    assert_eq!(g.platform, None);
    assert_eq!(g.launchers.len(), 2);
}

#[test]
fn no_qualifying_children_give_empty_game() {
    let g = Game::from_path(
        "/games/Empty".to_string(),
        &vec![
            "/games/Empty/readme.txt".to_string(),
            "/games/Empty/uninstall.sh".to_string(),
        ],
    );
    assert!(g.launchers.is_empty());
    assert_eq!(g.platform, None);
}

#[test]
fn uninstall_script_is_excluded() {
    let g = Game::from_path(
        "/games/GOG_Witcher3".to_string(),
        &vec![
            "/games/GOG_Witcher3/gog_witcher3.sh".to_string(),
            "/games/GOG_Witcher3/uninstall.sh".to_string(),
        ],
    );
    assert_eq!(
        g.launchers,
        vec!["/games/GOG_Witcher3/gog_witcher3.sh".to_string()]
    );
    assert_eq!(g.platform, Some(Platform::Native));
}

#[test]
fn ignore_marker_is_detected() {
    assert!(ignore(&vec![
        "/games/Hidden/run.sh".to_string(),
        "/games/Hidden/.rusteam-ignore".to_string(),
    ]));
    assert!(!ignore(&vec!["/games/Shown/run.sh".to_string()]));
}

#[test]
fn ignored_directory_is_excluded_from_scan() {
    let dirs = vec![
        dir("/games/Portal", &["/games/Portal/Portal.sh"]),
        dir(
            "/games/HiddenGame",
            &["/games/HiddenGame/.rusteam-ignore", "/games/HiddenGame/run.sh"],
        ),
    ];
    let games = scan(dirs);
    assert_eq!(games.len(), 1);
    assert_eq!(games[0].name, Some("Portal".to_string()));
    assert_eq!(games[0].platform, Some(Platform::Native));
    assert_eq!(games[0].launchers, vec!["/games/Portal/Portal.sh".to_string()]);
}

fn sample_root() -> Vec<DirListing> {
    vec![
        dir("/games/DOOM 2016", &["/games/DOOM 2016/DOOM.exe"]),
        dir("/games/Beta", &["/games/Beta/Beta.sh"]),
        dir("/games/Alpha", &["/games/Alpha/Alpha.sh"]),
        // A path with no final component: the game gets no name.
        dir("/games/..", &["/games/run.sh"]),
    ]
}

#[test]
fn list_games_returns_named_games_sorted() {
    let games = list_games(sample_root(), "");
    let names: Vec<Option<String>> = games.iter().map(|g| g.name.clone()).collect();
    assert_eq!(
        names,
        vec![
            Some("Alpha".to_string()),
            Some("Beta".to_string()),
            Some("DOOM 2016".to_string()),
        ]
    );
}

#[test]
fn list_games_is_idempotent() {
    let first = list_games(sample_root(), "");
    let second = list_games(sample_root(), "");
    assert_eq!(first.len(), second.len());
    for (a, b) in first.iter().zip(second.iter()) {
        assert_eq!(a.name, b.name);
        assert_eq!(a.platform, b.platform);
        assert_eq!(a.directory, b.directory);
        assert_eq!(a.launchers, b.launchers);
    }
}

#[test]
fn list_games_filters_case_insensitively() {
    let games = list_games(sample_root(), "doom");
    assert_eq!(games.len(), 1);
    assert_eq!(games[0].name, Some("DOOM 2016".to_string()));
    assert_eq!(games[0].platform, Some(Platform::Wine));
}

#[test]
fn list_games_excludes_unnamed_games() {
    let all = scan(sample_root());
    assert_eq!(all.len(), 4);
    let listed = list_games(sample_root(), "");
    assert_eq!(listed.len(), 3);
    assert!(listed.iter().all(|g| g.name.is_some()));
}

#[test]
fn find_game_picks_the_first_sorted_match() {
    let g = find_game(sample_root(), "").expect("a game should match");
    assert_eq!(g.name, Some("Alpha".to_string()));
}

#[test]
fn find_game_reports_game_not_found() {
    let r = find_game(sample_root(), "zzz-nonexistent");
    assert!(matches!(r, Err(Error::GameNotFound { .. })));
    if let Err(Error::GameNotFound { pattern }) = r {
        assert_eq!(pattern, "zzz-nonexistent".to_string());
    }
}

#[test]
fn choose_launcher_returns_the_first() {
    let g = Game::from_path(
        "/games/Two".to_string(),
        &vec!["/games/Two/a.sh".to_string(), "/games/Two/b.sh".to_string()],
    );
    let l = choose_launcher(&g).expect("a launcher exists");
    assert_eq!(l, "/games/Two/a.sh".to_string());
}

#[test]
fn choose_launcher_reports_launcher_not_found() {
    let g = Game::from_path("/games/Empty".to_string(), &vec![]);
    let r = choose_launcher(&g);
    assert!(matches!(r, Err(Error::LauncherNotFound { .. })));
    if let Err(Error::LauncherNotFound { game }) = r {
        assert_eq!(game, "Empty".to_string());
    }
}

#[test]
fn choose_launcher_names_the_nameless() {
    let g = Game::from_path("/".to_string(), &vec![]);
    let r = choose_launcher(&g);
    if let Err(Error::LauncherNotFound { game }) = r {
        assert_eq!(game, "a game with no name".to_string());
    } else {
        panic!("expected LauncherNotFound");
    }
}

#[test]
fn sort_breaks_name_ties_by_platform_then_directory() {
    let dirs = vec![
        dir("/b/Same", &["/b/Same/run.exe"]),
        dir("/a/Same", &["/a/Same/run.sh"]),
    ];
    let games = list_games(dirs, "");
    assert_eq!(games.len(), 2);
    // Native sorts before Wine on equal names.
    assert_eq!(games[0].platform, Some(Platform::Native));
    assert_eq!(games[0].directory, "/a/Same".to_string());
    assert_eq!(games[1].platform, Some(Platform::Wine));
}

#[test]
fn marker_must_match_exactly() {
    // A name that merely ends in the marker text does not hide the game.
    assert!(!ignore(&vec!["/g/x.rusteam-ignore".to_string()]));
    assert!(!ignore(&vec!["/g/rusteam-ignore".to_string()]));
}

#[test]
fn uninstaller_named_directory_keeps_no_launcher() {
    // The same-basename file is itself an uninstaller here, so nothing
    // qualifies and no platform is inferred.
    let g = Game::from_path(
        "/games/uninstall".to_string(),
        &vec!["/games/uninstall/uninstall.sh".to_string()],
    );
    assert!(g.launchers.is_empty());
    assert_eq!(g.platform, None);
}

#[test]
fn x86_binaries_are_native() {
    let g = Game::from_path(
        "/games/Old".to_string(),
        &vec![
            "/games/Old/start.x86".to_string(),
            "/games/Old/start.x86_64".to_string(),
        ],
    );
    assert_eq!(g.platform, Some(Platform::Native));
    assert_eq!(g.launchers.len(), 2);
}

#[test]
fn wine_only_game_is_wine() {
    let g = Game::from_path(
        "/games/Win".to_string(),
        &vec!["/games/Win/setup_notreally.exe".to_string()],
    );
    assert_eq!(g.platform, Some(Platform::Wine));
}

#[test]
fn same_named_file_without_extension_keeps_platform_unknown() {
    let g = Game::from_path(
        "/games/Portal".to_string(),
        &vec!["/games/Portal/Portal".to_string()],
    );
    assert_eq!(g.launchers, vec!["/games/Portal/Portal".to_string()]);
    assert_eq!(g.platform, None);
}
