use steam_placeholder::fs::{ls, DirEntry, EntryKind, ListingFailed};
use steam_placeholder::platform::{Platform, PlatformProfile};
use steam_placeholder::scan::{
    find_game_bins, find_game_dir, find_steam_game_dirs, game_has_bins,
};

fn file(path: &str, mode: u32) -> DirEntry {
    DirEntry {
        path: path.to_string(),
        kind: EntryKind::File,
        symlink: false,
        mode: Some(mode),
        children: None,
    }
}

fn dir(path: &str, children: Vec<DirEntry>) -> DirEntry {
    DirEntry {
        path: path.to_string(),
        kind: EntryKind::Dir,
        symlink: false,
        mode: Some(0o755),
        children: Some(children),
    }
}

fn unlisted(path: &str) -> DirEntry {
    DirEntry {
        path: path.to_string(),
        kind: EntryKind::Dir,
        symlink: false,
        mode: Some(0o700),
        children: None,
    }
}

fn linux() -> PlatformProfile {
    PlatformProfile::new(Platform::Linux)
}

fn texts(items: &[&str]) -> Vec<String> {
    items.iter().map(|s| s.to_string()).collect()
}

fn game_a() -> DirEntry {
    dir(
        "/lib/GameA",
        vec![
            dir("/lib/GameA/bin", vec![file("/lib/GameA/bin/gamea.x86_64", 0o755)]),
            file("/lib/GameA/readme.txt", 0o644),
        ],
    )
}

fn five_binaries() -> DirEntry {
    dir(
        "/lib/Five",
        vec![
            file("/lib/Five/one.x86_64", 0o755),
            dir(
                "/lib/Five/bin",
                vec![file("/lib/Five/bin/two", 0o755), file("/lib/Five/bin/three", 0o755)],
            ),
            file("/lib/Five/notes.txt", 0o755),
            file("/lib/Five/four.exe", 0o755),
            dir("/lib/Five/deep", vec![dir("/lib/Five/deep/run", vec![file("/lib/Five/deep/run/five", 0o755)])]),
        ],
    )
}

#[test]
fn ls_gives_the_paths_in_listing_order() {
    assert_eq!(ls(&game_a()), Ok(texts(&["/lib/GameA/bin", "/lib/GameA/readme.txt"])));
    assert_eq!(ls(&dir("/empty", vec![])), Ok(Vec::new()));
}

#[test]
fn ls_fails_without_a_listing() {
    assert_eq!(ls(&unlisted("/locked")), Err(ListingFailed));
    assert_eq!(ls(&file("/lib/file", 0o755)), Err(ListingFailed));
}

#[test]
fn library_with_one_game_lists_it_and_its_binary() {
    let roots = vec![dir("/lib", vec![game_a()])];
    assert_eq!(find_steam_game_dirs(&roots, &linux()), texts(&["/lib/GameA"]));
    assert_eq!(
        find_game_bins(&game_a(), 10, &linux()),
        Ok(texts(&["/lib/GameA/bin/gamea.x86_64"]))
    );
}

#[test]
fn limit_of_one_gives_exactly_the_first_binary() {
    assert_eq!(find_game_bins(&five_binaries(), 1, &linux()), Ok(texts(&["/lib/Five/one.x86_64"])));
}

#[test]
fn binaries_come_in_depth_first_listing_order() {
    assert_eq!(
        find_game_bins(&five_binaries(), 999999999, &linux()),
        Ok(texts(&[
            "/lib/Five/one.x86_64",
            "/lib/Five/bin/two",
            "/lib/Five/bin/three",
            "/lib/Five/four.exe",
            "/lib/Five/deep/run/five",
        ]))
    );
}

#[test]
fn limit_cuts_the_walk_at_each_length() {
    let all = find_game_bins(&five_binaries(), usize::MAX, &linux()).unwrap();
    assert_eq!(all.len(), 5);
    for limit in 0..8 {
        let found = find_game_bins(&five_binaries(), limit, &linux()).unwrap();
        let expected: Vec<String> = all.iter().take(limit).cloned().collect();
        assert_eq!(found, expected, "limit {}", limit);
    }
}

#[test]
fn limit_of_zero_gives_nothing() {
    assert_eq!(find_game_bins(&five_binaries(), 0, &linux()), Ok(Vec::new()));
}

#[test]
fn unlisted_subdirectory_is_passed_over() {
    let game = dir(
        "/lib/Game",
        vec![
            unlisted("/lib/Game/locked"),
            dir("/lib/Game/bin", vec![file("/lib/Game/bin/start", 0o755)]),
        ],
    );
    assert_eq!(find_game_bins(&game, 10, &linux()), Ok(texts(&["/lib/Game/bin/start"])));
}

#[test]
fn unlisted_top_directory_fails() {
    assert_eq!(find_game_bins(&unlisted("/lib/Game"), 10, &linux()), Err(ListingFailed));
    assert_eq!(find_game_bins(&unlisted("/lib/Game"), 0, &linux()), Err(ListingFailed));
}

#[test]
fn empty_directory_has_no_binaries() {
    assert_eq!(find_game_bins(&dir("/lib/Game", vec![]), 10, &linux()), Ok(Vec::new()));
    assert!(!game_has_bins(&dir("/lib/Game", vec![]), &linux()));
}

#[test]
fn game_has_bins_looks_into_subdirectories() {
    assert!(game_has_bins(&game_a(), &linux()));
    assert!(game_has_bins(&five_binaries(), &linux()));
    assert!(!game_has_bins(&unlisted("/lib/Game"), &linux()));
    let only_text = dir("/lib/Docs", vec![dir("/lib/Docs/sub", vec![file("/lib/Docs/sub/a.txt", 0o644)])]);
    assert!(!game_has_bins(&only_text, &linux()));
}

#[test]
fn non_executable_files_are_not_found() {
    let game = dir("/lib/Game", vec![dir("/lib/Game/bin", vec![file("/lib/Game/bin/start", 0o644)])]);
    assert_eq!(find_game_bins(&game, 10, &linux()), Ok(Vec::new()));
}

#[test]
fn game_dirs_keep_only_directories_with_binaries() {
    let roots = vec![dir(
        "/lib",
        vec![
            game_a(),
            dir("/lib/Empty", vec![]),
            file("/lib/stray.x86_64", 0o755),
            unlisted("/lib/Locked"),
            five_binaries(),
        ],
    )];
    assert_eq!(find_steam_game_dirs(&roots, &linux()), texts(&["/lib/GameA", "/lib/Five"]));
}

#[test]
fn game_dirs_of_several_roots_are_concatenated() {
    let roots = vec![
        dir("/one", vec![dir("/one/B", vec![file("/one/B/b", 0o755)])]),
        unlisted("/gone"),
        dir("/two", vec![dir("/two/A", vec![file("/two/A/a", 0o755)]), dir("/two/B", vec![file("/two/B/b", 0o755)])]),
    ];
    assert_eq!(find_steam_game_dirs(&roots, &linux()), texts(&["/one/B", "/two/A", "/two/B"]));
}

#[test]
fn game_dirs_of_no_roots_are_none() {
    assert_eq!(find_steam_game_dirs(&Vec::new(), &linux()), Vec::<String>::new());
    assert_eq!(find_steam_game_dirs(&vec![unlisted("/gone")], &linux()), Vec::<String>::new());
}

#[test]
fn find_game_dir_matches_the_name_whatever_the_case() {
    let roots = vec![
        dir("/one", vec![dir("/one/Glitchball", vec![]), dir("/one/Other", vec![])]),
        dir("/two", vec![dir("/two/GLITCHBALL", vec![]), file("/two/glitchball", 0o755)]),
    ];
    assert_eq!(find_game_dir(&roots, "Glitchball"), texts(&["/one/Glitchball", "/two/GLITCHBALL"]));
    assert_eq!(find_game_dir(&roots, "glitchBALL"), texts(&["/one/Glitchball", "/two/GLITCHBALL"]));
    assert_eq!(find_game_dir(&roots, "other"), texts(&["/one/Other"]));
    assert_eq!(find_game_dir(&roots, "Glitch"), Vec::<String>::new());
}

#[test]
fn find_game_dir_does_not_look_at_contents_or_deeper() {
    let roots = vec![dir(
        "/one",
        vec![dir("/one/Wrap", vec![dir("/one/Wrap/Glitchball", vec![])]), unlisted("/one/Glitchball")],
    )];
    assert_eq!(find_game_dir(&roots, "Glitchball"), texts(&["/one/Glitchball"]));
}

#[test]
fn find_game_dir_passes_over_unlisted_roots() {
    let roots = vec![unlisted("/gone"), dir("/one", vec![dir("/one/Glitchball", vec![])])];
    assert_eq!(find_game_dir(&roots, "Glitchball"), texts(&["/one/Glitchball"]));
}
