use steam_placeholder::library::{
    default_steam_dirs, find_steam_dirs, lookup_dir, lookup_manifest, manifest_paths, DirFact,
    HomeDirectoryUnknown, ManifestFact, Survey,
};
use steam_placeholder::platform::{Platform, PlatformProfile};
use steam_placeholder::vdf::{
    find_steam_dirs_extras, load_manifest, ConfigMalformed, VdfEntry, MAX_DEPTH,
};

const DEFAULT_ROOT: &str = "/home/u/.steam/steam/steamapps/common/";
const MANIFEST_IN_ROOT: &str = "/home/u/.steam/steam/steamapps/common/libraryfolders.vdf";
const MANIFEST_IN_PARENT: &str = "/home/u/.steam/steam/steamapps/libraryfolders.vdf";

fn texts(items: &[&str]) -> Vec<String> {
    items.iter().map(|s| s.to_string()).collect()
}

fn linux() -> PlatformProfile {
    PlatformProfile::new(Platform::Linux)
}

fn fact(path: &str, canonical: &str) -> DirFact {
    DirFact { path: path.to_string(), canonical: canonical.to_string() }
}

fn value(text: &str) -> VdfEntry {
    VdfEntry::Value(text.to_string())
}

fn table(pairs: Vec<(&str, VdfEntry)>) -> VdfEntry {
    VdfEntry::Table(pairs.into_iter().map(|(k, v)| (k.to_string(), v)).collect())
}

fn folders(pairs: Vec<(&str, VdfEntry)>) -> VdfEntry {
    table(vec![("LibraryFolders", table(pairs))])
}

fn sorted(mut v: Vec<String>) -> Vec<String> {
    v.sort();
    v
}

#[test]
fn default_roots_on_linux_lie_below_home() {
    assert_eq!(default_steam_dirs(&linux(), "/home/u"), texts(&[DEFAULT_ROOT]));
    assert_eq!(default_steam_dirs(&linux(), "/home/u/"), texts(&[DEFAULT_ROOT]));
}

#[test]
fn default_roots_on_macos_are_two() {
    assert_eq!(
        default_steam_dirs(&PlatformProfile::new(Platform::MacOs), "/Users/u"),
        texts(&[
            "/Users/u/.steam/steam/steamapps/common/",
            "/Users/u/Library/Application Support/Steam/steamapps/common/",
        ])
    );
}

#[test]
fn default_roots_on_windows_are_fixed() {
    assert_eq!(
        default_steam_dirs(&PlatformProfile::new(Platform::Windows), "/home/u"),
        texts(&[
            "C:\\Program Files (x86)\\Steam\\steamapps\\common\\",
            "C:\\Program Files\\Steam\\steamapps\\common\\",
        ])
    );
}

#[test]
fn manifest_lies_in_the_root_or_its_parent() {
    assert_eq!(manifest_paths(DEFAULT_ROOT), texts(&[MANIFEST_IN_ROOT, MANIFEST_IN_PARENT]));
    assert_eq!(manifest_paths("/games"), texts(&["/games/libraryfolders.vdf", "/libraryfolders.vdf"]));
}

#[test]
fn manifest_of_a_root_without_parent_lies_in_the_root_only() {
    assert_eq!(manifest_paths("/"), texts(&["/libraryfolders.vdf"]));
}

#[test]
fn lookup_dir_takes_the_first_fact_of_a_path() {
    let dirs = vec![fact("/a", "/real/a"), fact("/b", "/real/b"), fact("/a", "/other")];
    assert_eq!(lookup_dir(&dirs, "/a"), Some(&"/real/a".to_string()));
    assert_eq!(lookup_dir(&dirs, "/b"), Some(&"/real/b".to_string()));
    assert_eq!(lookup_dir(&dirs, "/c"), None);
    assert_eq!(lookup_dir(&dirs, "/a/"), None);
    assert_eq!(lookup_dir(&Vec::new(), "/a"), None);
}

#[test]
fn lookup_manifest_goes_by_the_path() {
    let manifests = vec![
        ManifestFact { path: "/x.vdf".to_string(), content: value("x") },
        ManifestFact { path: "/y.vdf".to_string(), content: value("y") },
    ];
    assert!(matches!(lookup_manifest(&manifests, "/x.vdf"), Some(VdfEntry::Value(v)) if v == "x"));
    assert!(matches!(lookup_manifest(&manifests, "/y.vdf"), Some(VdfEntry::Value(v)) if v == "y"));
    assert!(lookup_manifest(&manifests, "/z.vdf").is_none());
}

#[test]
fn unknown_home_directory_fails() {
    let survey = Survey { home: None, dirs: vec![fact(DEFAULT_ROOT, DEFAULT_ROOT)], manifests: vec![] };
    assert_eq!(find_steam_dirs(&linux(), &survey), Err(HomeDirectoryUnknown));
    assert_eq!(
        find_steam_dirs(&PlatformProfile::new(Platform::Windows), &survey),
        Err(HomeDirectoryUnknown)
    );
}

#[test]
fn without_manifest_the_existing_default_roots_are_returned() {
    let survey = Survey {
        home: Some("/home/u".to_string()),
        dirs: vec![fact(DEFAULT_ROOT, "/home/u/.local/share/Steam/steamapps/common")],
        manifests: vec![],
    };
    assert_eq!(
        find_steam_dirs(&linux(), &survey),
        Ok(texts(&["/home/u/.local/share/Steam/steamapps/common"]))
    );
}

#[test]
fn default_root_that_is_no_directory_is_left_out() {
    let survey = Survey {
        home: Some("/home/u".to_string()),
        dirs: vec![fact("/somewhere/else", "/somewhere/else")],
        manifests: vec![],
    };
    assert_eq!(find_steam_dirs(&linux(), &survey), Ok(Vec::new()));
}

#[test]
fn default_roots_with_one_canonical_path_count_once() {
    let survey = Survey {
        home: Some("/Users/u".to_string()),
        dirs: vec![
            fact("/Users/u/.steam/steam/steamapps/common/", "/Volumes/Games/common"),
            fact("/Users/u/Library/Application Support/Steam/steamapps/common/", "/Volumes/Games/common"),
        ],
        manifests: vec![],
    };
    assert_eq!(
        find_steam_dirs(&PlatformProfile::new(Platform::MacOs), &survey),
        Ok(texts(&["/Volumes/Games/common"]))
    );
}

#[test]
fn manifest_in_the_parent_adds_existing_folders() {
    let survey = Survey {
        home: Some("/home/u".to_string()),
        dirs: vec![
            fact(DEFAULT_ROOT, "/home/u/.steam/steam/steamapps/common"),
            fact("/mnt/games/steamapps/common/", "/mnt/games/steamapps/common"),
            fact("/data/steamapps/common/", "/data/steamapps/common"),
        ],
        manifests: vec![ManifestFact {
            path: MANIFEST_IN_PARENT.to_string(),
            content: folders(vec![
                ("TimeNextStatsReport", value("1555")),
                ("2", value("/mnt/games")),
                ("1", value("/data")),
                ("3", value("/not/there")),
            ]),
        }],
    };
    assert_eq!(
        find_steam_dirs(&linux(), &survey),
        Ok(texts(&[
            "/data/steamapps/common",
            "/home/u/.steam/steam/steamapps/common",
            "/mnt/games/steamapps/common",
        ]))
    );
}

#[test]
fn manifests_in_root_and_parent_are_both_read_and_merged() {
    let survey = Survey {
        home: Some("/home/u".to_string()),
        dirs: vec![
            fact(DEFAULT_ROOT, "/z/common"),
            fact("/a/steamapps/common/", "/a/steamapps/common"),
            fact("/b/steamapps/common/", "/b/steamapps/common"),
        ],
        manifests: vec![
            ManifestFact {
                path: MANIFEST_IN_ROOT.to_string(),
                content: folders(vec![("1", value("/b")), ("2", value("/a"))]),
            },
            ManifestFact {
                path: MANIFEST_IN_PARENT.to_string(),
                content: folders(vec![("1", value("/a"))]),
            },
        ],
    };
    assert_eq!(
        find_steam_dirs(&linux(), &survey),
        Ok(texts(&["/a/steamapps/common", "/b/steamapps/common", "/z/common"]))
    );
}

#[test]
fn manifest_near_a_missing_default_root_is_not_read() {
    let survey = Survey {
        home: Some("/home/u".to_string()),
        dirs: vec![fact("/a/steamapps/common/", "/a/steamapps/common")],
        manifests: vec![ManifestFact {
            path: MANIFEST_IN_PARENT.to_string(),
            content: folders(vec![("1", value("/a"))]),
        }],
    };
    assert_eq!(find_steam_dirs(&linux(), &survey), Ok(Vec::new()));
}

#[test]
fn manifest_without_folders_table_adds_nothing() {
    let survey = Survey {
        home: Some("/home/u".to_string()),
        dirs: vec![fact(DEFAULT_ROOT, "/z/common"), fact("/a/steamapps/common/", "/a")],
        manifests: vec![ManifestFact {
            path: MANIFEST_IN_PARENT.to_string(),
            content: table(vec![("Other", table(vec![("1", value("/a"))]))]),
        }],
    };
    assert_eq!(find_steam_dirs(&linux(), &survey), Ok(texts(&["/z/common"])));
}

#[test]
fn extras_come_from_digit_keys_only() {
    let manifest = folders(vec![
        ("1", value("/mnt/one")),
        ("2", value("/mnt/two")),
        ("notanumber", value("/mnt/three")),
    ]);
    assert_eq!(
        find_steam_dirs_extras(&manifest),
        Some(texts(&["/mnt/one/steamapps/common/", "/mnt/two/steamapps/common/"]))
    );
}

#[test]
fn extras_pass_over_keys_with_other_characters() {
    let manifest = folders(vec![
        ("1a", value("/a")),
        ("-1", value("/b")),
        ("1.0", value("/c")),
        (" 1", value("/d")),
        ("007", value("/e")),
        ("ContentStatsID", value("-12")),
    ]);
    assert_eq!(find_steam_dirs_extras(&manifest), Some(texts(&["/e/steamapps/common/"])));
}

#[test]
fn extras_take_texts_and_pass_over_groups() {
    let manifest = folders(vec![
        ("0", table(vec![("path", value("/nested"))])),
        ("1", VdfEntry::Statement("/stated".to_string())),
        ("2", VdfEntry::Array(vec![value("/x"), value("/y")])),
        ("3", value("/plain")),
    ]);
    assert_eq!(
        find_steam_dirs_extras(&manifest),
        Some(texts(&["/stated/steamapps/common/", "/plain/steamapps/common/"]))
    );
}

#[test]
fn extras_need_a_folders_table() {
    assert_eq!(find_steam_dirs_extras(&table(vec![])), None);
    assert_eq!(find_steam_dirs_extras(&table(vec![("LibraryFolders", value("x"))])), None);
    assert_eq!(find_steam_dirs_extras(&table(vec![("libraryfolders", table(vec![]))])), None);
    assert_eq!(find_steam_dirs_extras(&value("LibraryFolders")), None);
    assert_eq!(find_steam_dirs_extras(&VdfEntry::Array(vec![folders(vec![])])), None);
    assert_eq!(find_steam_dirs_extras(&folders(vec![])), Some(Vec::new()));
}

#[test]
fn entry_accessors_tell_the_variants_apart() {
    let t = table(vec![("a", value("1")), ("b", value("2")), ("a", value("3"))]);
    assert!(matches!(t.get("a"), Some(VdfEntry::Value(v)) if v == "1"));
    assert!(matches!(t.get("b"), Some(VdfEntry::Value(v)) if v == "2"));
    assert!(t.get("c").is_none());
    assert!(value("x").get("x").is_none());
    assert_eq!(t.as_table().map(|p| p.len()), Some(3));
    assert!(value("x").as_table().is_none());
    assert_eq!(value("x").as_str(), Some("x"));
    assert_eq!(VdfEntry::Statement("inc".to_string()).as_str(), Some("inc"));
    assert_eq!(t.as_str(), None);
    assert_eq!(VdfEntry::Array(vec![]).as_str(), None);
}

#[test]
fn parsed_manifest_yields_the_numbered_folders() {
    let text = b"\"LibraryFolders\"\n{\n\t\"TimeNextStatsReport\"\t\t\"1555000000\"\n\t\"ContentStatsID\"\t\t\"-4455\"\n\t\"1\"\t\t\"/mnt/games\"\n\t\"2\"\t\t\"/data/steam library\"\n\t\"notanumber\"\t\t\"/nope\"\n}\n";
    let manifest = load_manifest(text).expect("the manifest parses");
    let extras = find_steam_dirs_extras(&manifest).expect("the folders table is there");
    assert_eq!(
        sorted(extras),
        texts(&["/data/steam library/steamapps/common/", "/mnt/games/steamapps/common/"])
    );
}

#[test]
fn parsed_manifest_keeps_nested_groups_as_tables() {
    let text = b"\"LibraryFolders\"\n{\n\t\"0\"\n\t{\n\t\t\"path\"\t\"/mnt/new\"\n\t}\n\t\"1\"\t\"/mnt/old\"\n}\n";
    let manifest = load_manifest(text).expect("the manifest parses");
    let inner = manifest.get("LibraryFolders").expect("the table is there");
    assert!(matches!(inner.get("0"), Some(VdfEntry::Table(_))));
    assert_eq!(inner.get("0").and_then(|e| e.get("path")).and_then(|e| e.as_str()), Some("/mnt/new"));
    assert_eq!(find_steam_dirs_extras(&manifest), Some(texts(&["/mnt/old/steamapps/common/"])));
}

#[test]
fn parsed_manifest_turns_repeated_keys_into_an_array() {
    let manifest = load_manifest(b"\"k\" \"a\"\n\"k\" \"b\"\n#base \"x\"\n").expect("the text parses");
    assert!(matches!(manifest.get("k"), Some(VdfEntry::Array(items)) if items.len() == 2));
}

#[test]
fn parsed_manifest_takes_statements_for_texts() {
    let text = b"\"LibraryFolders\" { \"1\" \"/srv/games\" \"2\" \"#stated\" }";
    let manifest = load_manifest(text).expect("the text parses");
    assert_eq!(
        sorted(find_steam_dirs_extras(&manifest).unwrap()),
        texts(&["/srv/games/steamapps/common/", "stated/steamapps/common/"])
    );
    let inner = manifest.get("LibraryFolders").unwrap();
    assert!(matches!(inner.get("2"), Some(VdfEntry::Statement(s)) if s == "stated"));
}

#[test]
fn parsed_manifest_resolves_escaped_backslashes() {
    let text = b"\"LibraryFolders\" { \"1\" \"D:\\\\Games\" }";
    let manifest = load_manifest(text).expect("the text parses");
    let inner = manifest.get("LibraryFolders").unwrap();
    assert_eq!(inner.get("1").and_then(|e| e.as_str()), Some("D:\\Games"));
}

#[test]
fn empty_manifest_is_an_empty_table() {
    let manifest = load_manifest(b"").expect("the empty text parses");
    assert!(matches!(&manifest, VdfEntry::Table(pairs) if pairs.is_empty()));
    assert_eq!(find_steam_dirs_extras(&manifest), None);
}

#[test]
fn malformed_manifest_is_rejected() {
    assert_eq!(load_manifest(b"{").err(), Some(ConfigMalformed));
    assert_eq!(load_manifest(b"\"a\" }").err(), Some(ConfigMalformed));
    assert_eq!(load_manifest(b"\"a\" \"\xff\xfe\"").err(), Some(ConfigMalformed));
}

#[test]
fn manifest_that_nests_too_deep_is_rejected() {
    let mut text: Vec<u8> = Vec::new();
    for _ in 0..(MAX_DEPTH + 1) {
        text.extend_from_slice(b"\"k\" { ");
    }
    for _ in 0..(MAX_DEPTH + 1) {
        text.extend_from_slice(b"} ");
    }
    assert_eq!(load_manifest(&text).err(), Some(ConfigMalformed));
}

#[test]
fn manifest_with_many_groups_side_by_side_is_read() {
    let mut text: Vec<u8> = b"\"LibraryFolders\" { ".to_vec();
    for i in 0..1000 {
        text.extend_from_slice(format!("\"g{}\" {{ \"path\" \"/mnt/{}\" }} ", i, i).as_bytes());
    }
    text.extend_from_slice(b"\"7\" \"/mnt/seven\" } ");
    let manifest = load_manifest(&text).expect("the wide text parses");
    let inner = manifest.get("LibraryFolders").expect("the table is there");
    assert_eq!(inner.as_table().map(|pairs| pairs.len()), Some(1001));
    assert_eq!(
        inner.get("g999").and_then(|e| e.get("path")).and_then(|e| e.as_str()),
        Some("/mnt/999")
    );
    assert_eq!(find_steam_dirs_extras(&manifest), Some(texts(&["/mnt/seven/steamapps/common/"])));
}

#[test]
fn manifest_with_the_deepest_nesting_is_read() {
    let mut text: Vec<u8> = Vec::new();
    for _ in 0..MAX_DEPTH {
        text.extend_from_slice(b"\"k\" { ");
    }
    text.extend_from_slice(b"\"leaf\" \"value\" ");
    for _ in 0..MAX_DEPTH {
        text.extend_from_slice(b"} ");
    }
    let mut entry = &load_manifest(&text).expect("the nested text parses");
    let mut depth = 0;
    while let Some(inner) = entry.get("k") {
        entry = inner;
        depth += 1;
    }
    assert_eq!(depth, MAX_DEPTH);
    assert_eq!(entry.get("leaf").and_then(|e| e.as_str()), Some("value"));
}

#[test]
fn braces_inside_quoted_texts_do_not_count_as_nesting() {
    let mut text: Vec<u8> = b"\"a\" \"".to_vec();
    for _ in 0..(2 * MAX_DEPTH) {
        text.push(b'{');
    }
    text.extend_from_slice(b"\" ");
    let manifest = load_manifest(&text).expect("the text parses");
    assert_eq!(manifest.get("a").and_then(|e| e.as_str()).map(|s| s.len()), Some(2 * MAX_DEPTH));
}

#[test]
fn table_of_a_parsed_manifest_holds_each_name_once() {
    let text = b"\"LibraryFolders\" { \"1\" \"/a\" \"2\" \"/b\" \"1\" \"/c\" \"x\" \"/d\" }";
    let manifest = load_manifest(text).expect("the text parses");
    let pairs = manifest.get("LibraryFolders").and_then(|e| e.as_table()).expect("a table");
    let mut names: Vec<&str> = pairs.iter().map(|(k, _)| k.as_str()).collect();
    names.sort();
    assert_eq!(names, vec!["1", "2", "x"]);
    assert!(matches!(manifest.get("LibraryFolders").and_then(|e| e.get("1")), Some(VdfEntry::Array(_))));
    assert_eq!(find_steam_dirs_extras(&manifest), Some(texts(&["/b/steamapps/common/"])));
}

#[test]
fn manifest_that_ends_inside_a_group_is_rejected() {
    assert_eq!(load_manifest(b"\"a\" {").err(), Some(ConfigMalformed));
    assert_eq!(load_manifest(b"\"a\" { \"b\" \"c\"").err(), Some(ConfigMalformed));
    assert_eq!(load_manifest(b"\"a\" { \"b\" { \"c\" \"d\" }").err(), Some(ConfigMalformed));
    assert_eq!(
        load_manifest(b"\"LibraryFolders\"\n{\n\t\"1\"\t\"/mnt/games\"\n").err(),
        Some(ConfigMalformed)
    );
    assert_eq!(load_manifest(b"\"a\" { \"unfinished").err(), Some(ConfigMalformed));
}

#[test]
fn braces_inside_quoted_texts_open_no_group() {
    let manifest = load_manifest(b"\"a\" \"{\" \"b\" \"}{\"").expect("the text parses");
    assert_eq!(manifest.get("a").and_then(|e| e.as_str()), Some("{"));
    assert_eq!(manifest.get("b").and_then(|e| e.as_str()), Some("}{"));
    let nested = load_manifest(b"\"g\" { \"a\" \"{{{\" }").expect("the text parses");
    assert_eq!(nested.get("g").and_then(|e| e.get("a")).and_then(|e| e.as_str()), Some("{{{"));
}

#[test]
fn escaped_quote_does_not_end_a_quoted_text() {
    let manifest = load_manifest(b"\"g\" { \"a\" \"x\\\"}y\" }").expect("the text parses");
    assert_eq!(manifest.get("g").and_then(|e| e.get("a")).and_then(|e| e.as_str()), Some("x\"}y"));
}

#[test]
fn manifest_is_read_up_to_a_brace_that_closes_nothing() {
    let manifest = load_manifest(b"\"a\" \"b\" } \"c\" {").expect("the text parses");
    assert_eq!(manifest.get("a").and_then(|e| e.as_str()), Some("b"));
    assert!(manifest.get("c").is_none());
}

#[test]
fn loading_any_short_text_gives_an_answer() {
    let alphabet: [u8; 9] = [b'"', b'\\', b'{', b'}', b'#', b' ', b'a', b'n', 0xff];
    let mut accepted = 0usize;
    let mut rejected = 0usize;
    for len in 0..6usize {
        for code in 0..9usize.pow(len as u32) {
            let mut rest = code;
            let mut text = Vec::with_capacity(len);
            for _ in 0..len {
                text.push(alphabet[rest % 9]);
                rest /= 9;
            }
            match load_manifest(&text) {
                Ok(_) => accepted += 1,
                Err(ConfigMalformed) => rejected += 1,
            }
        }
    }
    assert_eq!(accepted + rejected, 1 + 9 + 81 + 729 + 6561 + 59049);
    assert!(accepted > 0);
    assert!(rejected > 0);
}

#[test]
fn loading_long_scrambled_texts_gives_an_answer() {
    let alphabet: [u8; 12] =
        [b'"', b'\\', b'{', b'}', b'#', b' ', b'\n', b'\t', b'a', b'n', b'1', 0xff];
    let mut state: u64 = 0x9e3779b97f4a7c15;
    let mut answers = 0usize;
    for _ in 0..20000 {
        let mut text = Vec::new();
        state ^= state << 13;
        state ^= state >> 7;
        state ^= state << 17;
        let len = (state % 300) as usize;
        for _ in 0..len {
            state ^= state << 13;
            state ^= state >> 7;
            state ^= state << 17;
            text.push(alphabet[(state % 12) as usize]);
        }
        if load_manifest(&text).is_ok() || load_manifest(&text).is_err() {
            answers += 1;
        }
    }
    assert_eq!(answers, 20000);
}

#[test]
fn name_borne_twice_stands_for_its_first_pair() {
    let manifest = folders(vec![
        ("1", value("/first")),
        ("2", value("/two")),
        ("1", value("/second")),
        ("3", table(vec![])),
        ("3", value("/late")),
    ]);
    assert_eq!(
        find_steam_dirs_extras(&manifest),
        Some(texts(&["/first/steamapps/common/", "/two/steamapps/common/"]))
    );
    let inner = manifest.get("LibraryFolders").unwrap();
    assert_eq!(inner.get("1").and_then(|e| e.as_str()), Some("/first"));
    assert!(matches!(inner.get("3"), Some(VdfEntry::Table(_))));
}
