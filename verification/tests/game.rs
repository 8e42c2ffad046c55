use csgo_loader::game::{
    candidate_score, candidates_from_library, concat_lists, explicit_install_paths, libraries_dir,
    library_roots,
    library_folders_file, likely_steam_roots, looks_like_path, manifest_paths, normalize_candidate,
    order_candidates, parse_library_path, parse_manifest_install_dir, parse_vdf_key_value,
    path_key, push_candidate, push_unique, read_path_file, registry_install_paths,
    registry_string, scan_limit_reached, scan_roots, should_skip_directory, steam_env_variables,
    steam_install_paths, steam_library_roots, steam_registry_queries,
    uninstall_registry_queries, RegistryHive,
};

fn s(v: &str) -> String {
    v.to_string()
}

#[test]
fn parses_vdf_pairs() {
    assert_eq!(
        parse_vdf_key_value(r#""path"  "D:\\SteamLibrary""#),
        Some(("path".to_string(), r"D:\SteamLibrary".to_string()))
    );
}

#[test]
fn parses_numbered_legacy_library_paths() {
    assert_eq!(
        parse_library_path(r#""1"  "D:\\SteamLibrary""#),
        Some(r"D:\SteamLibrary".to_string())
    );
}

#[test]
fn normalizes_executable_path_to_directory() {
    assert_eq!(
        normalize_candidate(r"D:\Games\CSGO\csgo.exe".to_string()),
        r"D:\Games\CSGO".to_string()
    );
}

#[test]
fn vdf_line_without_two_quoted_strings_has_no_pair() {
    assert_eq!(parse_vdf_key_value(r#"  "0""#), None);
    assert_eq!(parse_vdf_key_value("{"), None);
    assert_eq!(
        parse_vdf_key_value(r#""a" "b" "c""#),
        Some(("a".to_string(), "b".to_string()))
    );
}

#[test]
fn path_keys_ignore_separator_kind_trailing_backslashes_and_case() {
    assert_eq!(path_key("C:/Games/CSGO/"), r"c:\games\csgo");
    assert_eq!(path_key(r"D:\Steam\\"), r"d:\steam");
}

#[test]
fn push_unique_skips_empty_and_same_key_paths() {
    let mut paths: Vec<String> = Vec::new();
    push_unique(&mut paths, s(r"C:\Games"));
    push_unique(&mut paths, s("c:/games/"));
    push_unique(&mut paths, s(""));
    push_unique(&mut paths, s(r"D:\Games"));
    assert_eq!(paths, vec![s(r"C:\Games"), s(r"D:\Games")]);
}

#[test]
fn push_candidate_normalizes_first() {
    let mut paths: Vec<String> = vec![s(r"D:\CSGO")];
    push_candidate(&mut paths, s(r"d:\csgo\CSGO.EXE"));
    assert_eq!(paths, vec![s(r"D:\CSGO")]);
    push_candidate(&mut paths, s(r"C:\csgo.exe"));
    assert_eq!(paths, vec![s(r"D:\CSGO"), s(r"C:\")]);
}

#[test]
fn normalize_keeps_other_paths() {
    assert_eq!(normalize_candidate(s(r"D:\Games\CSGO")), s(r"D:\Games\CSGO"));
    assert_eq!(normalize_candidate(s("csgo.exe")), s(""));
    assert_eq!(normalize_candidate(s(r"D:\x\csgo.exe\")), s(r"D:\x"));
    assert_eq!(normalize_candidate(s(r"D:\x\csgo.exe.bak")), s(r"D:\x\csgo.exe.bak"));
}

#[test]
fn recognizes_absolute_looking_values() {
    assert!(looks_like_path(r"  D:\Lib  "));
    assert!(looks_like_path("C:/Lib"));
    assert!(looks_like_path(r"\\server\share"));
    assert!(looks_like_path("/mnt/lib"));
    assert!(!looks_like_path("SteamLibrary"));
    assert!(!looks_like_path(""));
}

#[test]
fn library_lines_need_a_path_key_or_a_numbered_path() {
    assert_eq!(parse_library_path(r#""PATH" "E:\\\\Lib""#), Some(s(r"E:\\Lib")));
    assert_eq!(parse_library_path(r#""path" "E:\\Lib""#), Some(s(r"E:\Lib")));
    assert_eq!(parse_library_path(r#""label" "D:\\""#), None);
    assert_eq!(parse_library_path(r#""2" "notapath""#), None);
    assert_eq!(parse_library_path(r#""+3" "D:\\L""#), Some(s(r"D:\L")));
    assert_eq!(parse_library_path(r#""-3" "D:\\L""#), None);
    assert_eq!(parse_library_path(r#""+" "D:\\L""#), None);
    assert_eq!(parse_library_path(r#""4294967295" "D:\\L""#), Some(s(r"D:\L")));
    assert_eq!(parse_library_path(r#""4294967296" "D:\\L""#), None);
    assert_eq!(parse_library_path(r#""0004294967295" "/lib""#), Some(s("/lib")));
}

#[test]
fn manifest_gives_first_non_blank_install_dir() {
    let manifest = "\"AppState\"\r\n{\r\n\t\"appid\"\t\t\"730\"\r\n\t\"InstallDir\"\t\t\"  \"\r\n\t\"installdir\"\t\t\"Counter-Strike Global Offensive\"\r\n}\r\n";
    assert_eq!(
        parse_manifest_install_dir(manifest),
        Some(s("Counter-Strike Global Offensive"))
    );
    assert_eq!(parse_manifest_install_dir("\"appid\" \"730\"\n"), None);
    assert_eq!(parse_manifest_install_dir(""), None);
}

#[test]
fn path_file_gives_first_real_line() {
    let contents = "# where CS:GO lives\n\n   \"D:\\Games\\CSGO\\csgo.exe\"  \nE:\\Other\n";
    assert_eq!(read_path_file(contents), Some(s(r"D:\Games\CSGO")));
    assert_eq!(read_path_file("# only a comment\n   \n"), None);
    assert_eq!(read_path_file("\"\"\"E:\\X\"\""), Some(s(r"E:\X")));
}

#[test]
fn explicit_paths_from_variables_then_hint_files() {
    let env = vec![Some(s(r"D:\A")), None, Some(s("d:/a/"))];
    let hints = vec![Some(s("E:\\B\\csgo.exe\n")), None, Some(s("# nothing\n"))];
    assert_eq!(explicit_install_paths(&env, &hints), vec![s(r"D:\A"), s(r"E:\B")]);
}

#[test]
fn registry_values_are_trimmed_and_blank_ones_dropped() {
    assert_eq!(registry_string(Some(s("  C:\\Steam \t"))), Some(s(r"C:\Steam")));
    assert_eq!(registry_string(Some(s("   "))), None);
    assert_eq!(registry_string(None), None);
}

#[test]
fn steam_install_paths_merge_registry_environment_and_defaults() {
    let queries = steam_registry_queries();
    assert_eq!(queries.len(), 3);
    assert_eq!(queries[0].hive, RegistryHive::CurrentUser);
    assert_eq!(queries[0].key_path, r"Software\Valve\Steam");
    assert_eq!(queries[0].value_name, "SteamPath");
    assert_eq!(queries[1].key_path, r"SOFTWARE\WOW6432Node\Valve\Steam");
    assert_eq!(steam_env_variables().len(), 5);
    let registry = vec![Some(s(" c:/steam ")), None, Some(s(r"C:\Program Files (x86)\Steam"))];
    let env = vec![
        (s("STEAM"), None),
        (s("PROGRAMFILES(X86)"), Some(s(r"C:\Program Files (x86)"))),
        (s("PROGRAMFILES"), Some(s(r"C:\Program Files"))),
        (s("STEAM_HOME"), Some(s(r"E:\Steam"))),
    ];
    assert_eq!(
        steam_install_paths(&registry, &env),
        vec![
            s("c:/steam"),
            s(r"C:\Program Files (x86)\Steam"),
            s(r"C:\Program Files\Steam"),
            s(r"E:\Steam"),
        ]
    );
    assert_eq!(
        steam_install_paths(&Vec::new(), &Vec::new()),
        vec![
            s(r"C:\Steam"),
            s(r"C:\Program Files (x86)\Steam"),
            s(r"C:\Program Files\Steam"),
        ]
    );
}

#[test]
fn steam_library_roots_read_library_folders() {
    assert_eq!(
        library_folders_file(r"C:\Steam"),
        s(r"C:\Steam\steamapps\libraryfolders.vdf")
    );
    let vdf = "\"libraryfolders\"\n{\n\t\"0\"\n\t{\n\t\t\"path\"\t\t\"C:\\\\Steam\"\n\t}\n\t\"1\"\t\t\"D:\\\\SteamLibrary\"\n}\n";
    assert_eq!(
        steam_library_roots(r"C:\Steam", Some(s(vdf))),
        vec![s(r"C:\Steam"), s(r"D:\SteamLibrary")]
    );
    assert_eq!(steam_library_roots(r"C:\Steam", None), vec![s(r"C:\Steam")]);
}

#[test]
fn uninstall_entries_cover_both_app_ids() {
    let queries = uninstall_registry_queries();
    assert_eq!(queries.len(), 6);
    assert_eq!(queries[0].hive, RegistryHive::LocalMachine);
    assert_eq!(
        queries[0].key_path,
        r"SOFTWARE\Microsoft\Windows\CurrentVersion\Uninstall\Steam App 730"
    );
    assert_eq!(
        queries[4].key_path,
        r"SOFTWARE\WOW6432Node\Microsoft\Windows\CurrentVersion\Uninstall\Steam App 4465480"
    );
    assert_eq!(queries[5].hive, RegistryHive::CurrentUser);
    assert_eq!(queries[5].value_name, "InstallLocation");
    let values = vec![Some(s(r"D:\CSGO\csgo.exe")), None, Some(s(" d:\\csgo "))];
    assert_eq!(registry_install_paths(&values), vec![s(r"D:\CSGO")]);
}

#[test]
fn likely_roots_only_on_existing_drives() {
    let roots = likely_steam_roots(&vec!['E', 'D', 'A']);
    assert_eq!(
        roots,
        vec![
            s(r"D:\SteamLibrary"),
            s(r"D:\Steam"),
            s(r"D:\Games\SteamLibrary"),
            s(r"D:\Games\Steam"),
            s(r"D:\Program Files (x86)\Steam"),
            s(r"D:\Program Files\Steam"),
            s(r"E:\SteamLibrary"),
            s(r"E:\Steam"),
            s(r"E:\Games\SteamLibrary"),
            s(r"E:\Games\Steam"),
            s(r"E:\Program Files (x86)\Steam"),
            s(r"E:\Program Files\Steam"),
        ]
    );
    assert!(likely_steam_roots(&Vec::new()).is_empty());
}

#[test]
fn scan_roots_in_order() {
    let roots = scan_roots(
        &Some(s(r"C:\Work")),
        &Some(s(r"c:\work\")),
        &Some(s(r"C:\Users\me")),
        &vec![Some(s(r"C:\Program Files")), None],
        &vec!['C'],
    );
    assert_eq!(roots.len(), 20);
    assert_eq!(roots[0], s(r"C:\Work"));
    assert_eq!(roots[1], s(r"C:\Users\me\Desktop"));
    assert_eq!(roots[4], s(r"C:\Users\me\Games"));
    assert_eq!(roots[5], s(r"C:\Program Files"));
    assert_eq!(roots[6], s(r"C:\"));
    assert_eq!(roots[7], s(r"C:\Games"));
    assert_eq!(roots[19], s(r"C:\Program Files\Steam\steamapps\common"));
}

#[test]
fn skips_system_and_tool_directories() {
    assert!(should_skip_directory(r"C:\Windows"));
    assert!(should_skip_directory(r"D:\Games\.GIT"));
    assert!(should_skip_directory(r"D:\$Recycle.Bin\"));
    assert!(!should_skip_directory(r"D:\Games"));
    assert!(!should_skip_directory(r"C:\"));
}

#[test]
fn scan_limits() {
    assert!(scan_limit_reached(10, 0, 0));
    assert!(!scan_limit_reached(9, 9999, 23));
    assert!(scan_limit_reached(0, 10000, 0));
    assert!(scan_limit_reached(0, 0, 24));
}

#[test]
fn library_candidates_from_manifests() {
    assert_eq!(
        manifest_paths(r"D:\Lib"),
        vec![
            s(r"D:\Lib\steamapps\appmanifest_730.acf"),
            s(r"D:\Lib\steamapps\appmanifest_4465480.acf"),
        ]
    );
    let manifest = s("\"installdir\" \"csgo legacy\"\n");
    assert_eq!(
        candidates_from_library(r"D:\Lib", &vec![Some(manifest), None]),
        vec![
            s(r"D:\Lib\steamapps\common\Counter-Strike Global Offensive"),
            s(r"D:\Lib\steamapps\common\csgo legacy"),
        ]
    );
    let same = s("\"installdir\" \"counter-strike global offensive\"\n");
    assert_eq!(
        candidates_from_library(r"D:\Lib", &vec![Some(same)]),
        vec![s(r"D:\Lib\steamapps\common\Counter-Strike Global Offensive")]
    );
}

#[test]
fn scores_and_order() {
    assert_eq!(candidate_score(r"D:\X\Counter-Strike Global Offensive"), 0);
    assert_eq!(candidate_score(r"D:\counter-strike global offensive\game"), 1);
    assert_eq!(candidate_score(r"E:\CSGO Legacy"), 2);
    assert_eq!(candidate_score(r"E:\x"), 3);
    let ordered = order_candidates(&vec![
        s(r"E:\x"),
        s(r"E:\CSGO Legacy"),
        s(r"D:\Counter-Strike Global Offensive"),
        s(r"F:\y"),
    ]);
    assert_eq!(
        ordered,
        vec![
            s(r"D:\Counter-Strike Global Offensive"),
            s(r"E:\CSGO Legacy"),
            s(r"E:\x"),
            s(r"F:\y"),
        ]
    );
}

#[test]
fn libraries_live_under_nl_cloud() {
    assert_eq!(libraries_dir(r"D:\CSGO"), s(r"D:\CSGO\nl_cloud\scripts\libraries"));
    assert_eq!(libraries_dir(r"D:\CSGO\"), s(r"D:\CSGO\nl_cloud\scripts\libraries"));
}

#[test]
fn library_roots_are_merged_once_in_order() {
    let steam = vec![
        vec![s(r"C:\Steam"), s(r"D:\Lib")],
        vec![s(r"c:/steam\"), s(r"E:\Lib")],
    ];
    let likely = vec![s(r"D:\LIB"), s(r"F:\SteamLibrary")];
    assert_eq!(
        library_roots(&steam, &likely),
        vec![s(r"C:\Steam"), s(r"D:\Lib"), s(r"E:\Lib"), s(r"F:\SteamLibrary")]
    );
    assert!(library_roots(&vec![], &vec![]).is_empty());
    assert_eq!(
        concat_lists(&vec![vec![s("a"), s("b")], vec![], vec![s("a")]]),
        vec![s("a"), s("b"), s("a")]
    );
}

#[test]
fn a_remembered_directory_reads_back() {
    let dir = r"D:\Games\Counter-Strike Global Offensive";
    assert_eq!(read_path_file(dir), Some(s(dir)));
    assert_eq!(read_path_file(r"\\nas\steam\csgo"), Some(s(r"\\nas\steam\csgo")));
}

#[test]
fn ascii_paths_are_lowered_letter_for_letter() {
    assert_eq!(path_key("D:/Games/CSGO/"), r"d:\games\csgo");
    assert_eq!(candidate_score("D:/Games/CSGO"), 3);
}
