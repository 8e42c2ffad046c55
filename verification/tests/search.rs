use csgo_loader::search::{CsgoSearch, InstallScan, SearchAction, SearchEvent};

fn s(v: &str) -> String {
    v.to_string()
}

fn probe_dir(a: &SearchAction) -> (String, String) {
    match a {
        SearchAction::Probe { dir, executable } => (dir.clone(), executable.clone()),
        _ => panic!("expected a probe"),
    }
}

#[test]
fn search_walks_every_stage_and_orders_the_final_round() {
    let mut search = CsgoSearch::new(None);
    assert!(matches!(search.step(SearchEvent::Begin), SearchAction::ExplicitPaths));
    let a = search.step(SearchEvent::Supplied(vec![s(r"D:\A")]));
    assert_eq!(probe_dir(&a), (s(r"D:\A"), s(r"D:\A\csgo.exe")));
    assert!(matches!(search.step(SearchEvent::Probed(false)), SearchAction::LibraryCandidates));
    let a = search.step(SearchEvent::Supplied(vec![
        s(r"E:\x"),
        s(r"E:\Counter-Strike Global Offensive"),
    ]));
    assert_eq!(probe_dir(&a).0, s(r"E:\x"));
    let a = search.step(SearchEvent::Probed(false));
    assert_eq!(probe_dir(&a).0, s(r"E:\Counter-Strike Global Offensive"));
    assert!(matches!(search.step(SearchEvent::Probed(false)), SearchAction::ScannedPaths));
    let a = search.step(SearchEvent::Supplied(vec![s(r"F:\csgo legacy"), s(r"d:\a\")]));
    assert_eq!(probe_dir(&a).0, s(r"E:\Counter-Strike Global Offensive"));
    let a = search.step(SearchEvent::Probed(false));
    assert_eq!(probe_dir(&a).0, s(r"F:\csgo legacy"));
    match search.step(SearchEvent::Probed(true)) {
        SearchAction::Found { dir, remember } => {
            assert_eq!(dir, s(r"F:\csgo legacy"));
            assert!(remember);
        }
        _ => panic!("expected the directory"),
    }
}

#[test]
fn search_uses_and_forgets_the_cache() {
    let mut search = CsgoSearch::new(Some(s("D:\\Old\\csgo.exe\n")));
    let a = search.step(SearchEvent::Begin);
    assert_eq!(probe_dir(&a).0, s(r"D:\Old"));
    match search.step(SearchEvent::Probed(true)) {
        SearchAction::Found { dir, remember } => {
            assert_eq!(dir, s(r"D:\Old"));
            assert!(!remember);
        }
        _ => panic!("expected the cached directory"),
    }

    let mut stale = CsgoSearch::new(Some(s("D:\\Old\n")));
    stale.step(SearchEvent::Begin);
    assert!(matches!(stale.step(SearchEvent::Probed(false)), SearchAction::ForgetCachedPath));
    assert!(matches!(stale.step(SearchEvent::CacheForgotten), SearchAction::ExplicitPaths));
}

#[test]
fn search_reports_how_many_locations_it_checked() {
    let mut search = CsgoSearch::new(None);
    search.step(SearchEvent::Begin);
    search.step(SearchEvent::Supplied(Vec::new()));
    search.step(SearchEvent::Supplied(Vec::new()));
    let a = search.step(SearchEvent::Supplied(vec![s(r"C:\a"), s(r"C:\b"), s(r"c:/a")]));
    assert_eq!(probe_dir(&a).0, s(r"C:\a"));
    search.step(SearchEvent::Probed(false));
    match search.step(SearchEvent::Probed(false)) {
        SearchAction::NotFound(message) => assert_eq!(
            message,
            "Could not find Counter-Strike Global Offensive/csgo.exe. Checked 2 likely locations."
        ),
        _ => panic!("expected failure"),
    }
}

#[test]
fn empty_search_fails_with_zero_locations() {
    let mut search = CsgoSearch::new(Some(s("# nothing\n")));
    assert!(matches!(search.step(SearchEvent::Begin), SearchAction::ExplicitPaths));
    search.step(SearchEvent::Supplied(Vec::new()));
    search.step(SearchEvent::Supplied(Vec::new()));
    match search.step(SearchEvent::Supplied(Vec::new())) {
        SearchAction::NotFound(message) => assert_eq!(
            message,
            "Could not find Counter-Strike Global Offensive/csgo.exe. Checked 0 likely locations."
        ),
        _ => panic!("expected failure"),
    }
}

#[test]
fn scan_descends_and_collects() {
    let mut scan = InstallScan::new();
    assert!(scan.may_continue(0));
    scan.start_root(s(r"C:\Games"), true);
    assert_eq!(scan.next_directory(0), Some(s(r"C:\Games")));
    assert!(scan.record_directory(false));
    scan.push_subdirectories(&vec![s(r"C:\Games\CSGO"), s(r"C:\Games\node_modules"), s(r"C:\Games\Other")]);
    assert_eq!(scan.next_directory(1), Some(s(r"C:\Games\Other")));
    assert!(scan.record_directory(false));
    scan.push_subdirectories(&Vec::new());
    assert_eq!(scan.next_directory(1), Some(s(r"C:\Games\CSGO")));
    assert!(!scan.record_directory(true));
    assert_eq!(scan.next_directory(2), None);
    assert_eq!(scan.candidates(), vec![s(r"C:\Games\CSGO")]);
}

#[test]
fn scan_stops_at_the_time_limit_and_skips_missing_roots() {
    let mut scan = InstallScan::new();
    scan.start_root(s(r"Q:\missing"), false);
    assert_eq!(scan.next_directory(0), None);
    scan.start_root(s(r"C:\Games"), true);
    assert_eq!(scan.next_directory(10), None);
    assert!(!scan.may_continue(10));
    assert!(scan.candidates().is_empty());
}

#[test]
fn scan_stops_descending_at_the_depth_limit() {
    let mut scan = InstallScan::new();
    scan.start_root(s("R"), true);
    let mut depth = 0;
    loop {
        let next = scan.next_directory(0);
        let Some(dir) = next else { break };
        if scan.record_directory(false) {
            scan.push_subdirectories(&vec![format!("{dir}\\d")]);
            depth += 1;
        }
    }
    assert_eq!(depth, 6);
}
