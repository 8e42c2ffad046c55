use csgo_loader::processes::{clean_windows_path, is_running, is_running_command, terminate};

#[test]
fn taskkill_command_for_an_image() {
    let c = terminate("a.exe");
    assert_eq!(c.program, "taskkill.exe");
    assert_eq!(c.args, vec!["/IM", "a.exe", "/F", "/T"]);
    assert_eq!(c.creation_flags, 0x08000000);
}

#[test]
fn tasklist_command_filters_the_image() {
    let c = is_running_command("csgo.exe");
    assert_eq!(c.program, "tasklist.exe");
    assert_eq!(c.args, vec!["/FI", "IMAGENAME eq csgo.exe", "/NH"]);
}

#[test]
fn running_when_a_listing_line_names_the_image() {
    let listing = b"\r\n  CSGO.EXE                  1234 Console    1   50,000 K\r\n".to_vec();
    assert!(is_running("csgo.exe", Some(listing)));
    let none = b"INFO: No tasks are running which match the specified criteria.\r\n".to_vec();
    assert!(!is_running("csgo.exe", Some(none)));
    assert!(!is_running("csgo.exe", None));
    assert!(!is_running("csgo.exe", Some(Vec::new())));
}

#[test]
fn verbatim_prefixes_are_removed() {
    assert_eq!(clean_windows_path(r"\\?\UNC\server\share\x"), r"\\server\share\x");
    assert_eq!(clean_windows_path(r"\\?\C:\x"), r"C:\x");
    assert_eq!(clean_windows_path(r"C:\x"), r"C:\x");
}
