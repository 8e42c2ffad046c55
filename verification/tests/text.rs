use csgo_loader::text::{chars_of, split_at_char, split_lines, trimmed, trimmed_char};
use csgo_loader::winpath::{file_name_of, join_path, parent_of, paths_equal};

fn v(s: &str) -> Vec<char> {
    s.chars().collect()
}

#[test]
fn lines_drop_the_crlf_and_no_trailing_empty_line() {
    assert_eq!(split_lines(&v("a\r\nb\n\nc\r")), vec![v("a"), v("b"), v(""), v("c\r")]);
    assert_eq!(split_lines(&v("a\n")), vec![v("a")]);
    assert!(split_lines(&v("")).is_empty());
}

#[test]
fn trimming_uses_unicode_whitespace() {
    assert_eq!(trimmed(&v("\u{3000} a b\t\u{a0}")), v("a b"));
    assert_eq!(trimmed_char(&v("\"\"x\"y\""), '"'), v("x\"y"));
}

#[test]
fn splitting_keeps_empty_pieces() {
    assert_eq!(split_at_char(&v("\"a\""), '"'), vec![v(""), v("a"), v("")]);
    assert_eq!(split_at_char(&v(""), '"'), vec![v("")]);
    assert_eq!(chars_of("Ж1"), vec!['Ж', '1']);
}

#[test]
fn windows_path_joining_and_equality() {
    assert_eq!(join_path(r"C:\a", "b"), r"C:\a\b");
    assert_eq!(join_path(r"C:\a\", "b"), r"C:\a\b");
    assert_eq!(join_path("C:", "b"), "C:b");
    assert_eq!(join_path(r"C:\a", r"D:\b"), r"D:\b");
    assert_eq!(join_path(r"C:\a", r"\b"), r"C:\b");
    assert_eq!(join_path("", "b"), "b");
    assert!(paths_equal(r"c:\a\.\b\", "C:/a/b"));
    assert!(!paths_equal(r"C:\a", r"C:\A"));
    assert!(!paths_equal(r"C:\a", r"C:a"));
}

#[test]
fn unc_and_device_prefixes() {
    assert_eq!(join_path(r"\\server\share", "dir"), r"\\server\share\dir");
    assert_eq!(join_path(r"\\server\share\a", r"\x"), r"\\server\share\x");
    assert_eq!(join_path(r"C:\a", r"\\server\share"), r"\\server\share");
    assert_eq!(file_name_of(&v(r"\\server\share")), None);
    assert_eq!(file_name_of(&v(r"\\server\share\")), None);
    assert_eq!(file_name_of(&v(r"\\server\share\a")), Some(v("a")));
    assert_eq!(parent_of(&v(r"\\server\share")), None);
    assert_eq!(parent_of(&v(r"\\server\share\a")), Some(v(r"\\server\share\")));
    assert!(paths_equal(r"\\server\share\a", "//server/share/a"));
    assert!(paths_equal(r"\\server\share", r"\\server\share\"));
    assert!(!paths_equal(r"\\server\share", r"\\server\other"));
    assert_eq!(file_name_of(&v(r"\\.\COM1")), None);
    // Without a share there is no UNC prefix: a root and a component.
    assert_eq!(file_name_of(&v(r"\\server")), Some(v("server")));
    assert_eq!(parent_of(&v(r"\\server")), Some(v(r"\")));
}

#[test]
fn verbatim_prefixes() {
    assert_eq!(join_path(r"\\?\C:\a", r"b\..\c"), r"\\?\C:\a\c");
    assert_eq!(join_path(r"\\?\C:\a", r".\b"), r"\\?\C:\a\b");
    assert_eq!(join_path(r"\\?\C:\a", r"\x"), r"\\?\C:\x");
    assert_eq!(join_path(r"\\?\C:\a", "b/c"), r"\\?\C:\a\b\c");
    assert_eq!(file_name_of(&v(r"\\?\C:\a\.")), None);
    assert_eq!(parent_of(&v(r"\\?\C:\a\.")), Some(v(r"\\?\C:\a")));
    assert_eq!(file_name_of(&v(r"\\?\C:\a/b")), Some(v("a/b")));
    assert_eq!(parent_of(&v(r"\\?\UNC\server\share\a")), Some(v(r"\\?\UNC\server\share\")));
    assert!(!paths_equal(r"\\?\C:\a", r"C:\a"));
    assert!(paths_equal(r"\\?\c:\a", r"\\?\C:\a"));
}
