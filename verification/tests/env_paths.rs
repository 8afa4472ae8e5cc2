use dsh_xlink::env::{compute_merged_path, merge_paths, merged_path, parse_reg_path};

#[test]
fn parse_reg_path_extracts_value() {
    let sample = "\
\r\nHKEY_CURRENT_USER\\Environment\r\n    Path    REG_SZ    C:\\Users\\zxx\\AppData\\Roaming\\npm;C:\\Program Files\\nodejs\r\n\r\n";
    assert_eq!(
        parse_reg_path(sample).as_deref(),
        Some("C:\\Users\\zxx\\AppData\\Roaming\\npm;C:\\Program Files\\nodejs"),
    );
}

#[test]
fn parse_reg_path_handles_expand_sz() {
    let sample = "\
HKEY_CURRENT_USER\\Environment
    Path    REG_EXPAND_SZ    %USERPROFILE%\\bin;C:\\Windows
";
    assert_eq!(
        parse_reg_path(sample).as_deref(),
        Some("%USERPROFILE%\\bin;C:\\Windows"),
    );
}

#[test]
fn parse_reg_path_rejects_empty_value() {
    let sample = "HKEY_CURRENT_USER\\Environment\n    Path    REG_SZ    \n";
    assert_eq!(parse_reg_path(sample), None);
}

#[test]
fn parse_reg_path_needs_a_line_with_a_type() {
    assert_eq!(parse_reg_path(""), None);
    assert_eq!(parse_reg_path("\n \n"), None);
    assert_eq!(parse_reg_path("Path"), None);
}

#[test]
fn merge_paths_user_wins_and_dedups() {
    let system = "C:\\Windows;C:\\Program Files\\nodejs";
    let user = "C:\\Users\\zxx\\AppData\\Roaming\\npm;c:\\program files\\nodejs";
    let merged = merge_paths(system, user);
    assert_eq!(
        merged,
        "C:\\Users\\zxx\\AppData\\Roaming\\npm;c:\\program files\\nodejs;C:\\Windows",
    );
}

#[test]
fn merge_paths_skips_empty_segments() {
    let merged = merge_paths(";;C:\\Windows;;", ";;C:\\Users\\bin;;");
    assert_eq!(merged, "C:\\Users\\bin;C:\\Windows");
}

#[test]
fn only_windows_merges() {
    assert_eq!(compute_merged_path("/usr/bin", Some("/opt/bin"), false), "/usr/bin");
    assert_eq!(compute_merged_path("A", Some("B"), true), "B;A");
    assert_eq!(compute_merged_path("A", Some(""), true), "A");
    assert_eq!(compute_merged_path("A", None, true), "A");
    assert_eq!(merged_path("A", Some("    Path    REG_SZ    B"), true), "B;A");
    assert_eq!(merged_path("A", Some("nothing"), true), "A");
}
