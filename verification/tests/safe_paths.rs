use ascii_vault::path::is_safe_path;

#[test]
fn paths_under_home_are_accepted() {
    assert!(is_safe_path("/home/user/.config/ascii-vault/library.json"));
    assert!(is_safe_path("/home"));
    assert!(is_safe_path("/home/"));
    assert!(is_safe_path("/home/./x"));
}

#[test]
fn home_is_compared_by_whole_components() {
    assert!(!is_safe_path("/homes/x"));
    assert!(!is_safe_path("/homer"));
    assert!(!is_safe_path("/.home/x"));
    assert!(is_safe_path("//home/x"));
    assert!(is_safe_path("/./home/x"));
    assert!(is_safe_path("/.//./home"));
}

#[test]
fn paths_elsewhere_are_refused() {
    assert!(!is_safe_path("/etc/passwd"));
    assert!(!is_safe_path("home/user"));
    assert!(!is_safe_path("./home/user"));
    assert!(!is_safe_path(""));
    assert!(!is_safe_path("/"));
    assert!(!is_safe_path("/."));
}

#[test]
fn paths_with_dot_dot_are_refused() {
    assert!(!is_safe_path("/home/../etc/passwd"));
    assert!(!is_safe_path("/home/u/a..b"));
    assert!(!is_safe_path("/home/u/.."));
    assert!(is_safe_path("/home/u/.x./y"));
}
