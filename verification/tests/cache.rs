use omatide::cache::{absolute, catalog_path, chosen_dir, config_path, join};

#[test]
fn the_data_directory_follows_the_environment() {
    assert_eq!(chosen_dir(Some("/tmp/over"), Some("/tmp/xdg"), Some("/home/c")), "/tmp/over");
    assert_eq!(chosen_dir(None, Some("/tmp/xdg"), Some("/home/c")), "/tmp/xdg/omatide");
    // A relative XDG_DATA_HOME is not one, by the spec.
    assert_eq!(chosen_dir(None, Some("relative"), Some("/home/c")), "/home/c/.local/share/omatide");
    assert_eq!(chosen_dir(None, None, None), "./omatide");
}

#[test]
fn paths_join_as_pathbuf_joins_them() {
    assert_eq!(join("/a", "b"), "/a/b");
    assert_eq!(join("/a/", "b"), "/a/b");
    assert_eq!(join("", "b"), "b");
    assert_eq!(join("/a", "/b"), "/b");
    assert!(absolute("/x"));
    assert!(!absolute("x"));
    assert!(!absolute(""));
}

#[test]
fn the_catalog_lives_in_the_data_directory() {
    assert_eq!(catalog_path("/home/c/.local/share/omatide"), "/home/c/.local/share/omatide/stations.json");
}

#[test]
fn the_settings_follow_the_environment() {
    assert_eq!(config_path(Some("/etc/tide.toml"), Some("/x"), Some("/home/c")), "/etc/tide.toml");
    assert_eq!(config_path(None, Some("/x"), Some("/home/c")), "/x/omatide/config.toml");
    assert_eq!(config_path(None, Some("rel"), Some("/home/c")), "/home/c/.config/omatide/config.toml");
    assert_eq!(config_path(None, None, None), "/.config/omatide/config.toml");
}
