use vertebrae::config::{config_location, Config, WatchPath};
use vertebrae::path::FsPath;

fn text(p: &FsPath) -> String {
    String::from_utf8(p.as_bytes().clone()).unwrap()
}

fn config(watch: &[&str], backup: &str) -> Config {
    Config {
        watch_paths: watch
            .iter()
            .map(|w| WatchPath::new(FsPath::from_text(w), vec!["*.tmp".to_string()]))
            .collect(),
        backup_path: FsPath::from_text(backup),
        fs_refresh_timeout_secs: Config::default_fs_refresh_timeout_secs(),
    }
}

#[test]
fn the_default_timeout_is_a_minute() {
    assert_eq!(Config::default_fs_refresh_timeout_secs(), 60);
}

#[test]
fn the_first_watched_directory_counts() {
    let c = config(&["/home/me", "/home", "/srv"], "/b");
    let found = |p: &str| c.find_watch_path(&FsPath::from_text(p)).map(|w| text(w.path()));
    assert_eq!(found("/home/me/x"), Some("/home/me".to_string()));
    assert_eq!(found("/home/you/x"), Some("/home".to_string()));
    assert_eq!(found("/homely/x"), None);
    assert_eq!(found("/srv"), Some("/srv".to_string()));
    assert_eq!(found("srv"), None);
    let shadowed = config(&["/home", "/home/me"], "/b");
    let w = shadowed.find_watch_path(&FsPath::from_text("/home/me/x"));
    assert_eq!(text(w.unwrap().path()), "/home");
}

#[test]
fn a_copy_of_the_settings_is_equal() {
    let c = config(&["/home/me", "/srv"], "/b");
    assert_eq!(format!("{:?}", c.clone()), format!("{c:?}"));
}

#[test]
fn the_journal_lies_among_the_backups() {
    assert_eq!(text(&config(&[], "/b").journal_path()), "/b/.backdown.journal.json");
    assert_eq!(text(&config(&[], "/b/").journal_path()), "/b/.backdown.journal.json");
    assert_eq!(text(&config(&[], "").journal_path()), ".backdown.journal.json");
}

#[test]
fn the_settings_file_is_found_by_the_environment() {
    let some = |s: &str| Some(s.to_string());
    let at = |debug, x, h| text(&config_location(debug, x, h));
    assert_eq!(at(true, some("/x"), some("/h")), "./config.ron");
    assert_eq!(at(false, some("/x"), some("/h")), "/x/backdown/config.ron");
    assert_eq!(at(false, None, some("/h")), "/h/.config/backdown/config.ron");
    assert_eq!(at(false, None, None), "/etc/backdown/config.ron");
}
