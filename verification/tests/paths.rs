use job_core::paths::{join, Paths};
use std::path::Path;

#[test]
fn the_layout_under_a_home_directory() {
    let paths = Paths::under("/home/alice");
    assert_eq!(paths.root(), "/home/alice/.job");
    assert_eq!(paths.database(), "/home/alice/.job/job.db");
    assert_eq!(paths.logs_dir(), "/home/alice/.job/logs");
    assert_eq!(paths.log_file("abc1"), "/home/alice/.job/logs/abc1.log");
    assert_eq!(paths.socket(), "/home/alice/.job/daemon.sock");
    assert_eq!(paths.pid_file(), "/home/alice/.job/daemon.pid");
    assert_eq!(paths.clone().root(), paths.root());
}

#[test]
fn the_layout_at_a_root() {
    let paths = Paths::at("/var/job/".to_string());
    assert_eq!(paths.root(), "/var/job/");
    assert_eq!(paths.database(), "/var/job/job.db");
    assert_eq!(paths.log_file("x"), "/var/job/logs/x.log");
}

#[test]
fn the_layout_of_the_current_user() {
    if let Some(paths) = Paths::new() {
        assert!(paths.root().ends_with(".job"));
        assert_eq!(paths.socket(), format!("{}/daemon.sock", paths.root()));
    }
}

#[test]
fn joining_is_what_std_does() {
    for (base, name) in [
        ("/home/alice", ".job"),
        ("/home/alice/", ".job"),
        ("", "logs"),
        ("/", "logs"),
        ("rel", "a.log"),
        ("/a/b", "/etc/passwd.log"),
        ("/a/b", ""),
        ("/a/b/", ""),
        ("/a//", "x"),
    ] {
        let expected = Path::new(base).join(name);
        assert_eq!(join(base, name), expected.to_str().unwrap(), "{base:?} {name:?}");
    }
}

#[test]
fn the_layout_follows_the_home_directory_that_was_found() {
    assert!(Paths::in_home(None).is_none());
    assert_eq!(Paths::in_home(Some("/home/bob")).unwrap().root(), "/home/bob/.job");
    assert_eq!(Paths::in_home(Some("/")).unwrap().root(), "/.job");
    assert_eq!(Paths::in_home(Some("")).unwrap().root(), ".job");
}
