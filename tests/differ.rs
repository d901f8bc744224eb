use patrol::differ::{check_diff, Answer};
use patrol::normalize::Normalizer;
use patrol::watcher::{check_file, check_listing};

fn pairs(v: &[Answer]) -> Vec<(String, bool)> {
    v.iter().map(|a| (a.text.clone(), a.removed)).collect()
}

fn has(v: &[Answer], text: &str, removed: bool) -> bool {
    v.iter().any(|a| a.text == text && a.removed == removed)
}

#[test]
fn passwd_gains_a_user() {
    let n = Normalizer::new().unwrap();
    let old = "root:x:0:0:root:/root:/bin/bash\n";
    let new = "root:x:0:0:root:/root:/bin/bash\nalice:x:1001:1001::/home/alice:/bin/bash\n";
    let r = check_diff(&n, old, new, "/etc/passwd", true);
    let expected = format!("{}{}", n.format_answer("alice:x:1001:1001::/home/alice:/bin/bash"), "/etc/passwd");
    assert_eq!(
        pairs(&r),
        vec![("alice/etc/passwd".to_string(), false), (expected, false)]
    );
}

#[test]
fn group_gains_a_member() {
    let n = Normalizer::new().unwrap();
    let r = check_diff(&n, "wheel:x:10:root\n", "wheel:x:10:root,alice\n", "/etc/group", true);
    assert!(has(&r, "wheel:root/etc/group", true));
    assert!(has(&r, "wheel:root/etc/group", false));
    assert!(has(&r, "wheel:alice/etc/group", false));
    assert!(has(&r, "wheel:x:10:root/etc/group", true));
    assert!(has(&r, "wheel:x:10:root,alice/etc/group", false));
    assert_eq!(r.len(), 5);
}

#[test]
fn identity_answers_only_where_enabled() {
    let n = Normalizer::new().unwrap();
    let r = check_diff(&n, "", "bob:x:1:1::/:/bin/sh\n", "/etc/passwd", false);
    assert_eq!(pairs(&r), vec![("bob:x:1:1::/:/bin/sh/etc/passwd".to_string(), false)]);
}

#[test]
fn short_group_line_has_no_members() {
    let n = Normalizer::new().unwrap();
    let r = check_diff(&n, "", "staff:x\n", "/etc/group", true);
    assert_eq!(pairs(&r), vec![("staff:x/etc/group".to_string(), false)]);
}

#[test]
fn deleted_file_reports_path_and_lines() {
    let n = Normalizer::new().unwrap();
    let p = check_file(&n, "/etc/hosts", true, "127.0.0.1 localhost\n\n::1 localhost\n", false, "", true);
    let t = p.transition.unwrap();
    assert_eq!((t.text.as_str(), t.removed), ("/etc/hosts", true));
    assert!(!p.store);
    assert_eq!(
        pairs(&p.answers),
        vec![
            ("127.0.0.1 localhost/etc/hosts".to_string(), true),
            ("::1 localhost/etc/hosts".to_string(), true)
        ]
    );
}

#[test]
fn new_file_reports_path_added() {
    let n = Normalizer::new().unwrap();
    let p = check_file(&n, "/etc/motd", false, "", true, "Hello\n", true);
    let t = p.transition.unwrap();
    assert_eq!((t.text.as_str(), t.removed), ("/etc/motd", false));
    assert!(p.store);
    assert_eq!(pairs(&p.answers), vec![("hello/etc/motd".to_string(), false)]);
}

#[test]
fn ssh_config_line_added() {
    let n = Normalizer::new().unwrap();
    let p = check_file(&n, "/etc/ssh/sshd_config", true, "Port 22\n", true, "Port 22\nPermitRootLogin   =  no\n", true);
    assert!(p.transition.is_none());
    assert_eq!(
        pairs(&p.answers),
        vec![("permitrootlogin=no/etc/ssh/sshd_config".to_string(), false)]
    );
}

#[test]
fn process_disappears() {
    let n = Normalizer::new().unwrap();
    let r = check_listing(&n, "systemd\nsshd\ncron\n", "systemd\ncron\n");
    assert_eq!(pairs(&r), vec![("sshd".to_string(), true)]);
}

#[test]
fn unchanged_file_is_quiet_on_second_tick() {
    let n = Normalizer::new().unwrap();
    let text = "a = 1\nb\n";
    let first = check_file(&n, "/etc/x", false, "", true, text, true);
    assert_eq!(first.answers.len(), 2);
    assert!(first.store);
    let second = check_file(&n, "/etc/x", true, text, true, text, true);
    assert!(second.answers.is_empty());
    assert!(second.transition.is_none());
}

#[test]
fn absent_file_is_quiet_on_second_tick() {
    let n = Normalizer::new().unwrap();
    let second = check_file(&n, "/etc/none", false, "", false, "", true);
    assert!(second.answers.is_empty());
    assert!(second.transition.is_none());
    assert!(!second.store);
}

#[test]
fn every_lost_line_is_answered() {
    let n = Normalizer::new().unwrap();
    let r = check_diff(&n, "a\nb\nc\n", "b\nd\n", "", false);
    assert!(has(&r, "a", true));
    assert!(has(&r, "c", true));
    assert!(has(&r, "d", false));
    assert!(!has(&r, "b", true));
    assert!(!has(&r, "b", false));
}

#[test]
fn crlf_and_last_line_without_newline() {
    let n = Normalizer::new().unwrap();
    let r = check_diff(&n, "", "x\r\ny", "", false);
    assert_eq!(pairs(&r), vec![("x".to_string(), false), ("y".to_string(), false)]);
}
