use bvchat::login::{check_login, contains_line, without_line, LoginCheck, LoginGate};

fn lines(v: &[&str]) -> Vec<String> {
    v.iter().map(|l| String::from(*l)).collect()
}

#[test]
fn ban_list_lookup() {
    let bans = lines(&["eve", "mallory"]);
    assert!(contains_line(&bans, "eve"));
    assert!(!contains_line(&bans, "ev"));
    assert!(!contains_line(&lines(&[]), "eve"));
}

#[test]
fn unban_removes_every_copy() {
    let bans = lines(&["eve", "bob", "eve", "mallory"]);
    assert_eq!(without_line(&bans, "eve"), lines(&["bob", "mallory"]));
    assert_eq!(without_line(&bans, "zed"), bans);
}

#[test]
fn credentials() {
    let stored = lines(&["alice", "pw1", "bob", "pw2", "alice", "pw3"]);
    assert_eq!(check_login(&stored, "bob", "pw2"), LoginCheck::Accepted);
    assert_eq!(check_login(&stored, "bob", "pw1"), LoginCheck::Rejected);
    // The later pair for a name wins.
    assert_eq!(check_login(&stored, "alice", "pw3"), LoginCheck::Accepted);
    assert_eq!(check_login(&stored, "alice", "pw1"), LoginCheck::Rejected);
    assert_eq!(check_login(&stored, "carol", "x"), LoginCheck::NewUser);
    // A name only appears in name position.
    assert_eq!(check_login(&stored, "pw1", "bob"), LoginCheck::NewUser);
    assert_eq!(check_login(&lines(&[]), "a", "b"), LoginCheck::NewUser);
}

#[test]
fn repeated_failures_lock_out() {
    let mut gate = LoginGate::new();
    let ip = String::from("10.0.0.1");
    assert!(gate.may_try(&ip));
    // The first failure only starts counting.
    gate.record_failure(ip.clone());
    assert!(gate.may_try(&ip));
    gate.record_failure(ip.clone());
    gate.record_failure(ip.clone());
    assert!(gate.may_try(&ip));
    gate.record_failure(ip.clone());
    // Three marked failures within thirty seconds.
    assert!(!gate.may_try(&ip));
    assert!(gate.may_try(&String::from("10.0.0.2")));
}

#[test]
fn new_user_can_log_in_again() {
    let mut stored = lines(&["alice", "pw1"]);
    assert_eq!(check_login(&stored, "bob", "secret"), LoginCheck::NewUser);
    stored.push(String::from("bob"));
    stored.push(String::from("secret"));
    assert_eq!(check_login(&stored, "bob", "secret"), LoginCheck::Accepted);
    assert_eq!(check_login(&stored, "bob", "guess"), LoginCheck::Rejected);
}

#[test]
fn ban_then_unban() {
    let mut bans = lines(&["eve"]);
    bans.push(String::from("bob"));
    assert!(contains_line(&bans, "bob"));
    let after = without_line(&bans, "bob");
    assert!(!contains_line(&after, "bob"));
    assert!(contains_line(&after, "eve"));
}

#[test]
fn list_file_keeps_line_ends() {
    let kept = without_line(&lines(&["a", "b", "c"]), "b");
    assert_eq!(bvchat::login::file_text(&kept), String::from("a\nc\n"));
    assert_eq!(bvchat::login::file_text(&lines(&[])), String::new());
}
