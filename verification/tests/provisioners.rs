use reginstall::PackageList;
use reginstall::User;
use reginstall::build_pkg_args;
use reginstall::build_useradd_args;

#[test]
fn useradd_full_record() {
    let u = User {
        shell: Some("zsh".to_string()),
        comment: Some("Alice Example".to_string()),
        groups: Some(vec!["wheel".to_string(), "docker".to_string()]),
    };
    let args = build_useradd_args("alice", &u);
    assert_eq!(
        args,
        vec!["--shell", "/usr/bin/zsh", "-c", "Alice Example", "--groups", "wheel,docker", "alice"]
    );
}

#[test]
fn useradd_empty_record() {
    let u = User { shell: None, comment: None, groups: None };
    let args = build_useradd_args("bob", &u);
    assert_eq!(args, vec!["bob"]);
}

#[test]
fn useradd_shell_only() {
    let u = User { shell: Some("fish".to_string()), comment: None, groups: None };
    let args = build_useradd_args("carol", &u);
    assert_eq!(args, vec!["--shell", "/usr/bin/fish", "carol"]);
}

#[test]
fn useradd_single_group_has_no_comma() {
    let u = User { shell: None, comment: None, groups: Some(vec!["wheel".to_string()]) };
    let args = build_useradd_args("dave", &u);
    assert_eq!(args, vec!["--groups", "wheel", "dave"]);
}

#[test]
fn useradd_groups_keep_order_and_duplicates() {
    let u = User {
        shell: None,
        comment: None,
        groups: Some(vec!["b".to_string(), "a".to_string(), "b".to_string()]),
    };
    let args = build_useradd_args("erin", &u);
    assert_eq!(args, vec!["--groups", "b,a,b", "erin"]);
}

#[test]
fn pkg_flags_and_list() {
    let p = PackageList {
        flags: Some("-S --noconfirm".to_string()),
        pkglist: Some(vec!["git".to_string(), "vim".to_string()]),
    };
    assert_eq!(build_pkg_args(&p), vec!["-S", "--noconfirm", "git", "vim"]);
}

#[test]
fn pkg_flags_only() {
    let p = PackageList { flags: Some("install -y".to_string()), pkglist: None };
    assert_eq!(build_pkg_args(&p), vec!["install", "-y"]);
}

#[test]
fn pkg_empty_record() {
    let p = PackageList { flags: None, pkglist: None };
    assert_eq!(build_pkg_args(&p), Vec::<String>::new());
}

#[test]
fn pkg_consecutive_spaces_keep_empty_tokens() {
    let p = PackageList { flags: Some("install  -y".to_string()), pkglist: None };
    assert_eq!(build_pkg_args(&p), vec!["install", "", "-y"]);
}

#[test]
fn pkg_empty_flag_string_is_one_empty_token() {
    let p = PackageList { flags: Some(String::new()), pkglist: Some(vec!["git".to_string()]) };
    assert_eq!(build_pkg_args(&p), vec!["", "git"]);
}

#[test]
fn pkg_list_only() {
    let p = PackageList { flags: None, pkglist: Some(vec!["git".to_string()]) };
    assert_eq!(build_pkg_args(&p), vec!["git"]);
}
