use reginstall::Config;
use reginstall::PackageList;
use reginstall::User;
use reginstall::encode_config;

fn sample_config() -> Config {
    Config {
        users: Some(vec![
            (
                "alice".to_string(),
                User {
                    shell: Some("zsh".to_string()),
                    comment: Some("Alice Example".to_string()),
                    groups: Some(vec!["wheel".to_string(), "docker".to_string()]),
                },
            ),
            ("bob".to_string(), User { shell: None, comment: None, groups: None }),
        ]),
        packages: Some(vec![
            (
                "pacman".to_string(),
                PackageList {
                    flags: Some("-S --noconfirm".to_string()),
                    pkglist: Some(vec!["git".to_string(), "vim".to_string()]),
                },
            ),
            ("apt".to_string(), PackageList { flags: Some("install -y".to_string()), pkglist: None }),
        ]),
    }
}

#[test]
fn encoded_config_is_valid_toml_with_the_same_fields() {
    let text = encode_config(&sample_config());
    let v: toml::Value = toml::from_str(&text).unwrap();
    let users = v.get("users").unwrap().as_table().unwrap();
    assert_eq!(users.len(), 2);
    let alice = users.get("alice").unwrap().as_table().unwrap();
    assert_eq!(alice.get("shell").unwrap().as_str().unwrap(), "zsh");
    assert_eq!(alice.get("comment").unwrap().as_str().unwrap(), "Alice Example");
    let groups: Vec<&str> = alice
        .get("groups")
        .unwrap()
        .as_array()
        .unwrap()
        .iter()
        .map(|g| g.as_str().unwrap())
        .collect();
    assert_eq!(groups, vec!["wheel", "docker"]);
    let bob = users.get("bob").unwrap().as_table().unwrap();
    assert!(bob.is_empty());
    let packages = v.get("packages").unwrap().as_table().unwrap();
    let pacman = packages.get("pacman").unwrap().as_table().unwrap();
    assert_eq!(pacman.get("flags").unwrap().as_str().unwrap(), "-S --noconfirm");
    let pkgs: Vec<&str> = pacman
        .get("pkglist")
        .unwrap()
        .as_array()
        .unwrap()
        .iter()
        .map(|p| p.as_str().unwrap())
        .collect();
    assert_eq!(pkgs, vec!["git", "vim"]);
    let apt = packages.get("apt").unwrap().as_table().unwrap();
    assert_eq!(apt.get("flags").unwrap().as_str().unwrap(), "install -y");
    assert!(apt.get("pkglist").is_none());
}

#[test]
fn decoded_document_re_encodes_to_an_equivalent_document() {
    let input = "[users.alice]\n\
        shell = \"zsh\"\n\
        comment = \"says \\\"hi\\\"\\n\"\n\
        groups = [\"wheel\", \"docker\"]\n\
        [users.bob]\n\
        [packages.pacman]\n\
        flags = \"-S --noconfirm\"\n\
        pkglist = [\"git\", \"vim\"]\n";
    let first: toml::Value = toml::from_str(input).unwrap();
    // The decoded model of that document, written out by hand.
    let c = Config {
        users: Some(vec![
            (
                "alice".to_string(),
                User {
                    shell: Some("zsh".to_string()),
                    comment: Some("says \"hi\"\n".to_string()),
                    groups: Some(vec!["wheel".to_string(), "docker".to_string()]),
                },
            ),
            ("bob".to_string(), User { shell: None, comment: None, groups: None }),
        ]),
        packages: Some(vec![(
            "pacman".to_string(),
            PackageList {
                flags: Some("-S --noconfirm".to_string()),
                pkglist: Some(vec!["git".to_string(), "vim".to_string()]),
            },
        )]),
    };
    let second: toml::Value = toml::from_str(&encode_config(&c)).unwrap();
    assert_eq!(first, second);
}

#[test]
fn escapes_survive_the_round_trip() {
    let c = Config {
        users: Some(vec![(
            "eve".to_string(),
            User {
                shell: None,
                comment: Some("tab\there \"quoted\" back\\slash\r\n".to_string()),
                groups: None,
            },
        )]),
        packages: None,
    };
    let v: toml::Value = toml::from_str(&encode_config(&c)).unwrap();
    let comment = v
        .get("users")
        .unwrap()
        .get("eve")
        .unwrap()
        .get("comment")
        .unwrap()
        .as_str()
        .unwrap();
    assert_eq!(comment, "tab\there \"quoted\" back\\slash\r\n");
}

#[test]
fn control_characters_are_escaped_and_survive() {
    let comment = "bell\u{7} nul\u{0} esc\u{1b} del\u{7f} keep\ttabs\r\n";
    let c = Config {
        users: Some(vec![(
            "eve".to_string(),
            User { shell: None, comment: Some(comment.to_string()), groups: None },
        )]),
        packages: None,
    };
    let text = encode_config(&c);
    assert!(text.contains("\\u0007"));
    assert!(text.contains("\\u0000"));
    assert!(text.contains("\\u001B"));
    assert!(text.contains("\\u007F"));
    assert!(text.contains("\\t"));
    let v: toml::Value = toml::from_str(&text).unwrap();
    let decoded = v
        .get("users")
        .unwrap()
        .get("eve")
        .unwrap()
        .get("comment")
        .unwrap()
        .as_str()
        .unwrap();
    assert_eq!(decoded, comment);
}

#[test]
fn empty_config_encodes_to_the_empty_document() {
    let c = Config { users: None, packages: None };
    let text = encode_config(&c);
    assert_eq!(text, "");
    let v: toml::Value = toml::from_str(&text).unwrap();
    assert!(v.as_table().unwrap().is_empty());
}
