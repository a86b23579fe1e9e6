use reginstall::Config;
use reginstall::Outcome;
use reginstall::PackageList;
use reginstall::User;
use reginstall::package_banner;
use reginstall::plan_invocations;
use reginstall::privilege_ok;
use reginstall::render_report;
use reginstall::user_banner;

#[test]
fn stderr_output_wins_over_stdout() {
    let o = Outcome::Completed {
        stdout: b"created user\n".to_vec(),
        stderr: b"warning: foo\n".to_vec(),
    };
    let line = render_report(&o);
    assert_eq!(line, " Error: warning: foo");
    assert!(!line.contains("created user"));
}

#[test]
fn empty_stderr_prints_stdout_contents() {
    let o = Outcome::Completed { stdout: b"ok\n".to_vec(), stderr: Vec::new() };
    assert_eq!(render_report(&o), "Done. Output:\nok\n");
}

#[test]
fn spawn_failure_names_the_error() {
    let o = Outcome::SpawnFailed("No such file or directory".to_string());
    assert_eq!(render_report(&o), "Failed: No such file or directory");
}

#[test]
fn invalid_utf8_stderr_is_replaced() {
    let o = Outcome::Completed { stdout: Vec::new(), stderr: vec![0xff] };
    assert_eq!(render_report(&o), " Error: \u{fffd}");
}

#[test]
fn whitespace_only_stderr_still_reports_error() {
    let o = Outcome::Completed { stdout: b"hidden".to_vec(), stderr: b" \n".to_vec() };
    assert_eq!(render_report(&o), " Error: ");
}

#[test]
fn only_root_passes_the_privilege_check() {
    assert!(privilege_ok("root"));
    assert!(!privilege_ok("alice"));
    assert!(!privilege_ok(""));
    assert!(!privilege_ok("Root"));
}

#[test]
fn user_banner_text() {
    assert_eq!(user_banner("alice"), "Creating user alice...");
}

#[test]
fn package_banner_text() {
    let p = PackageList {
        flags: Some("-S --noconfirm".to_string()),
        pkglist: Some(vec!["git".to_string(), "vim".to_string()]),
    };
    assert_eq!(
        package_banner("pacman", &p),
        "Package manager pacman: PackageList { flags: Some(\"-S --noconfirm\"), pkglist: Some([\"git\", \"vim\"]) }"
    );
}

#[test]
fn plan_runs_users_before_packages_in_order() {
    let c = Config {
        users: Some(vec![
            ("bob".to_string(), User { shell: None, comment: None, groups: None }),
            (
                "carol".to_string(),
                User { shell: Some("fish".to_string()), comment: None, groups: None },
            ),
        ]),
        packages: Some(vec![(
            "apt".to_string(),
            PackageList { flags: Some("install -y".to_string()), pkglist: None },
        )]),
    };
    let plan = plan_invocations(&c);
    assert_eq!(plan.len(), 3);
    assert_eq!(plan[0].program, "useradd");
    assert_eq!(plan[0].args, vec!["bob"]);
    assert_eq!(plan[0].banner, "Creating user bob...");
    assert_eq!(plan[1].program, "useradd");
    assert_eq!(plan[1].args, vec!["--shell", "/usr/bin/fish", "carol"]);
    assert_eq!(plan[1].banner, "Creating user carol...");
    assert_eq!(plan[2].program, "apt");
    assert_eq!(plan[2].args, vec!["install", "-y"]);
    assert_eq!(
        plan[2].banner,
        "Package manager apt: PackageList { flags: Some(\"install -y\"), pkglist: None }\n"
    );
}

#[test]
fn plan_of_empty_config_is_empty() {
    let c = Config { users: None, packages: None };
    assert_eq!(plan_invocations(&c).len(), 0);
}

#[test]
fn package_banner_text_empty_record() {
    let p = PackageList { flags: None, pkglist: None };
    assert_eq!(
        package_banner("apt", &p),
        "Package manager apt: PackageList { flags: None, pkglist: None }"
    );
}
