//! The user record of the configuration and the translation of one record
//! into the argument vector of the `useradd` command.

use vstd::prelude::*;

verus! {

/// One declared local user. Every field is optional: an absent field means
/// that the matching flag is not passed to `useradd`.
pub struct User {
    /// Short shell name (no path separators); prefixed with `/usr/bin/`.
    pub shell: Option<String>,
    /// Free-text comment, passed verbatim as a single argument.
    pub comment: Option<String>,
    /// Ordered group names, joined with a single ASCII comma.
    pub groups: Option<Vec<String>>,
}

/// Mathematical model of a [`User`]: each field as an optional sequence.
pub struct UserView {
    pub shell: Option<Seq<char>>,
    pub comment: Option<Seq<char>>,
    pub groups: Option<Seq<Seq<char>>>,
}

impl View for User {
    type V = UserView;

    open spec fn view(&self) -> UserView {
        UserView {
            shell: self.shell.deep_view(),
            comment: self.comment.deep_view(),
            groups: self.groups.deep_view(),
        }
    }
}

/// The group names joined with a single ASCII comma, order preserved,
/// no deduplication.
pub open spec fn join_comma(gs: Seq<Seq<char>>) -> Seq<char>
    decreases gs.len(),
{
    if gs.len() == 0 {
        Seq::empty()
    } else if gs.len() == 1 {
        gs[0]
    } else {
        join_comma(gs.drop_last()) + seq![','] + gs.last()
    }
}

/// Joins the group names with a single ASCII comma.
fn join_comma_exec(gs: &Vec<String>) -> (r: String)
    ensures
        r@ == join_comma(gs.deep_view()),
{
    let ghost model: Seq<Seq<char>> = gs.deep_view();
    let mut out = String::new();
    let mut i: usize = 0;
    while i < gs.len()
        invariant
            i <= gs.len(),
            model == gs.deep_view(),
            model.len() == gs.len(),
            out@ == join_comma(model.take(i as int)),
        decreases gs.len() - i,
    {
        proof {
            reveal_strlit(",");
            assert(model.take(i as int + 1).drop_last() =~= model.take(i as int));
            assert(model.take(i as int + 1).last() == model[i as int]);
        }
        if i > 0 {
            out.append(",");
        }
        out.append(gs[i].as_str());
        proof {
            assert(gs[i as int]@ == model[i as int]);
        }
        i += 1;
    }
    proof {
        assert(model.take(gs.len() as int) =~= model);
    }
    out
}

/// Arguments contributed by the `shell` field: `--shell /usr/bin/<shell>`,
/// or nothing when the field is absent.
pub open spec fn shell_args(sh: Option<Seq<char>>) -> Seq<Seq<char>> {
    match sh {
        Some(s) => seq!["--shell"@, "/usr/bin/"@ + s],
        None => seq![],
    }
}

/// Arguments contributed by the `comment` field: `-c <comment>`, the comment
/// verbatim as one argument, or nothing when the field is absent.
pub open spec fn comment_args(c: Option<Seq<char>>) -> Seq<Seq<char>> {
    match c {
        Some(s) => seq!["-c"@, s],
        None => seq![],
    }
}

/// Arguments contributed by the `groups` field: `--groups <g1>,<g2>,...`,
/// or nothing when the field is absent.
pub open spec fn groups_args(gs: Option<Seq<Seq<char>>>) -> Seq<Seq<char>> {
    match gs {
        Some(s) => seq!["--groups"@, join_comma(s)],
        None => seq![],
    }
}

/// The full `useradd` argument vector for one declared user: the three
/// optional flag pairs in their fixed order, then the username last.
pub open spec fn useradd_args(n: Seq<char>, u: UserView) -> Seq<Seq<char>> {
    shell_args(u.shell) + comment_args(u.comment) + groups_args(u.groups) + seq![n]
}

/// Builds the argument vector handed to `useradd` for `username` declared
/// with record `user`.
pub fn build_useradd_args(username: &str, user: &User) -> (args: Vec<String>)
    ensures
        args.deep_view() == useradd_args(username@, user@),
{
    let mut args: Vec<String> = Vec::new();
    if let Some(shell) = &user.shell {
        args.push("--shell".to_owned());
        let mut path = "/usr/bin/".to_owned();
        path.append(shell.as_str());
        args.push(path);
    }
    if let Some(comment) = &user.comment {
        args.push("-c".to_owned());
        args.push(comment.clone());
    }
    if let Some(groups) = &user.groups {
        args.push("--groups".to_owned());
        args.push(join_comma_exec(groups));
    }
    args.push(username.to_owned());
    proof {
        assert(args.deep_view() =~= useradd_args(username@, user@));
    }
    args
}

/// True of a string that is one of the three flag literals the builder emits.
pub open spec fn is_useradd_flag(s: Seq<char>) -> bool {
    s == "--shell"@ || s == "-c"@ || s == "--groups"@
}

/// True when neither the username, nor the comment, nor the joined group
/// list spells one of the flag literals itself, so every flag occurrence in
/// the built vector marks the matching field.
pub open spec fn no_flag_collision(n: Seq<char>, u: UserView) -> bool {
    &&& !is_useradd_flag(n)
    &&& match u.comment {
        Some(c) => !is_useradd_flag(c),
        None => true,
    }
    &&& match u.groups {
        Some(gs) => !is_useradd_flag(join_comma(gs)),
        None => true,
    }
}

/// The built `useradd` argument vector always ends with the username.
pub proof fn lemma_useradd_ends_with_username(n: Seq<char>, u: UserView)
    ensures
        useradd_args(n, u).len() >= 1,
        useradd_args(n, u).last() == n,
{
}

/// The built `useradd` argument vector contains `--shell`, `-c`, `--groups`
/// exactly when the matching field is present, provided no field value
/// spells a flag literal itself.
pub proof fn lemma_useradd_flag_presence(n: Seq<char>, u: UserView)
    requires
        no_flag_collision(n, u),
    ensures
        useradd_args(n, u).contains("--shell"@) <==> u.shell is Some,
        useradd_args(n, u).contains("-c"@) <==> u.comment is Some,
        useradd_args(n, u).contains("--groups"@) <==> u.groups is Some,
{
    reveal_strlit("--shell");
    reveal_strlit("-c");
    reveal_strlit("--groups");
    reveal_strlit("/usr/bin/");
    let a = useradd_args(n, u);
    assert(("--shell"@).len() == 7);
    assert(("-c"@).len() == 2);
    assert(("--groups"@).len() == 8);
    assert(("/usr/bin/"@).len() == 9);
    match (u.shell, u.comment, u.groups) {
        (Some(sh), Some(c), Some(gs)) => {
            assert(a =~= seq![
                "--shell"@,
                "/usr/bin/"@ + sh,
                "-c"@,
                c,
                "--groups"@,
                join_comma(gs),
                n,
            ]);
            assert(a[0] == "--shell"@);
            assert(a[2] == "-c"@);
            assert(a[4] == "--groups"@);
        },
        (Some(sh), Some(c), None) => {
            assert(a =~= seq!["--shell"@, "/usr/bin/"@ + sh, "-c"@, c, n]);
            assert(a[0] == "--shell"@);
            assert(a[2] == "-c"@);
            assert(("/usr/bin/"@ + sh).len() >= 9);
            assert(!a.contains("--groups"@));
        },
        (Some(sh), None, Some(gs)) => {
            assert(a =~= seq!["--shell"@, "/usr/bin/"@ + sh, "--groups"@, join_comma(gs), n]);
            assert(a[0] == "--shell"@);
            assert(a[2] == "--groups"@);
            assert(("/usr/bin/"@ + sh).len() >= 9);
            assert(!a.contains("-c"@));
        },
        (Some(sh), None, None) => {
            assert(a =~= seq!["--shell"@, "/usr/bin/"@ + sh, n]);
            assert(a[0] == "--shell"@);
            assert(("/usr/bin/"@ + sh).len() >= 9);
            assert(!a.contains("-c"@));
            assert(!a.contains("--groups"@));
        },
        (None, Some(c), Some(gs)) => {
            assert(a =~= seq!["-c"@, c, "--groups"@, join_comma(gs), n]);
            assert(a[0] == "-c"@);
            assert(a[2] == "--groups"@);
            assert(!a.contains("--shell"@));
        },
        (None, Some(c), None) => {
            assert(a =~= seq!["-c"@, c, n]);
            assert(a[0] == "-c"@);
            assert(!a.contains("--shell"@));
            assert(!a.contains("--groups"@));
        },
        (None, None, Some(gs)) => {
            assert(a =~= seq!["--groups"@, join_comma(gs), n]);
            assert(a[0] == "--groups"@);
            assert(!a.contains("--shell"@));
            assert(!a.contains("-c"@));
        },
        (None, None, None) => {
            assert(a =~= seq![n]);
            assert(!a.contains("--shell"@));
            assert(!a.contains("-c"@));
            assert(!a.contains("--groups"@));
        },
    }
}

/// Wherever `--shell` occurs in the built vector, the next argument starts
/// with `/usr/bin/`, provided no field value spells a flag literal itself.
pub proof fn lemma_useradd_shell_prefixed(n: Seq<char>, u: UserView)
    requires
        no_flag_collision(n, u),
    ensures
        forall|i: int|
            0 <= i < useradd_args(n, u).len() && #[trigger] useradd_args(n, u)[i] == "--shell"@
                ==> i + 1 < useradd_args(n, u).len() && ("/usr/bin/"@).is_prefix_of(
                useradd_args(n, u)[i + 1],
            ),
{
    reveal_strlit("--shell");
    reveal_strlit("-c");
    reveal_strlit("--groups");
    reveal_strlit("/usr/bin/");
    let a = useradd_args(n, u);
    assert(("--shell"@).len() == 7);
    assert(("-c"@).len() == 2);
    assert(("--groups"@).len() == 8);
    assert(("/usr/bin/"@).len() == 9);
    match (u.shell, u.comment, u.groups) {
        (Some(sh), Some(c), Some(gs)) => {
            assert(a =~= seq![
                "--shell"@,
                "/usr/bin/"@ + sh,
                "-c"@,
                c,
                "--groups"@,
                join_comma(gs),
                n,
            ]);
            assert(("/usr/bin/"@ + sh).subrange(0, 9) =~= "/usr/bin/"@);
            assert(("/usr/bin/"@ + sh).len() >= 9);
        },
        (Some(sh), Some(c), None) => {
            assert(a =~= seq!["--shell"@, "/usr/bin/"@ + sh, "-c"@, c, n]);
            assert(("/usr/bin/"@ + sh).subrange(0, 9) =~= "/usr/bin/"@);
            assert(("/usr/bin/"@ + sh).len() >= 9);
        },
        (Some(sh), None, Some(gs)) => {
            assert(a =~= seq!["--shell"@, "/usr/bin/"@ + sh, "--groups"@, join_comma(gs), n]);
            assert(("/usr/bin/"@ + sh).subrange(0, 9) =~= "/usr/bin/"@);
            assert(("/usr/bin/"@ + sh).len() >= 9);
        },
        (Some(sh), None, None) => {
            assert(a =~= seq!["--shell"@, "/usr/bin/"@ + sh, n]);
            assert(("/usr/bin/"@ + sh).subrange(0, 9) =~= "/usr/bin/"@);
            assert(("/usr/bin/"@ + sh).len() >= 9);
        },
        (None, Some(c), Some(gs)) => {
            assert(a =~= seq!["-c"@, c, "--groups"@, join_comma(gs), n]);
        },
        (None, Some(c), None) => {
            assert(a =~= seq!["-c"@, c, n]);
        },
        (None, None, Some(gs)) => {
            assert(a =~= seq!["--groups"@, join_comma(gs), n]);
        },
        (None, None, None) => {
            assert(a =~= seq![n]);
        },
    }
}

/// Wherever `--groups` occurs in the built vector, the next argument is the
/// input group names joined with a single ASCII comma, in order, provided no
/// field value spells a flag literal itself.
pub proof fn lemma_useradd_groups_joined(n: Seq<char>, u: UserView)
    requires
        no_flag_collision(n, u),
    ensures
        u.groups matches Some(gs) ==> forall|i: int|
            0 <= i < useradd_args(n, u).len() && #[trigger] useradd_args(n, u)[i] == "--groups"@
                ==> i + 1 < useradd_args(n, u).len() && useradd_args(n, u)[i + 1] == join_comma(
                gs,
            ),
{
    reveal_strlit("--shell");
    reveal_strlit("-c");
    reveal_strlit("--groups");
    reveal_strlit("/usr/bin/");
    let a = useradd_args(n, u);
    assert(("--shell"@).len() == 7);
    assert(("-c"@).len() == 2);
    assert(("--groups"@).len() == 8);
    assert(("/usr/bin/"@).len() == 9);
    match (u.shell, u.comment, u.groups) {
        (Some(sh), Some(c), Some(gs)) => {
            assert(a =~= seq![
                "--shell"@,
                "/usr/bin/"@ + sh,
                "-c"@,
                c,
                "--groups"@,
                join_comma(gs),
                n,
            ]);
            assert(("/usr/bin/"@ + sh).len() >= 9);
        },
        (Some(sh), None, Some(gs)) => {
            assert(a =~= seq!["--shell"@, "/usr/bin/"@ + sh, "--groups"@, join_comma(gs), n]);
            assert(("/usr/bin/"@ + sh).len() >= 9);
        },
        (None, Some(c), Some(gs)) => {
            assert(a =~= seq!["-c"@, c, "--groups"@, join_comma(gs), n]);
        },
        (None, None, Some(gs)) => {
            assert(a =~= seq!["--groups"@, join_comma(gs), n]);
        },
        _ => {},
    }
}

} // verus!
