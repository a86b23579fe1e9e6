//! Decisions and banner lines of the top-level driver: the privilege check
//! and the text printed before each entity is dispatched.

use vstd::prelude::*;

use crate::config::Config;
use crate::config::ConfigView;
use crate::packages::PackageList;
use crate::packages::PackageListView;
use crate::packages::pkg_args;
use crate::report::debug_str_of;
use crate::users::UserView;
use crate::users::useradd_args;

verus! {

/// Whether the invoking user may proceed: only the literal user name `root`
/// is accepted.
pub fn privilege_ok(user: &str) -> (b: bool)
    ensures
        b == (user@ == "root"@),
{
    let u: String = user.to_owned();
    let r: String = "root".to_owned();
    u == r
}

/// The banner printed before a user is provisioned (no trailing newline:
/// the report line follows on the same line).
pub fn user_banner(username: &str) -> (r: String)
    ensures
        r@ == "Creating user "@ + username@ + "..."@,
{
    let mut out = "Creating user ".to_owned();
    out.append(username);
    out.append("...");
    out
}

/// The record's items each quoted and escaped, joined with comma-space.
pub open spec fn debug_items(l: Seq<Seq<char>>) -> Seq<char>
    decreases l.len(),
{
    if l.len() == 0 {
        Seq::empty()
    } else if l.len() == 1 {
        debug_str_of(l[0])
    } else {
        debug_items(l.drop_last()) + ", "@ + debug_str_of(l.last())
    }
}

/// The text of an optional string field as the `Debug` trait prints it.
pub open spec fn opt_str_debug(o: Option<Seq<char>>) -> Seq<char> {
    match o {
        Some(s) => "Some("@ + debug_str_of(s) + ")"@,
        None => "None"@,
    }
}

/// The text of an optional string-list field as the `Debug` trait prints it.
pub open spec fn opt_list_debug(o: Option<Seq<Seq<char>>>) -> Seq<char> {
    match o {
        Some(l) => "Some(["@ + debug_items(l) + "])"@,
        None => "None"@,
    }
}

/// The one-line debug text of a package record, shaped as the derived
/// `Debug` of the record would print it.
pub open spec fn package_list_debug(p: PackageListView) -> Seq<char> {
    "PackageList { flags: "@ + opt_str_debug(p.flags) + ", pkglist: "@ + opt_list_debug(p.pkglist)
        + " }"@
}

/// Renders the record's items each quoted and escaped, joined with
/// comma-space.
fn debug_items_exec(l: &Vec<String>) -> (r: String)
    ensures
        r@ == debug_items(l.deep_view()),
{
    let ghost model: Seq<Seq<char>> = l.deep_view();
    let mut out = String::new();
    let mut i: usize = 0;
    while i < l.len()
        invariant
            i <= l.len(),
            model == l.deep_view(),
            model.len() == l.len(),
            out@ == debug_items(model.take(i as int)),
        decreases l.len() - i,
    {
        proof {
            assert(model.take(i as int + 1).drop_last() =~= model.take(i as int));
            assert(model.take(i as int + 1).last() == model[i as int]);
        }
        if i > 0 {
            out.append(", ");
        }
        let quoted = crate::report::debug_format_str(l[i].as_str());
        out.append(quoted.as_str());
        i += 1;
    }
    proof {
        assert(model.take(l.len() as int) =~= model);
    }
    out
}

/// The banner printed before a package record is dispatched: the manager's
/// executable name and the record's one-line debug text.
pub fn package_banner(manager: &str, p: &PackageList) -> (r: String)
    ensures
        r@ == "Package manager "@ + manager@ + ": "@ + package_list_debug(p@),
{
    let mut out = "Package manager ".to_owned();
    out.append(manager);
    out.append(": ");
    out.append("PackageList { flags: ");
    match &p.flags {
        Some(f) => {
            out.append("Some(");
            let quoted = crate::report::debug_format_str(f.as_str());
            out.append(quoted.as_str());
            out.append(")");
        },
        None => {
            out.append("None");
        },
    }
    out.append(", pkglist: ");
    match &p.pkglist {
        Some(l) => {
            out.append("Some([");
            let items = debug_items_exec(l);
            out.append(items.as_str());
            out.append("])");
        },
        None => {
            out.append("None");
        },
    }
    out.append(" }");
    out
}

/// One prepared invocation: the executable to run, its argument vector,
/// and the banner printed before it is dispatched. A user banner carries
/// no newline (the report line follows on the same line); a package banner
/// ends its line.
pub struct Invocation {
    pub program: String,
    pub args: Vec<String>,
    pub banner: String,
}

/// Mathematical model of an [`Invocation`].
pub struct InvocationView {
    pub program: Seq<char>,
    pub args: Seq<Seq<char>>,
    pub banner: Seq<char>,
}

impl View for Invocation {
    type V = InvocationView;

    open spec fn view(&self) -> InvocationView {
        InvocationView { program: self.program@, args: self.args.deep_view(), banner: self.banner@ }
    }
}

impl DeepView for Invocation {
    type V = InvocationView;

    open spec fn deep_view(&self) -> InvocationView {
        self.view()
    }
}

/// The invocation provisioning one declared user: `useradd` with the built
/// argument vector.
pub open spec fn user_invocation(key: Seq<char>, u: UserView) -> InvocationView {
    InvocationView {
        program: "useradd"@,
        args: useradd_args(key, u),
        banner: "Creating user "@ + key + "..."@,
    }
}

/// The invocation dispatching one declared package record: the manager
/// named by the key with the built argument vector.
pub open spec fn package_invocation(key: Seq<char>, p: PackageListView) -> InvocationView {
    InvocationView {
        program: key,
        args: pkg_args(p),
        banner: "Package manager "@ + key + ": "@ + package_list_debug(p) + "\n"@,
    }
}

/// The invocations of the user entries, in entry order.
pub open spec fn user_invocations(m: Seq<(Seq<char>, UserView)>) -> Seq<InvocationView>
    decreases m.len(),
{
    if m.len() == 0 {
        Seq::empty()
    } else {
        user_invocations(m.drop_last()).push(user_invocation(m.last().0, m.last().1))
    }
}

/// The invocations of the package entries, in entry order.
pub open spec fn package_invocations(m: Seq<(Seq<char>, PackageListView)>) -> Seq<InvocationView>
    decreases m.len(),
{
    if m.len() == 0 {
        Seq::empty()
    } else {
        package_invocations(m.drop_last()).push(package_invocation(m.last().0, m.last().1))
    }
}

/// The full sequence of invocations for a configuration: every user entry
/// first, then every package entry, each group in its declared order, an
/// absent mapping contributing nothing.
pub open spec fn plan(c: ConfigView) -> Seq<InvocationView> {
    (match c.users {
        Some(m) => user_invocations(m),
        None => Seq::empty(),
    }) + (match c.packages {
        Some(m) => package_invocations(m),
        None => Seq::empty(),
    })
}

/// Builds the invocations the driver dispatches for configuration `c`, in
/// dispatch order.
pub fn plan_invocations(c: &Config) -> (r: Vec<Invocation>)
    ensures
        r.deep_view() == plan(c@),
{
    let mut r: Vec<Invocation> = Vec::new();
    if let Some(users) = &c.users {
        let ghost model: Seq<(Seq<char>, UserView)> = users.deep_view();
        let mut i: usize = 0;
        while i < users.len()
            invariant
                i <= users.len(),
                model == users.deep_view(),
                model.len() == users.len(),
                r.deep_view() =~= user_invocations(model.take(i as int)),
            decreases users.len() - i,
        {
            let ghost pre = r.deep_view();
            proof {
                assert(model.take(i as int + 1).drop_last() =~= model.take(i as int));
                assert(model.take(i as int + 1).last() == model[i as int]);
            }
            let key = &users[i].0;
            let inv = Invocation {
                program: "useradd".to_owned(),
                args: crate::users::build_useradd_args(key.as_str(), &users[i].1),
                banner: user_banner(key.as_str()),
            };
            r.push(inv);
            proof {
                assert(r.deep_view() =~= pre.push(user_invocation(model[i as int].0, model[i as int].1)));
            }
            i += 1;
        }
        proof {
            assert(model.take(users.len() as int) =~= model);
        }
    }
    let ghost user_part = r.deep_view();
    if let Some(packages) = &c.packages {
        let ghost model: Seq<(Seq<char>, PackageListView)> = packages.deep_view();
        let mut i: usize = 0;
        while i < packages.len()
            invariant
                i <= packages.len(),
                model == packages.deep_view(),
                model.len() == packages.len(),
                r.deep_view() =~= user_part + package_invocations(model.take(i as int)),
            decreases packages.len() - i,
        {
            let ghost pre = r.deep_view();
            proof {
                assert(model.take(i as int + 1).drop_last() =~= model.take(i as int));
                assert(model.take(i as int + 1).last() == model[i as int]);
            }
            let key = &packages[i].0;
            let mut banner = package_banner(key.as_str(), &packages[i].1);
            banner.append("\n");
            let inv = Invocation {
                program: key.clone(),
                args: crate::packages::build_pkg_args(&packages[i].1),
                banner,
            };
            r.push(inv);
            proof {
                reveal_strlit("\n");
                assert("\n"@ =~= seq!['\n']);
                assert(r.deep_view() =~= pre.push(package_invocation(model[i as int].0, model[i as int].1)));
            }
            i += 1;
        }
        proof {
            assert(model.take(packages.len() as int) =~= model);
        }
    }
    proof {
        assert(r.deep_view() =~= plan(c@));
    }
    r
}

} // verus!
