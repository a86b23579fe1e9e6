//! A reading of the canonical TOML documents that the encoder writes, and
//! the proof that decoding such a document recovers exactly the entries of
//! the configuration it was encoded from.

use vstd::prelude::*;

use crate::config::ConfigView;
use crate::config::config_toml;
use crate::config::package_fields_text;
use crate::config::package_table_text;
use crate::config::packages_text;
use crate::config::parse_basic_string;
use crate::config::parse_string_array;
use crate::config::parse_string_items;
use crate::config::lemma_parse_toml_array;
use crate::config::lemma_parse_toml_string;
use crate::config::toml_array;
use crate::config::toml_string;
use crate::config::toml_string_items;
use crate::config::user_fields_text;
use crate::config::user_table_text;
use crate::config::users_text;
use crate::packages::PackageListView;
use crate::users::UserView;

verus! {

/// A prefix determines the head of what it prefixes.
proof fn lemma_prefix_first_char(label: Seq<char>, s: Seq<char>)
    requires
        label.len() >= 1,
        label.is_prefix_of(s),
    ensures
        s.len() >= 1,
        s[0] == label[0],
{
    assert(s.subrange(0, label.len() as int)[0] == s[0]);
}

/// More fuel never changes what the element reader finds.
proof fn lemma_parse_string_items_fuel(s: Seq<char>, f: nat, g: nat)
    requires
        f <= g,
        parse_string_items(s, f) is Some,
    ensures
        parse_string_items(s, g) == parse_string_items(s, f),
    decreases f,
{
    if f == 0 {
    } else {
        match parse_basic_string(s) {
            Some(p) => {
                if p.1.len() >= 1 && p.1[0] == ']' {
                } else if p.1.len() >= 2 && p.1[0] == ',' && p.1[1] == ' ' {
                    lemma_parse_string_items_fuel(
                        p.1.subrange(2, p.1.len() as int),
                        (f - 1) as nat,
                        (g - 1) as nat,
                    );
                }
            },
            None => {},
        }
    }
}

/// More fuel never changes what the array reader finds.
proof fn lemma_parse_string_array_fuel(s: Seq<char>, f: nat, g: nat)
    requires
        f <= g,
        parse_string_array(s, f) is Some,
    ensures
        parse_string_array(s, g) == parse_string_array(s, f),
{
    if s.len() >= 2 && s[0] == '[' && s[1] != ']' {
        lemma_parse_string_items_fuel(s.drop_first(), f, g);
    }
}

/// The element count of an array never exceeds the length of its text.
proof fn lemma_items_len(l: Seq<Seq<char>>)
    ensures
        toml_string_items(l).len() >= 2 * l.len(),
    decreases l.len(),
{
    if l.len() == 0 {
    } else if l.len() == 1 {
        assert(toml_string(l[0]).len() >= 2);
    } else {
        lemma_items_len(l.drop_last());
        assert(toml_string(l.last()).len() >= 2);
    }
}

/// Reads one `<label><basic string>` line, newline included, from the
/// front of `s`.
pub open spec fn parse_field_str(s: Seq<char>, label: Seq<char>) -> Option<(Seq<char>, Seq<char>)> {
    if label.is_prefix_of(s) {
        match parse_basic_string(s.skip(label.len() as int)) {
            Some(p) => if p.1.len() >= 1 && p.1[0] == '\n' {
                Some((p.0, p.1.drop_first()))
            } else {
                None
            },
            None => None,
        }
    } else {
        None
    }
}

/// Reads one `<label><array of strings>` line, newline included, from the
/// front of `s`.
pub open spec fn parse_field_array(s: Seq<char>, label: Seq<char>) -> Option<
    (Seq<Seq<char>>, Seq<char>),
> {
    if label.is_prefix_of(s) {
        match parse_string_array(s.skip(label.len() as int), s.len() as nat) {
            Some(p) => if p.1.len() >= 1 && p.1[0] == '\n' {
                Some((p.0, p.1.drop_first()))
            } else {
                None
            },
            None => None,
        }
    } else {
        None
    }
}

/// A string field line the encoder wrote parses back: its value and what
/// follows the newline.
proof fn lemma_parse_field_str(label: Seq<char>, v: Seq<char>, rest: Seq<char>)
    ensures
        parse_field_str(label + toml_string(v) + seq!['\n'] + rest, label) == Some((v, rest)),
{
    let s = label + toml_string(v) + seq!['\n'] + rest;
    assert(label.is_prefix_of(s)) by {
        assert(s.subrange(0, label.len() as int) =~= label);
    }
    assert(s.skip(label.len() as int) =~= toml_string(v) + (seq!['\n'] + rest));
    lemma_parse_toml_string(v, seq!['\n'] + rest);
    let p = parse_basic_string(s.skip(label.len() as int)).unwrap();
    assert(p.1[0] == '\n');
    assert(p.1.drop_first() =~= rest);
}

/// An array field line the encoder wrote parses back: its elements and
/// what follows the newline.
proof fn lemma_parse_field_array(label: Seq<char>, l: Seq<Seq<char>>, rest: Seq<char>)
    ensures
        parse_field_array(label + toml_array(l) + seq!['\n'] + rest, label) == Some((l, rest)),
{
    let s = label + toml_array(l) + seq!['\n'] + rest;
    assert(label.is_prefix_of(s)) by {
        assert(s.subrange(0, label.len() as int) =~= label);
    }
    assert(s.skip(label.len() as int) =~= toml_array(l) + (seq!['\n'] + rest));
    lemma_parse_toml_array(l, seq!['\n'] + rest);
    lemma_items_len(l);
    assert(toml_string_items(l).len() >= 2 * l.len());
    assert(s.len() >= l.len());
    lemma_parse_string_array_fuel(s.skip(label.len() as int), l.len(), s.len() as nat);
    let p = parse_string_array(s.skip(label.len() as int), s.len() as nat).unwrap();
    assert(p.1[0] == '\n');
    assert(p.1.drop_first() =~= rest);
}

/// Reads the field lines of one user table: each of the three optional
/// fields in the fixed field order, each consumed only when its label is
/// present.
pub open spec fn parse_user_fields(s: Seq<char>) -> (UserView, Seq<char>) {
    let (shell, s1) = match parse_field_str(s, "shell = "@) {
        Some(p) => (Some(p.0), p.1),
        None => (None, s),
    };
    let (comment, s2) = match parse_field_str(s1, "comment = "@) {
        Some(p) => (Some(p.0), p.1),
        None => (None, s1),
    };
    let (groups, s3) = match parse_field_array(s2, "groups = "@) {
        Some(p) => (Some(p.0), p.1),
        None => (None, s2),
    };
    (UserView { shell, comment, groups }, s3)
}

/// Reads the field lines of one package table, in the fixed field order.
pub open spec fn parse_package_fields(s: Seq<char>) -> (PackageListView, Seq<char>) {
    let (flags, s1) = match parse_field_str(s, "flags = "@) {
        Some(p) => (Some(p.0), p.1),
        None => (None, s),
    };
    let (pkglist, s2) = match parse_field_array(s1, "pkglist = "@) {
        Some(p) => (Some(p.0), p.1),
        None => (None, s1),
    };
    (PackageListView { flags, pkglist }, s2)
}

/// The field lines the encoder wrote for one user parse back to exactly
/// that user, as long as what follows them opens a table or ends the
/// document.
proof fn lemma_parse_user_fields(u: UserView, rest: Seq<char>)
    requires
        rest.len() == 0 || rest[0] == '[',
    ensures
        parse_user_fields(user_fields_text(u) + rest) == (u, rest),
{
    reveal_strlit("shell = ");
    reveal_strlit("comment = ");
    reveal_strlit("groups = ");
    reveal_strlit("\n");
    assert("\n"@ =~= seq!['\n']);
    assert(("shell = "@).len() == 8 && ("shell = "@)[0] == 's');
    assert(("comment = "@).len() == 10 && ("comment = "@)[0] == 'c');
    assert(("groups = "@).len() == 9 && ("groups = "@)[0] == 'g');
    let t2 = match u.groups {
        Some(gs) => "groups = "@ + toml_array(gs) + seq!['\n'] + rest,
        None => rest,
    };
    let t1 = match u.comment {
        Some(cm) => "comment = "@ + toml_string(cm) + seq!['\n'] + t2,
        None => t2,
    };
    let t = match u.shell {
        Some(sh) => "shell = "@ + toml_string(sh) + seq!['\n'] + t1,
        None => t1,
    };
    assert(user_fields_text(u) + rest =~= t);
    assert(t2.len() == 0 || t2[0] == '[' || t2[0] == 'g');
    assert(t1.len() == 0 || t1[0] == '[' || t1[0] == 'g' || t1[0] == 'c');
    match u.shell {
        Some(sh) => {
            lemma_parse_field_str("shell = "@, sh, t1);
        },
        None => {
            if ("shell = "@).is_prefix_of(t) {
                lemma_prefix_first_char("shell = "@, t);
                assert(false);
            }
        },
    }
    match u.comment {
        Some(cm) => {
            lemma_parse_field_str("comment = "@, cm, t2);
        },
        None => {
            if ("comment = "@).is_prefix_of(t1) {
                lemma_prefix_first_char("comment = "@, t1);
                assert(false);
            }
        },
    }
    match u.groups {
        Some(gs) => {
            lemma_parse_field_array("groups = "@, gs, rest);
        },
        None => {
            if ("groups = "@).is_prefix_of(t2) {
                lemma_prefix_first_char("groups = "@, t2);
                assert(false);
            }
        },
    }
}

/// The field lines the encoder wrote for one package record parse back to
/// exactly that record, as long as what follows them opens a table or ends
/// the document.
proof fn lemma_parse_package_fields(p: PackageListView, rest: Seq<char>)
    requires
        rest.len() == 0 || rest[0] == '[',
    ensures
        parse_package_fields(package_fields_text(p) + rest) == (p, rest),
{
    reveal_strlit("flags = ");
    reveal_strlit("pkglist = ");
    reveal_strlit("\n");
    assert("\n"@ =~= seq!['\n']);
    assert(("flags = "@).len() == 8 && ("flags = "@)[0] == 'f');
    assert(("pkglist = "@).len() == 10 && ("pkglist = "@)[0] == 'p');
    let t1 = match p.pkglist {
        Some(l) => "pkglist = "@ + toml_array(l) + seq!['\n'] + rest,
        None => rest,
    };
    let t = match p.flags {
        Some(f) => "flags = "@ + toml_string(f) + seq!['\n'] + t1,
        None => t1,
    };
    assert(package_fields_text(p) + rest =~= t);
    assert(t1.len() == 0 || t1[0] == '[' || t1[0] == 'p');
    match p.flags {
        Some(f) => {
            lemma_parse_field_str("flags = "@, f, t1);
        },
        None => {
            if ("flags = "@).is_prefix_of(t) {
                lemma_prefix_first_char("flags = "@, t);
                assert(false);
            }
        },
    }
    match p.pkglist {
        Some(l) => {
            lemma_parse_field_array("pkglist = "@, l, rest);
        },
        None => {
            if ("pkglist = "@).is_prefix_of(t1) {
                lemma_prefix_first_char("pkglist = "@, t1);
                assert(false);
            }
        },
    }
}

/// Reads one user table from the front of `s`: its header with the quoted
/// username, then its field lines.
pub open spec fn parse_user_table(s: Seq<char>) -> Option<((Seq<char>, UserView), Seq<char>)> {
    if ("[users."@).is_prefix_of(s) {
        match parse_basic_string(s.skip(("[users."@).len() as int)) {
            Some(p) => if p.1.len() >= 2 && p.1[0] == ']' && p.1[1] == '\n' {
                let r = parse_user_fields(p.1.skip(2));
                Some(((p.0, r.0), r.1))
            } else {
                None
            },
            None => None,
        }
    } else {
        None
    }
}

/// Reads one package table from the front of `s`.
pub open spec fn parse_package_table(s: Seq<char>) -> Option<
    ((Seq<char>, PackageListView), Seq<char>),
> {
    if ("[packages."@).is_prefix_of(s) {
        match parse_basic_string(s.skip(("[packages."@).len() as int)) {
            Some(p) => if p.1.len() >= 2 && p.1[0] == ']' && p.1[1] == '\n' {
                let r = parse_package_fields(p.1.skip(2));
                Some(((p.0, r.0), r.1))
            } else {
                None
            },
            None => None,
        }
    } else {
        None
    }
}

/// A user table the encoder wrote parses back to its entry, as long as
/// what follows it opens a table or ends the document.
proof fn lemma_parse_user_table(k: Seq<char>, u: UserView, rest: Seq<char>)
    requires
        rest.len() == 0 || rest[0] == '[',
    ensures
        parse_user_table(user_table_text(k, u) + rest) == Some(((k, u), rest)),
{
    reveal_strlit("[users.");
    reveal_strlit("]\n");
    assert(("[users."@).len() == 7);
    assert(("]\n"@).len() == 2 && ("]\n"@)[0] == ']' && ("]\n"@)[1] == '\n');
    let s = user_table_text(k, u) + rest;
    assert(("[users."@).is_prefix_of(s)) by {
        assert(s.subrange(0, 7) =~= "[users."@);
    }
    let after = "]\n"@ + (user_fields_text(u) + rest);
    assert(s.skip(("[users."@).len() as int) =~= toml_string(k) + after);
    lemma_parse_toml_string(k, after);
    let p = parse_basic_string(s.skip(("[users."@).len() as int)).unwrap();
    assert(p.1[0] == ']' && p.1[1] == '\n');
    assert(p.1.skip(2) =~= user_fields_text(u) + rest);
    lemma_parse_user_fields(u, rest);
}

/// A package table the encoder wrote parses back to its entry, as long as
/// what follows it opens a table or ends the document.
proof fn lemma_parse_package_table(k: Seq<char>, p: PackageListView, rest: Seq<char>)
    requires
        rest.len() == 0 || rest[0] == '[',
    ensures
        parse_package_table(package_table_text(k, p) + rest) == Some(((k, p), rest)),
{
    reveal_strlit("[packages.");
    reveal_strlit("]\n");
    assert(("[packages."@).len() == 10);
    assert(("]\n"@).len() == 2 && ("]\n"@)[0] == ']' && ("]\n"@)[1] == '\n');
    let s = package_table_text(k, p) + rest;
    assert(("[packages."@).is_prefix_of(s)) by {
        assert(s.subrange(0, 10) =~= "[packages."@);
    }
    let after = "]\n"@ + (package_fields_text(p) + rest);
    assert(s.skip(("[packages."@).len() as int) =~= toml_string(k) + after);
    lemma_parse_toml_string(k, after);
    let q = parse_basic_string(s.skip(("[packages."@).len() as int)).unwrap();
    assert(q.1[0] == ']' && q.1[1] == '\n');
    assert(q.1.skip(2) =~= package_fields_text(p) + rest);
    lemma_parse_package_fields(p, rest);
}

/// Reads user tables from the front of `s` for as long as a user header
/// opens what is left. `fuel` bounds the number of tables read.
pub open spec fn parse_user_tables(s: Seq<char>, fuel: nat) -> Option<
    (Seq<(Seq<char>, UserView)>, Seq<char>),
>
    decreases fuel,
{
    if !("[users."@).is_prefix_of(s) {
        Some((seq![], s))
    } else if fuel == 0 {
        None
    } else {
        match parse_user_table(s) {
            Some(p) => match parse_user_tables(p.1, (fuel - 1) as nat) {
                Some(q) => Some((seq![p.0] + q.0, q.1)),
                None => None,
            },
            None => None,
        }
    }
}

/// Reads package tables from the front of `s` for as long as a package
/// header opens what is left.
pub open spec fn parse_package_tables(s: Seq<char>, fuel: nat) -> Option<
    (Seq<(Seq<char>, PackageListView)>, Seq<char>),
>
    decreases fuel,
{
    if !("[packages."@).is_prefix_of(s) {
        Some((seq![], s))
    } else if fuel == 0 {
        None
    } else {
        match parse_package_table(s) {
            Some(p) => match parse_package_tables(p.1, (fuel - 1) as nat) {
                Some(q) => Some((seq![p.0] + q.0, q.1)),
                None => None,
            },
            None => None,
        }
    }
}

/// The user tables also join up from the front: the first table's text,
/// then the remaining tables' text.
proof fn lemma_users_text_front(m: Seq<(Seq<char>, UserView)>)
    requires
        m.len() >= 1,
    ensures
        users_text(m) == user_table_text(m[0].0, m[0].1) + users_text(m.drop_first()),
    decreases m.len(),
{
    if m.len() == 1 {
        assert(m.drop_last() =~= Seq::<(Seq<char>, UserView)>::empty());
        assert(m.drop_first() =~= Seq::<(Seq<char>, UserView)>::empty());
        assert(Seq::<char>::empty() + user_table_text(m[0].0, m[0].1) =~= user_table_text(
            m[0].0,
            m[0].1,
        ));
        assert(user_table_text(m[0].0, m[0].1) + Seq::<char>::empty() =~= user_table_text(
            m[0].0,
            m[0].1,
        ));
    } else {
        let dl = m.drop_last();
        lemma_users_text_front(dl);
        assert(dl[0] == m[0]);
        assert(m.drop_first().drop_last() =~= dl.drop_first());
        assert(m.drop_first().last() == m.last());
        assert(users_text(m.drop_first()) == users_text(dl.drop_first()) + user_table_text(
            m.last().0,
            m.last().1,
        ));
        assert(user_table_text(m[0].0, m[0].1) + (users_text(dl.drop_first()) + user_table_text(
            m.last().0,
            m.last().1,
        )) =~= (user_table_text(m[0].0, m[0].1) + users_text(dl.drop_first())) + user_table_text(
            m.last().0,
            m.last().1,
        ));
    }
}

/// The package tables also join up from the front.
proof fn lemma_packages_text_front(m: Seq<(Seq<char>, PackageListView)>)
    requires
        m.len() >= 1,
    ensures
        packages_text(m) == package_table_text(m[0].0, m[0].1) + packages_text(m.drop_first()),
    decreases m.len(),
{
    if m.len() == 1 {
        assert(m.drop_last() =~= Seq::<(Seq<char>, PackageListView)>::empty());
        assert(m.drop_first() =~= Seq::<(Seq<char>, PackageListView)>::empty());
        assert(Seq::<char>::empty() + package_table_text(m[0].0, m[0].1) =~= package_table_text(
            m[0].0,
            m[0].1,
        ));
        assert(package_table_text(m[0].0, m[0].1) + Seq::<char>::empty() =~= package_table_text(
            m[0].0,
            m[0].1,
        ));
    } else {
        let dl = m.drop_last();
        lemma_packages_text_front(dl);
        assert(dl[0] == m[0]);
        assert(m.drop_first().drop_last() =~= dl.drop_first());
        assert(m.drop_first().last() == m.last());
        assert(packages_text(m.drop_first()) == packages_text(dl.drop_first())
            + package_table_text(m.last().0, m.last().1));
        assert(package_table_text(m[0].0, m[0].1) + (packages_text(dl.drop_first())
            + package_table_text(m.last().0, m.last().1)) =~= (package_table_text(m[0].0, m[0].1)
            + packages_text(dl.drop_first())) + package_table_text(m.last().0, m.last().1));
    }
}

/// The run of user tables the encoder wrote parses back to exactly its
/// entries, as long as what follows is empty or opens a table that is not
/// a user table.
#[verifier::rlimit(50)]
proof fn lemma_parse_user_tables(m: Seq<(Seq<char>, UserView)>, rest: Seq<char>)
    requires
        rest.len() == 0 || (rest[0] == '[' && !("[users."@).is_prefix_of(rest)),
    ensures
        parse_user_tables(users_text(m) + rest, m.len()) == Some((m, rest)),
    decreases m.len(),
{
    reveal_strlit("[users.");
    assert(("[users."@).len() == 7);
    if m.len() == 0 {
        assert(users_text(m) + rest =~= rest);
        assert(!("[users."@).is_prefix_of(rest));
        assert(Seq::<(Seq<char>, UserView)>::empty() =~= m);
    } else {
        lemma_users_text_front(m);
        let t = users_text(m) + rest;
        let rest1 = users_text(m.drop_first()) + rest;
        assert(t =~= user_table_text(m[0].0, m[0].1) + rest1);
        assert(("[users."@).is_prefix_of(t)) by {
            assert(t.subrange(0, 7) =~= "[users."@);
        }
        if m.drop_first().len() == 0 {
            assert(rest1 =~= rest);
        } else {
            lemma_users_text_front(m.drop_first());
            assert(rest1[0] == '[');
        }
        lemma_parse_user_table(m[0].0, m[0].1, rest1);
        lemma_parse_user_tables(m.drop_first(), rest);
        assert(seq![m[0]] + m.drop_first() =~= m);
    }
}

/// The run of package tables the encoder wrote parses back to exactly its
/// entries, as long as nothing follows it.
#[verifier::rlimit(50)]
proof fn lemma_parse_package_tables(m: Seq<(Seq<char>, PackageListView)>, rest: Seq<char>)
    requires
        rest.len() == 0 || (rest[0] == '[' && !("[packages."@).is_prefix_of(rest)),
    ensures
        parse_package_tables(packages_text(m) + rest, m.len()) == Some((m, rest)),
    decreases m.len(),
{
    reveal_strlit("[packages.");
    assert(("[packages."@).len() == 10);
    if m.len() == 0 {
        assert(packages_text(m) + rest =~= rest);
        assert(!("[packages."@).is_prefix_of(rest));
        assert(Seq::<(Seq<char>, PackageListView)>::empty() =~= m);
    } else {
        lemma_packages_text_front(m);
        let t = packages_text(m) + rest;
        let rest1 = packages_text(m.drop_first()) + rest;
        assert(t =~= package_table_text(m[0].0, m[0].1) + rest1);
        assert(("[packages."@).is_prefix_of(t)) by {
            assert(t.subrange(0, 10) =~= "[packages."@);
        }
        if m.drop_first().len() == 0 {
            assert(rest1 =~= rest);
        } else {
            lemma_packages_text_front(m.drop_first());
            assert(rest1[0] == '[');
        }
        lemma_parse_package_table(m[0].0, m[0].1, rest1);
        lemma_parse_package_tables(m.drop_first(), rest);
        assert(seq![m[0]] + m.drop_first() =~= m);
    }
}

/// The user entries of a configuration; an absent map holds none.
pub open spec fn user_entries(c: ConfigView) -> Seq<(Seq<char>, UserView)> {
    match c.users {
        Some(m) => m,
        None => seq![],
    }
}

/// The package entries of a configuration; an absent map holds none.
pub open spec fn package_entries(c: ConfigView) -> Seq<(Seq<char>, PackageListView)> {
    match c.packages {
        Some(m) => m,
        None => seq![],
    }
}

/// Reads a whole canonical document: every user table, then every package
/// table, with nothing left over.
pub open spec fn parse_config(s: Seq<char>, fu: nat, fp: nat) -> Option<
    (Seq<(Seq<char>, UserView)>, Seq<(Seq<char>, PackageListView)>),
> {
    match parse_user_tables(s, fu) {
        Some(p) => match parse_package_tables(p.1, fp) {
            Some(q) => if q.1.len() == 0 {
                Some((p.0, q.0))
            } else {
                None
            },
            None => None,
        },
        None => None,
    }
}

/// Round trip on the decoded model: the document the encoder writes for a
/// configuration decodes back to exactly that configuration's entries.
/// An absent map and an empty one write the same (empty) run of tables, so
/// both come back as no entries, which the driver treats alike.
pub proof fn lemma_config_round_trip(c: ConfigView)
    ensures
        parse_config(config_toml(c), user_entries(c).len(), package_entries(c).len()) == Some(
            (user_entries(c), package_entries(c)),
        ),
{
    reveal_strlit("[users.");
    reveal_strlit("[packages.");
    assert(("[users."@).len() == 7);
    assert(("[packages."@).len() == 10);
    let ue = user_entries(c);
    let pe = package_entries(c);
    let t = config_toml(c);
    assert(users_text(Seq::<(Seq<char>, UserView)>::empty()) == Seq::<char>::empty());
    assert(packages_text(Seq::<(Seq<char>, PackageListView)>::empty()) == Seq::<char>::empty());
    let ptext = packages_text(pe);
    assert(t =~= users_text(ue) + ptext);
    if pe.len() == 0 {
        assert(ptext.len() == 0);
    } else {
        lemma_packages_text_front(pe);
        assert(ptext[0] == '[');
        assert(ptext[1] == 'p');
        if ("[users."@).is_prefix_of(ptext) {
            assert(("[users."@) =~= ptext.subrange(0, 7));
            assert(ptext.subrange(0, 7)[1] == ptext[1]);
            assert(false);
        }
    }
    lemma_parse_user_tables(ue, ptext);
    assert(ptext =~= ptext + Seq::<char>::empty());
    lemma_parse_package_tables(pe, Seq::empty());
}

} // verus!
