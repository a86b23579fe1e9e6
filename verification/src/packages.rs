//! The package-manager record of the configuration and the translation of
//! one record into the argument vector of the package-manager command.

use vstd::prelude::*;

verus! {

/// One declared package installation, keyed in the configuration by the
/// package manager's executable name. Both fields are optional.
pub struct PackageList {
    /// A single string of flags, split on ASCII space at build time.
    /// Consecutive spaces yield empty tokens, which are passed through.
    pub flags: Option<String>,
    /// Package names, appended in their declared order.
    pub pkglist: Option<Vec<String>>,
}

/// Mathematical model of a [`PackageList`].
pub struct PackageListView {
    pub flags: Option<Seq<char>>,
    pub pkglist: Option<Seq<Seq<char>>>,
}

impl View for PackageList {
    type V = PackageListView;

    open spec fn view(&self) -> PackageListView {
        PackageListView { flags: self.flags.deep_view(), pkglist: self.pkglist.deep_view() }
    }
}

/// The tokens of `s` split on single ASCII spaces: the empty string yields
/// one empty token, and each space ends the token before it, so consecutive
/// spaces yield empty tokens.
pub open spec fn split_spaces(s: Seq<char>) -> Seq<Seq<char>>
    decreases s.len(),
{
    if s.len() == 0 {
        seq![Seq::empty()]
    } else {
        let prev = split_spaces(s.drop_last());
        if s.last() == ' ' {
            prev.push(Seq::empty())
        } else {
            prev.update(prev.len() - 1, prev.last().push(s.last()))
        }
    }
}

/// Splitting never yields an empty token list.
pub proof fn lemma_split_spaces_len(s: Seq<char>)
    ensures
        split_spaces(s).len() >= 1,
    decreases s.len(),
{
    if s.len() > 0 {
        lemma_split_spaces_len(s.drop_last());
    }
}

/// Splits `s` on single ASCII spaces.
fn split_spaces_exec(s: &str) -> (r: Vec<String>)
    ensures
        r.deep_view() == split_spaces(s@),
{
    let n: usize = s.unicode_len();
    let mut toks: Vec<String> = Vec::new();
    let mut start: usize = 0;
    let mut i: usize = 0;
    proof {
        assert(s@.subrange(0, 0) =~= Seq::<char>::empty());
        assert(toks.deep_view().push(s@.subrange(0, 0)) =~= split_spaces(s@.take(0)));
    }
    while i < n
        invariant
            start <= i <= n == s@.len(),
            toks.deep_view().push(s@.subrange(start as int, i as int)) =~= split_spaces(
                s@.take(i as int),
            ),
        decreases n - i,
    {
        let c = s.get_char(i);
        let ghost pre = toks.deep_view();
        proof {
            assert(s@.take(i as int + 1).drop_last() =~= s@.take(i as int));
            assert(s@.take(i as int + 1).last() == s@[i as int]);
        }
        if c == ' ' {
            let tok = s.substring_char(start, i).to_owned();
            toks.push(tok);
            proof {
                assert(toks.deep_view() =~= pre.push(s@.subrange(start as int, i as int)));
                assert(s@.subrange(i as int + 1, i as int + 1) =~= Seq::<char>::empty());
            }
            start = i + 1;
        } else {
            proof {
                lemma_split_spaces_len(s@.take(i as int));
                assert(s@.subrange(start as int, i as int + 1) =~= s@.subrange(
                    start as int,
                    i as int,
                ).push(s@[i as int]));
                assert(pre.push(s@.subrange(start as int, i as int + 1)) =~= split_spaces(
                    s@.take(i as int + 1),
                ));
            }
        }
        i += 1;
    }
    let ghost pre = toks.deep_view();
    let tok = s.substring_char(start, n).to_owned();
    toks.push(tok);
    proof {
        assert(s@.take(n as int) =~= s@);
        assert(toks.deep_view() =~= pre.push(s@.subrange(start as int, n as int)));
    }
    toks
}

/// The full package-manager argument vector for one record: the flag string
/// split on single ASCII spaces (nothing when absent), then every package
/// name in its declared order (an absent list is the empty sequence).
pub open spec fn pkg_args(p: PackageListView) -> Seq<Seq<char>> {
    (match p.flags {
        Some(f) => split_spaces(f),
        None => seq![],
    }) + (match p.pkglist {
        Some(l) => l,
        None => seq![],
    })
}

/// Builds the argument vector handed to the package manager for record `p`.
pub fn build_pkg_args(p: &PackageList) -> (args: Vec<String>)
    ensures
        args.deep_view() == pkg_args(p@),
{
    let mut args: Vec<String> = if let Some(f) = &p.flags {
        split_spaces_exec(f.as_str())
    } else {
        Vec::new()
    };
    let ghost flag_part = args.deep_view();
    if let Some(list) = &p.pkglist {
        let mut i: usize = 0;
        while i < list.len()
            invariant
                i <= list.len(),
                args.deep_view() =~= flag_part + list.deep_view().take(i as int),
            decreases list.len() - i,
        {
            let ghost pre = args.deep_view();
            args.push(list[i].clone());
            proof {
                assert(args.deep_view() =~= pre.push(list.deep_view()[i as int]));
                assert(list.deep_view().take(i as int + 1) =~= list.deep_view().take(
                    i as int,
                ).push(list.deep_view()[i as int]));
            }
            i += 1;
        }
        proof {
            assert(list.deep_view().take(list.len() as int) =~= list.deep_view());
        }
    }
    proof {
        assert(args.deep_view() =~= pkg_args(p@));
    }
    args
}

} // verus!
