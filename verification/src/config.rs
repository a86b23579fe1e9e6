//! The decoded configuration: the declared users and the declared package
//! installations, each an optional mapping with unique keys.

use vstd::prelude::*;

use crate::packages::PackageList;
use crate::packages::PackageListView;
use crate::users::User;
use crate::users::UserView;

verus! {

impl DeepView for User {
    type V = UserView;

    open spec fn deep_view(&self) -> UserView {
        self.view()
    }
}

impl DeepView for PackageList {
    type V = PackageListView;

    open spec fn deep_view(&self) -> PackageListView {
        self.view()
    }
}

/// The whole decoded configuration. Each mapping is kept as a sequence of
/// key-value pairs; an absent mapping and an empty one are treated alike by
/// the driver. Iteration order carries no meaning.
pub struct Config {
    /// Username to user record; usernames are unique and non-empty.
    pub users: Option<Vec<(String, User)>>,
    /// Package-manager executable name to package record; names are unique.
    pub packages: Option<Vec<(String, PackageList)>>,
}

/// Mathematical model of a [`Config`].
pub struct ConfigView {
    pub users: Option<Seq<(Seq<char>, UserView)>>,
    pub packages: Option<Seq<(Seq<char>, PackageListView)>>,
}

impl View for Config {
    type V = ConfigView;

    open spec fn view(&self) -> ConfigView {
        ConfigView { users: self.users.deep_view(), packages: self.packages.deep_view() }
    }
}

/// No two entries share a key.
pub open spec fn unique_keys<T>(m: Seq<(Seq<char>, T)>) -> bool {
    forall|i: int, j: int| 0 <= i < j < m.len() ==> m[i].0 != m[j].0
}

/// A declared shell, if any, is a short name: it holds no path separator,
/// since `/usr/bin/` is prefixed to it at build time.
pub open spec fn shell_is_short(u: UserView) -> bool {
    match u.shell {
        Some(s) => !s.contains('/'),
        None => true,
    }
}

impl Config {
    /// Well-formedness of a decoded configuration: keys are unique in each
    /// mapping, every username is non-empty, and every declared shell is a
    /// short name.
    pub open spec fn wf(&self) -> bool {
        &&& match self@.users {
            Some(m) => {
                &&& unique_keys(m)
                &&& forall|i: int| 0 <= i < m.len() ==> (#[trigger] m[i].0).len() > 0
                &&& forall|i: int| 0 <= i < m.len() ==> shell_is_short(#[trigger] m[i].1)
            },
            None => true,
        }
        &&& match self@.packages {
            Some(m) => unique_keys(m),
            None => true,
        }
    }
}

/// The hexadecimal digit for a value below sixteen.
pub open spec fn hex_digit(n: int) -> char {
    if n == 0 {
        '0'
    } else if n == 1 {
        '1'
    } else if n == 2 {
        '2'
    } else if n == 3 {
        '3'
    } else if n == 4 {
        '4'
    } else if n == 5 {
        '5'
    } else if n == 6 {
        '6'
    } else if n == 7 {
        '7'
    } else if n == 8 {
        '8'
    } else if n == 9 {
        '9'
    } else if n == 10 {
        'A'
    } else if n == 11 {
        'B'
    } else if n == 12 {
        'C'
    } else if n == 13 {
        'D'
    } else if n == 14 {
        'E'
    } else {
        'F'
    }
}

/// The value of a hexadecimal digit the encoder emits; sixteen for any
/// other character.
pub open spec fn hex_val(c: char) -> int {
    if c == '0' {
        0
    } else if c == '1' {
        1
    } else if c == '2' {
        2
    } else if c == '3' {
        3
    } else if c == '4' {
        4
    } else if c == '5' {
        5
    } else if c == '6' {
        6
    } else if c == '7' {
        7
    } else if c == '8' {
        8
    } else if c == '9' {
        9
    } else if c == 'A' {
        10
    } else if c == 'B' {
        11
    } else if c == 'C' {
        12
    } else if c == 'D' {
        13
    } else if c == 'E' {
        14
    } else if c == 'F' {
        15
    } else {
        16
    }
}

/// A hexadecimal digit as the encoder emits them.
pub open spec fn is_hex(c: char) -> bool {
    hex_val(c) < 16
}

/// A control character that has no short escape of its own and must be
/// written as a `\u00XX` escape in a TOML basic string.
pub open spec fn needs_unicode_escape(c: char) -> bool {
    &&& c != '\n'
    &&& c != '\t'
    &&& c != '\r'
    &&& ((c as u32) < 0x20 || (c as u32) == 0x7f)
}

/// The character that two hexadecimal digits of a `\u00XX` escape stand
/// for.
pub open spec fn u_char(h: char, l: char) -> char {
    ((hex_val(h) * 16 + hex_val(l)) as u32) as char
}

/// One character as it appears inside a TOML basic string: quote,
/// backslash, newline, tab and carriage return take their short escapes,
/// any other control character (and delete) is written `\u00XX`, and any
/// remaining character stands for itself.
pub open spec fn toml_escape_char(c: char) -> Seq<char> {
    if c == '"' {
        seq!['\\', '"']
    } else if c == '\\' {
        seq!['\\', '\\']
    } else if c == '\n' {
        seq!['\\', 'n']
    } else if c == '\t' {
        seq!['\\', 't']
    } else if c == '\r' {
        seq!['\\', 'r']
    } else if (c as u32) < 0x20 || (c as u32) == 0x7f {
        seq!['\\', 'u', '0', '0', hex_digit((c as u32) as int / 16), hex_digit((c as u32) as int % 16)]
    } else {
        seq![c]
    }
}

/// `s` with each character escaped for a TOML basic string.
pub open spec fn toml_escaped(s: Seq<char>) -> Seq<char>
    decreases s.len(),
{
    if s.len() == 0 {
        Seq::empty()
    } else {
        toml_escaped(s.drop_last()) + toml_escape_char(s.last())
    }
}

/// The character that an escape code inside a TOML basic string stands for.
pub open spec fn toml_unescape_code(c: char) -> char {
    if c == 'n' {
        '\n'
    } else if c == 't' {
        '\t'
    } else if c == 'r' {
        '\r'
    } else {
        c
    }
}

/// The characters that the body of a TOML basic string stands for: a
/// well-formed `\u00XX` escape is read as the character it codes, any
/// other backslash together with the following escape code is read as one
/// character, and any remaining character stands for itself.
pub open spec fn toml_unescape(s: Seq<char>) -> Seq<char>
    decreases s.len(),
{
    if s.len() == 0 {
        Seq::empty()
    } else if s[0] == '\\' && s.len() >= 6 && s[1] == 'u' && s[2] == '0' && s[3] == '0' && is_hex(
        s[4],
    ) && is_hex(s[5]) {
        seq![u_char(s[4], s[5])] + toml_unescape(s.subrange(6, s.len() as int))
    } else if s[0] == '\\' && s.len() >= 2 {
        seq![toml_unescape_code(s[1])] + toml_unescape(s.subrange(2, s.len() as int))
    } else {
        seq![s[0]] + toml_unescape(s.drop_first())
    }
}

/// Escaping distributes over concatenation.
pub proof fn lemma_escaped_append(a: Seq<char>, b: Seq<char>)
    ensures
        toml_escaped(a + b) == toml_escaped(a) + toml_escaped(b),
    decreases b.len(),
{
    if b.len() == 0 {
        assert(a + b =~= a);
        assert(toml_escaped(a) + toml_escaped(b) =~= toml_escaped(a));
    } else {
        lemma_escaped_append(a, b.drop_last());
        assert((a + b).drop_last() =~= a + b.drop_last());
        assert((a + b).last() == b.last());
        assert(toml_escaped(a) + toml_escaped(b.drop_last()) + toml_escape_char(b.last())
            =~= toml_escaped(a) + toml_escaped(b));
    }
}

/// Escaping a string for a TOML basic string and reading the escapes back
/// restores the string exactly: the string codec of the encoder loses
/// nothing.
pub proof fn lemma_toml_escape_round_trip(s: Seq<char>)
    ensures
        toml_unescape(toml_escaped(s)) == s,
    decreases s.len(),
{
    if s.len() == 0 {
        assert(toml_unescape(toml_escaped(s)) =~= s);
    } else {
        let c = s[0];
        let rest = s.drop_first();
        lemma_toml_escape_round_trip(rest);
        assert(s.take(1).drop_last() =~= Seq::<char>::empty());
        assert(s.take(1).last() == c);
        assert(toml_escaped(Seq::<char>::empty()) == Seq::<char>::empty());
        assert(Seq::<char>::empty() + toml_escape_char(c) =~= toml_escape_char(c));
        assert(toml_escaped(s.take(1)) =~= toml_escape_char(c));
        assert(s =~= s.take(1) + rest);
        lemma_escaped_append(s.take(1), rest);
        let e = toml_escaped(s);
        assert(e == toml_escape_char(c) + toml_escaped(rest));
        if c == '"' || c == '\\' || c == '\n' || c == '\t' || c == '\r' {
            assert(e[0] == '\\');
            assert(e.len() >= 2);
            assert(e[1] != 'u');
            assert(e.subrange(2, e.len() as int) =~= toml_escaped(rest));
            assert(toml_unescape(e) =~= s);
        } else if (c as u32) < 0x20 || (c as u32) == 0x7f {
            let hi = (c as u32) as int / 16;
            let lo = (c as u32) as int % 16;
            assert(e[0] == '\\' && e[1] == 'u' && e[2] == '0' && e[3] == '0');
            assert(e[4] == hex_digit(hi) && e[5] == hex_digit(lo));
            assert(e.len() >= 6);
            assert(hex_val(hex_digit(hi)) == hi);
            assert(hex_val(hex_digit(lo)) == lo);
            assert(e.subrange(6, e.len() as int) =~= toml_escaped(rest));
            assert(hi * 16 + lo == (c as u32) as int);
            vstd::utf8::char_u32_cast(c, c as u32);
            assert(u_char(e[4], e[5]) == c);
            assert(toml_unescape(e) =~= s);
        } else {
            assert(e[0] == c);
            assert(e.drop_first() =~= toml_escaped(rest));
            assert(toml_unescape(e) =~= s);
        }
    }
}

/// `s` as a TOML basic string: escaped and wrapped in double quotes.
pub open spec fn toml_string(s: Seq<char>) -> Seq<char> {
    seq!['"'] + toml_escaped(s) + seq!['"']
}

/// Reads the body of a TOML basic string from the front of `s`, up to the
/// first unescaped double quote: the decoded characters and what follows
/// the closing quote, or nothing when no closing quote is found or an
/// escape is malformed.
pub open spec fn parse_basic_string_body(s: Seq<char>) -> Option<(Seq<char>, Seq<char>)>
    decreases s.len(),
{
    if s.len() == 0 {
        None
    } else if s[0] == '"' {
        Some((Seq::empty(), s.drop_first()))
    } else if s[0] == '\\' {
        if s.len() >= 2 && s[1] == 'u' {
            if s.len() >= 6 && s[2] == '0' && s[3] == '0' && is_hex(s[4]) && is_hex(s[5]) {
                match parse_basic_string_body(s.subrange(6, s.len() as int)) {
                    Some(p) => Some((seq![u_char(s[4], s[5])] + p.0, p.1)),
                    None => None,
                }
            } else {
                None
            }
        } else if s.len() >= 2 {
            match parse_basic_string_body(s.subrange(2, s.len() as int)) {
                Some(p) => Some((seq![toml_unescape_code(s[1])] + p.0, p.1)),
                None => None,
            }
        } else {
            None
        }
    } else {
        match parse_basic_string_body(s.drop_first()) {
            Some(p) => Some((seq![s[0]] + p.0, p.1)),
            None => None,
        }
    }
}

/// Reads one TOML basic string from the front of `s`: an opening double
/// quote, then its body.
pub open spec fn parse_basic_string(s: Seq<char>) -> Option<(Seq<char>, Seq<char>)> {
    if s.len() >= 1 && s[0] == '"' {
        parse_basic_string_body(s.drop_first())
    } else {
        None
    }
}

/// Reading a string body stops exactly at the quote the encoder closed
/// with: no escaped quote inside the body is mistaken for it.
pub proof fn lemma_parse_escaped_body(v: Seq<char>, rest: Seq<char>)
    ensures
        parse_basic_string_body(toml_escaped(v) + seq!['"'] + rest) == Some((v, rest)),
    decreases v.len(),
{
    if v.len() == 0 {
        let t = toml_escaped(v) + seq!['"'] + rest;
        assert(t =~= seq!['"'] + rest);
        assert(t[0] == '"');
        assert(t.drop_first() =~= rest);
    } else {
        let c = v[0];
        let tail = v.drop_first();
        lemma_parse_escaped_body(tail, rest);
        assert(v.take(1).drop_last() =~= Seq::<char>::empty());
        assert(v.take(1).last() == c);
        assert(toml_escaped(Seq::<char>::empty()) == Seq::<char>::empty());
        assert(Seq::<char>::empty() + toml_escape_char(c) =~= toml_escape_char(c));
        assert(toml_escaped(v.take(1)) =~= toml_escape_char(c));
        assert(v =~= v.take(1) + tail);
        lemma_escaped_append(v.take(1), tail);
        let t = toml_escaped(v) + seq!['"'] + rest;
        assert(toml_escaped(v) == toml_escape_char(c) + toml_escaped(tail));
        if c == '"' || c == '\\' || c == '\n' || c == '\t' || c == '\r' {
            assert(t[0] == '\\');
            assert(t.len() >= 2);
            assert(t[1] != 'u');
            assert(t.subrange(2, t.len() as int) =~= toml_escaped(tail) + seq!['"'] + rest);
            assert(toml_unescape_code(t[1]) == c);
            assert(seq![c] + tail =~= v);
        } else if (c as u32) < 0x20 || (c as u32) == 0x7f {
            let hi = (c as u32) as int / 16;
            let lo = (c as u32) as int % 16;
            assert(t[0] == '\\' && t[1] == 'u' && t[2] == '0' && t[3] == '0');
            assert(t[4] == hex_digit(hi) && t[5] == hex_digit(lo));
            assert(t.len() >= 6);
            assert(hex_val(hex_digit(hi)) == hi);
            assert(hex_val(hex_digit(lo)) == lo);
            assert(t.subrange(6, t.len() as int) =~= toml_escaped(tail) + seq!['"'] + rest);
            assert(hi * 16 + lo == (c as u32) as int);
            vstd::utf8::char_u32_cast(c, c as u32);
            assert(u_char(t[4], t[5]) == c);
            assert(seq![c] + tail =~= v);
        } else {
            assert(t[0] == c);
            assert(t.drop_first() =~= toml_escaped(tail) + seq!['"'] + rest);
            assert(seq![c] + tail =~= v);
        }
    }
}

/// The encoder's basic strings parse back without loss or ambiguity:
/// reading one basic string from `toml_string(v) + rest` yields exactly `v`
/// and leaves exactly `rest`.
pub proof fn lemma_parse_toml_string(v: Seq<char>, rest: Seq<char>)
    ensures
        parse_basic_string(toml_string(v) + rest) == Some((v, rest)),
{
    let t = toml_string(v) + rest;
    assert(t[0] == '"');
    assert(t.drop_first() =~= toml_escaped(v) + seq!['"'] + rest);
    lemma_parse_escaped_body(v, rest);
}

/// A TOML basic string opens and closes with a double quote, and reading
/// the escapes of its body back restores the encoded string exactly.
pub proof fn lemma_toml_string_round_trip(s: Seq<char>)
    ensures
        toml_string(s).len() >= 2,
        toml_string(s).first() == '"',
        toml_string(s).last() == '"',
        toml_unescape(toml_string(s).subrange(1, toml_string(s).len() - 1)) == s,
{
    let q = toml_string(s);
    assert(q.subrange(1, q.len() - 1) =~= toml_escaped(s));
    lemma_toml_escape_round_trip(s);
}

/// The elements of a TOML array of strings, joined with comma-space.
pub open spec fn toml_string_items(l: Seq<Seq<char>>) -> Seq<char>
    decreases l.len(),
{
    if l.len() == 0 {
        Seq::empty()
    } else if l.len() == 1 {
        toml_string(l[0])
    } else {
        toml_string_items(l.drop_last()) + ", "@ + toml_string(l.last())
    }
}

/// A TOML array of strings.
pub open spec fn toml_array(l: Seq<Seq<char>>) -> Seq<char> {
    "["@ + toml_string_items(l) + "]"@
}

/// Reads the comma-separated strings of a TOML array from the front of
/// `s`, up to and past the closing bracket. `fuel` bounds the number of
/// elements read.
pub open spec fn parse_string_items(s: Seq<char>, fuel: nat) -> Option<(Seq<Seq<char>>, Seq<char>)>
    decreases fuel,
{
    if fuel == 0 {
        None
    } else {
        match parse_basic_string(s) {
            None => None,
            Some(p) => if p.1.len() >= 1 && p.1[0] == ']' {
                Some((seq![p.0], p.1.drop_first()))
            } else if p.1.len() >= 2 && p.1[0] == ',' && p.1[1] == ' ' {
                match parse_string_items(p.1.subrange(2, p.1.len() as int), (fuel - 1) as nat) {
                    Some(q) => Some((seq![p.0] + q.0, q.1)),
                    None => None,
                }
            } else {
                None
            },
        }
    }
}

/// Reads one TOML array of strings from the front of `s`: an opening
/// bracket, then its comma-separated elements.
pub open spec fn parse_string_array(s: Seq<char>, fuel: nat) -> Option<(Seq<Seq<char>>, Seq<char>)> {
    if s.len() >= 2 && s[0] == '[' {
        if s[1] == ']' {
            Some((seq![], s.subrange(2, s.len() as int)))
        } else {
            parse_string_items(s.drop_first(), fuel)
        }
    } else {
        None
    }
}

/// The elements of an array also join up from the front: the first element,
/// comma-space, then the remaining elements.
pub proof fn lemma_items_front(l: Seq<Seq<char>>)
    requires
        l.len() >= 2,
    ensures
        toml_string_items(l) == toml_string(l[0]) + ", "@ + toml_string_items(l.drop_first()),
    decreases l.len(),
{
    let dl = l.drop_last();
    if l.len() == 2 {
        assert(dl =~= seq![l[0]]);
        assert(l.drop_first() =~= seq![l[1]]);
        assert(toml_string_items(l) == toml_string_items(dl) + ", "@ + toml_string(l[1]));
        assert(toml_string_items(seq![l[0]]) == toml_string(l[0]));
        assert(toml_string_items(seq![l[1]]) == toml_string(l[1]));
    } else {
        lemma_items_front(dl);
        assert(dl[0] == l[0]);
        assert(l.drop_first().drop_last() =~= dl.drop_first());
        assert(l.drop_first().last() == l.last());
        assert(l.drop_first().len() >= 2);
        assert(toml_string_items(l.drop_first()) == toml_string_items(dl.drop_first()) + ", "@
            + toml_string(l.last()));
        assert(toml_string(l[0]) + ", "@ + (toml_string_items(dl.drop_first()) + ", "@
            + toml_string(l.last())) =~= (toml_string(l[0]) + ", "@ + toml_string_items(
            dl.drop_first(),
        )) + ", "@ + toml_string(l.last()));
    }
}

/// The elements the encoder wrote into an array parse back: reading
/// comma-separated strings from `toml_string_items(l) + "]" + rest` yields
/// exactly `l` and leaves exactly `rest`.
pub proof fn lemma_parse_string_items(l: Seq<Seq<char>>, rest: Seq<char>)
    requires
        l.len() >= 1,
    ensures
        parse_string_items(toml_string_items(l) + seq![']'] + rest, l.len()) == Some((l, rest)),
    decreases l.len(),
{
    let t = toml_string_items(l) + seq![']'] + rest;
    if l.len() == 1 {
        assert(toml_string_items(l) == toml_string(l[0]));
        assert(t =~= toml_string(l[0]) + (seq![']'] + rest));
        lemma_parse_toml_string(l[0], seq![']'] + rest);
        let p = parse_basic_string(t).unwrap();
        assert(p.1[0] == ']');
        assert(p.1.drop_first() =~= rest);
        assert(seq![p.0] =~= l);
    } else {
        reveal_strlit(", ");
        lemma_items_front(l);
        let tail = l.drop_first();
        let after = ", "@ + toml_string_items(tail) + seq![']'] + rest;
        assert(t =~= toml_string(l[0]) + after);
        lemma_parse_toml_string(l[0], after);
        let p = parse_basic_string(t).unwrap();
        assert(p.0 == l[0] && p.1 == after);
        assert((", "@).len() == 2);
        assert(after[0] == ',');
        assert(after[1] == ' ');
        assert(after.subrange(2, after.len() as int) =~= toml_string_items(tail) + seq![']']
            + rest);
        lemma_parse_string_items(tail, rest);
        assert(seq![l[0]] + tail =~= l);
    }
}

/// The arrays the encoder writes parse back: reading one array of strings
/// from `toml_array(l) + rest`, with fuel for `l`'s elements, yields
/// exactly `l` and leaves exactly `rest`.
pub proof fn lemma_parse_toml_array(l: Seq<Seq<char>>, rest: Seq<char>)
    ensures
        parse_string_array(toml_array(l) + rest, l.len()) == Some((l, rest)),
{
    reveal_strlit("[");
    reveal_strlit("]");
    let t = toml_array(l) + rest;
    assert(("["@).len() == 1 && ("["@)[0] == '[');
    assert(("]"@).len() == 1 && ("]"@)[0] == ']');
    if l.len() == 0 {
        assert(toml_string_items(l) == Seq::<char>::empty());
        assert(t =~= seq!['[', ']'] + rest);
        assert(t[0] == '[' && t[1] == ']');
        assert(t.subrange(2, t.len() as int) =~= rest);
    } else {
        assert(t[0] == '[');
        assert(t.drop_first() =~= toml_string_items(l) + seq![']'] + rest);
        lemma_parse_string_items(l, rest);
        assert(t[1] == toml_string_items(l)[0]);
        assert(toml_string_items(l)[0] == '"') by {
            if l.len() == 1 {
                assert(toml_string_items(l) == toml_string(l[0]));
            } else {
                lemma_items_front(l);
            }
            assert(toml_string(l[0])[0] == '"');
        }
    }
}

/// The field lines of one user table, one line per present field, in the
/// fixed field order.
pub open spec fn user_fields_text(u: UserView) -> Seq<char> {
    (match u.shell {
        Some(s) => "shell = "@ + toml_string(s) + "\n"@,
        None => Seq::empty(),
    }) + (match u.comment {
        Some(s) => "comment = "@ + toml_string(s) + "\n"@,
        None => Seq::empty(),
    }) + (match u.groups {
        Some(gs) => "groups = "@ + toml_array(gs) + "\n"@,
        None => Seq::empty(),
    })
}

/// The TOML table for one declared user: a `[users."<name>"]` header, then
/// its field lines.
pub open spec fn user_table_text(key: Seq<char>, u: UserView) -> Seq<char> {
    "[users."@ + toml_string(key) + "]\n"@ + user_fields_text(u)
}

/// The field lines of one package table, one line per present field, in
/// the fixed field order.
pub open spec fn package_fields_text(p: PackageListView) -> Seq<char> {
    (match p.flags {
        Some(s) => "flags = "@ + toml_string(s) + "\n"@,
        None => Seq::empty(),
    }) + (match p.pkglist {
        Some(l) => "pkglist = "@ + toml_array(l) + "\n"@,
        None => Seq::empty(),
    })
}

/// The TOML table for one declared package record: a
/// `[packages."<name>"]` header, then its field lines.
pub open spec fn package_table_text(key: Seq<char>, p: PackageListView) -> Seq<char> {
    "[packages."@ + toml_string(key) + "]\n"@ + package_fields_text(p)
}

/// The user tables, one after the other in sequence order.
pub open spec fn users_text(m: Seq<(Seq<char>, UserView)>) -> Seq<char>
    decreases m.len(),
{
    if m.len() == 0 {
        Seq::empty()
    } else {
        users_text(m.drop_last()) + user_table_text(m.last().0, m.last().1)
    }
}

/// The package tables, one after the other in sequence order.
pub open spec fn packages_text(m: Seq<(Seq<char>, PackageListView)>) -> Seq<char>
    decreases m.len(),
{
    if m.len() == 0 {
        Seq::empty()
    } else {
        packages_text(m.drop_last()) + package_table_text(m.last().0, m.last().1)
    }
}

/// The TOML document for a whole configuration: all user tables, then all
/// package tables; an absent mapping contributes nothing.
pub open spec fn config_toml(c: ConfigView) -> Seq<char> {
    (match c.users {
        Some(m) => users_text(m),
        None => Seq::empty(),
    }) + (match c.packages {
        Some(m) => packages_text(m),
        None => Seq::empty(),
    })
}

/// Renders one hexadecimal digit.
fn hex_digit_str(n: u8) -> (r: &'static str)
    requires
        n < 16,
    ensures
        r@ == seq![hex_digit(n as int)],
{
    proof {
        reveal_strlit("0");
        reveal_strlit("1");
        reveal_strlit("2");
        reveal_strlit("3");
        reveal_strlit("4");
        reveal_strlit("5");
        reveal_strlit("6");
        reveal_strlit("7");
        reveal_strlit("8");
        reveal_strlit("9");
        reveal_strlit("A");
        reveal_strlit("B");
        reveal_strlit("C");
        reveal_strlit("D");
        reveal_strlit("E");
        reveal_strlit("F");
        assert("0"@ =~= seq!['0']);
        assert("1"@ =~= seq!['1']);
        assert("2"@ =~= seq!['2']);
        assert("3"@ =~= seq!['3']);
        assert("4"@ =~= seq!['4']);
        assert("5"@ =~= seq!['5']);
        assert("6"@ =~= seq!['6']);
        assert("7"@ =~= seq!['7']);
        assert("8"@ =~= seq!['8']);
        assert("9"@ =~= seq!['9']);
        assert("A"@ =~= seq!['A']);
        assert("B"@ =~= seq!['B']);
        assert("C"@ =~= seq!['C']);
        assert("D"@ =~= seq!['D']);
        assert("E"@ =~= seq!['E']);
        assert("F"@ =~= seq!['F']);
    }
    if n == 0 {
        "0"
    } else if n == 1 {
        "1"
    } else if n == 2 {
        "2"
    } else if n == 3 {
        "3"
    } else if n == 4 {
        "4"
    } else if n == 5 {
        "5"
    } else if n == 6 {
        "6"
    } else if n == 7 {
        "7"
    } else if n == 8 {
        "8"
    } else if n == 9 {
        "9"
    } else if n == 10 {
        "A"
    } else if n == 11 {
        "B"
    } else if n == 12 {
        "C"
    } else if n == 13 {
        "D"
    } else if n == 14 {
        "E"
    } else {
        "F"
    }
}

/// Renders `s` as a TOML basic string.
fn toml_string_exec(s: &str) -> (r: String)
    ensures
        r@ == toml_string(s@),
{
    let n: usize = s.unicode_len();
    let mut out = String::new();
    out.append("\"");
    proof {
        reveal_strlit("\"");
        assert(out@ =~= seq!['"'] + toml_escaped(s@.take(0)));
    }
    let mut i: usize = 0;
    while i < n
        invariant
            i <= n == s@.len(),
            out@ == seq!['"'] + toml_escaped(s@.take(i as int)),
        decreases n - i,
    {
        let c = s.get_char(i);
        proof {
            assert(s@.take(i as int + 1).drop_last() =~= s@.take(i as int));
            assert(s@.take(i as int + 1).last() == s@[i as int]);
        }
        if c == '"' {
            out.append("\\\"");
            proof {
                reveal_strlit("\\\"");
                assert("\\\""@ =~= toml_escape_char(c));
            }
        } else if c == '\\' {
            out.append("\\\\");
            proof {
                reveal_strlit("\\\\");
                assert("\\\\"@ =~= toml_escape_char(c));
            }
        } else if c == '\n' {
            out.append("\\n");
            proof {
                reveal_strlit("\\n");
                assert("\\n"@ =~= toml_escape_char(c));
            }
        } else if c == '\t' {
            out.append("\\t");
            proof {
                reveal_strlit("\\t");
                assert("\\t"@ =~= toml_escape_char(c));
            }
        } else if c == '\r' {
            out.append("\\r");
            proof {
                reveal_strlit("\\r");
                assert("\\r"@ =~= toml_escape_char(c));
            }
        } else if (c as u32) < 0x20 || (c as u32) == 0x7f {
            let code: u32 = c as u32;
            out.append("\\u00");
            let hi = hex_digit_str((code / 16) as u8);
            out.append(hi);
            let lo = hex_digit_str((code % 16) as u8);
            out.append(lo);
            proof {
                reveal_strlit("\\u00");
                assert("\\u00"@ =~= seq!['\\', 'u', '0', '0']);
                assert(code < 0x80);
                assert(((code / 16) as u8) as int == (c as u32) as int / 16);
                assert(((code % 16) as u8) as int == (c as u32) as int % 16);
                assert("\\u00"@ + hi@ + lo@ =~= toml_escape_char(c));
            }
        } else {
            let piece = s.substring_char(i, i + 1);
            out.append(piece);
            proof {
                assert(piece@ =~= seq![s@[i as int]]);
                assert(piece@ =~= toml_escape_char(s@[i as int]));
            }
        }
        i += 1;
    }
    out.append("\"");
    proof {
        reveal_strlit("\"");
        assert(s@.take(n as int) =~= s@);
        assert(out@ =~= toml_string(s@));
    }
    out
}

/// Renders a TOML array of strings.
fn toml_array_exec(l: &Vec<String>) -> (r: String)
    ensures
        r@ == toml_array(l.deep_view()),
{
    let ghost model: Seq<Seq<char>> = l.deep_view();
    let mut out = String::new();
    out.append("[");
    let mut i: usize = 0;
    proof {
        assert(out@ =~= "["@ + toml_string_items(model.take(0)));
    }
    while i < l.len()
        invariant
            i <= l.len(),
            model == l.deep_view(),
            model.len() == l.len(),
            out@ == "["@ + toml_string_items(model.take(i as int)),
        decreases l.len() - i,
    {
        proof {
            assert(model.take(i as int + 1).drop_last() =~= model.take(i as int));
            assert(model.take(i as int + 1).last() == model[i as int]);
        }
        if i > 0 {
            out.append(", ");
        }
        let item = toml_string_exec(l[i].as_str());
        out.append(item.as_str());
        i += 1;
    }
    out.append("]");
    proof {
        assert(model.take(l.len() as int) =~= model);
        assert(out@ =~= toml_array(model));
    }
    out
}

/// Renders the TOML table for one declared user.
fn user_table_exec(key: &str, u: &User) -> (r: String)
    ensures
        r@ == user_table_text(key@, u@),
{
    let mut out = "[users.".to_owned();
    let k = toml_string_exec(key);
    out.append(k.as_str());
    out.append("]\n");
    if let Some(shell) = &u.shell {
        out.append("shell = ");
        let v = toml_string_exec(shell.as_str());
        out.append(v.as_str());
        out.append("\n");
    }
    if let Some(comment) = &u.comment {
        out.append("comment = ");
        let v = toml_string_exec(comment.as_str());
        out.append(v.as_str());
        out.append("\n");
    }
    if let Some(groups) = &u.groups {
        out.append("groups = ");
        let v = toml_array_exec(groups);
        out.append(v.as_str());
        out.append("\n");
    }
    proof {
        assert(out@ =~= user_table_text(key@, u@));
    }
    out
}

/// Renders the TOML table for one declared package record.
fn package_table_exec(key: &str, p: &PackageList) -> (r: String)
    ensures
        r@ == package_table_text(key@, p@),
{
    let mut out = "[packages.".to_owned();
    let k = toml_string_exec(key);
    out.append(k.as_str());
    out.append("]\n");
    if let Some(flags) = &p.flags {
        out.append("flags = ");
        let v = toml_string_exec(flags.as_str());
        out.append(v.as_str());
        out.append("\n");
    }
    if let Some(list) = &p.pkglist {
        out.append("pkglist = ");
        let v = toml_array_exec(list);
        out.append(v.as_str());
        out.append("\n");
    }
    proof {
        assert(out@ =~= package_table_text(key@, p@));
    }
    out
}

/// Renders the whole configuration back as a TOML document, all user
/// tables first, then all package tables, every value a basic string.
pub fn encode_config(c: &Config) -> (r: String)
    ensures
        r@ == config_toml(c@),
{
    let mut out = String::new();
    if let Some(users) = &c.users {
        let ghost model: Seq<(Seq<char>, UserView)> = users.deep_view();
        let mut i: usize = 0;
        proof {
            assert(out@ =~= users_text(model.take(0)));
        }
        while i < users.len()
            invariant
                i <= users.len(),
                model == users.deep_view(),
                model.len() == users.len(),
                out@ == users_text(model.take(i as int)),
            decreases users.len() - i,
        {
            proof {
                assert(model.take(i as int + 1).drop_last() =~= model.take(i as int));
                assert(model.take(i as int + 1).last() == model[i as int]);
            }
            let t = user_table_exec(users[i].0.as_str(), &users[i].1);
            out.append(t.as_str());
            i += 1;
        }
        proof {
            assert(model.take(users.len() as int) =~= model);
        }
    }
    let ghost user_part = out@;
    if let Some(packages) = &c.packages {
        let ghost model: Seq<(Seq<char>, PackageListView)> = packages.deep_view();
        let mut i: usize = 0;
        proof {
            assert(out@ =~= user_part + packages_text(model.take(0)));
        }
        while i < packages.len()
            invariant
                i <= packages.len(),
                model == packages.deep_view(),
                model.len() == packages.len(),
                out@ == user_part + packages_text(model.take(i as int)),
            decreases packages.len() - i,
        {
            proof {
                assert(model.take(i as int + 1).drop_last() =~= model.take(i as int));
                assert(model.take(i as int + 1).last() == model[i as int]);
            }
            let t = package_table_exec(packages[i].0.as_str(), &packages[i].1);
            out.append(t.as_str());
            i += 1;
        }
        proof {
            assert(model.take(packages.len() as int) =~= model);
        }
    }
    proof {
        assert(out@ =~= config_toml(c@));
    }
    out
}

} // verus!
