//! Conan package references such as `fmt`, `fmt/10.0.1` or
//! `mylib/1.0.0@myuser/stable`.

use vstd::prelude::*;
use crate::text::{
    char_is_space, is_space, not_space, owned, push_str, scan_to, skip_space, slice_chars, str_chars,
    string_from_chars, sub_chars,
};

verus! {

/// A Conan package reference.
#[derive(Debug)]
pub struct Dependency {
    pub name: String,
    pub version: Option<String>,
    pub user: Option<String>,
    pub channel: Option<String>,
}

/// The mathematical value of a [`Dependency`].
pub struct DependencyView {
    pub name: Seq<char>,
    pub version: Option<Seq<char>>,
    pub user: Option<Seq<char>>,
    pub channel: Option<Seq<char>>,
}

pub open spec fn opt_view(o: Option<String>) -> Option<Seq<char>> {
    match o {
        Some(s) => Some(s@),
        None => None,
    }
}

/// A copy of an optional string.
pub fn clone_opt(o: &Option<String>) -> (r: Option<String>)
    ensures
        opt_view(r) == opt_view(*o),
{
    match o {
        Some(s) => Some(s.clone()),
        None => None,
    }
}

/// Equality of optional strings.
pub fn opt_eq(a: &Option<String>, b: &Option<String>) -> (r: bool)
    ensures
        r == (opt_view(*a) == opt_view(*b)),
{
    match a {
        Some(x) => match b {
            Some(y) => *x == *y,
            None => false,
        },
        None => b.is_none(),
    }
}

impl View for Dependency {
    type V = DependencyView;

    open spec fn view(&self) -> DependencyView {
        DependencyView {
            name: self.name@,
            version: opt_view(self.version),
            user: opt_view(self.user),
            channel: opt_view(self.channel),
        }
    }
}

impl Clone for Dependency {
    fn clone(&self) -> (r: Self)
        ensures
            r@ == self@,
    {
        Dependency {
            name: self.name.clone(),
            version: clone_opt(&self.version),
            user: clone_opt(&self.user),
            channel: clone_opt(&self.channel),
        }
    }
}

impl Default for Dependency {
    fn default() -> (r: Self)
        ensures
            r@.name.len() == 0,
            r@.version is None,
            r@.user is None,
            r@.channel is None,
    {
        Dependency { name: String::new(), version: None, user: None, channel: None }
    }
}

/// Two optional parts agree when either is absent or both are equal.
pub open spec fn parts_agree(a: Option<Seq<char>>, b: Option<Seq<char>>) -> bool {
    a is None || b is None || a == b
}

/// Whether two references can denote the same package: same name, and the
/// version and the channel agree wherever both give one.
pub open spec fn spec_matches(a: DependencyView, b: DependencyView) -> bool {
    a.name == b.name && parts_agree(a.version, b.version) && parts_agree(a.channel, b.channel)
}

/// Characters that end the version part of a reference.
pub open spec fn ends_version(c: char) -> bool {
    c == '@' || c == '#' || c == ':'
}

/// Characters that end the channel part of a reference.
pub open spec fn ends_channel(c: char) -> bool {
    c == '#' || c == ':'
}

pub open spec fn is_slash() -> spec_fn(char) -> bool {
    |c: char| c == '/'
}

pub open spec fn version_end() -> spec_fn(char) -> bool {
    |c: char| ends_version(c)
}

pub open spec fn channel_end() -> spec_fn(char) -> bool {
    |c: char| ends_channel(c)
}

/// Where the name starts: after the leading whitespace, or one character
/// earlier when nothing but a `/` or the end follows that whitespace.
pub open spec fn name_start(s: Seq<char>) -> Option<int> {
    let w = scan_to(s, 0, not_space());
    if w < s.len() && s[w] != '/' {
        Some(w)
    } else if w > 0 {
        Some(w - 1)
    } else {
        None
    }
}

/// The part after `@` as user and channel: split at its first `/` when
/// both sides are non-empty (`user/channel`), otherwise all channel.
pub open spec fn split_user_channel(p: Seq<char>) -> (Option<Seq<char>>, Seq<char>) {
    let k = scan_to(p, 0, is_slash());
    if 0 < k && k + 1 < p.len() {
        (Some(p.take(k)), p.skip(k + 1))
    } else {
        (None, p)
    }
}

/// The reference described by `s`, following the pattern
/// `^\s*(?P<name>[^/]+)(?:/(?P<version>[^@#:]+))?(?:@(?P<channel>[^#:]+))?(?::|#)?.*$`
/// of a regular expression: leading whitespace is skipped, the name runs up
/// to the first `/`, the version up to the first `@`, `#` or `:`, the part
/// after `@` up to the first `#` or `:`; one `:` or `#` may follow, and
/// whatever follows it must be free of line breaks. The part after `@` is
/// `user/channel` or a channel alone (see [`split_user_channel`]).
pub open spec fn parse_reference(s: Seq<char>) -> Option<DependencyView> {
    match name_start(s) {
        None => None,
        Some(a) => {
            let f = scan_to(s, a, is_slash());
            let has_version = f + 1 < s.len() && !ends_version(s[f + 1]);
            let g = if has_version {
                scan_to(s, f + 1, version_end())
            } else {
                f
            };
            let has_channel = g + 1 < s.len() && s[g] == '@' && !ends_channel(s[g + 1]);
            let h = if has_channel {
                scan_to(s, g + 1, channel_end())
            } else {
                g
            };
            let t = if h < s.len() && (s[h] == ':' || s[h] == '#') {
                h + 1
            } else {
                h
            };
            if exists|k: int| t <= k < s.len() && s[k] == '\n' {
                None
            } else {
                Some(
                    DependencyView {
                        name: s.subrange(a, f),
                        version: if has_version {
                            Some(s.subrange(f + 1, g))
                        } else {
                            None
                        },
                        user: if has_channel {
                            split_user_channel(s.subrange(g + 1, h)).0
                        } else {
                            None
                        },
                        channel: if has_channel {
                            Some(split_user_channel(s.subrange(g + 1, h)).1)
                        } else {
                            None
                        },
                    },
                )
            }
        },
    }
}

/// The text `name[/version][@user[/channel] | @channel]` of a reference.
pub open spec fn reference_text(d: DependencyView) -> Seq<char> {
    d.name + match d.version {
        Some(v) => seq!['/'] + v,
        None => seq![],
    } + match (d.user, d.channel) {
        (Some(u), Some(c)) => seq!['@'] + u + seq!['/'] + c,
        (Some(u), None) => seq!['@'] + u,
        (None, Some(c)) => seq!['@'] + c,
        (None, None) => seq![],
    }
}

/// A reference that reads back as itself: a name that neither starts with
/// whitespace nor holds a `/`; a version (when there is one) without `@`,
/// `#` or `:`; a channel (only beside a version) without `#` or `:`, and
/// without `/` unless a user is given; a user only beside a channel, and
/// without `/`, `#` or `:`; no part empty.
pub open spec fn reads_back(d: DependencyView) -> bool {
    &&& match d.user {
        Some(u) => d.channel is Some && u.len() > 0 && forall|i: int|
            0 <= i < u.len() ==> #[trigger] u[i] != '/' && !ends_channel(u[i]),
        None => d.channel matches Some(c) ==> forall|i: int| 0 <= i < c.len() ==> #[trigger] c[i] != '/',
    }
    &&& d.name.len() > 0 && !is_space(d.name[0])
    &&& forall|i: int| 0 <= i < d.name.len() ==> #[trigger] d.name[i] != '/'
    &&& match d.version {
        Some(v) => v.len() > 0 && forall|i: int| 0 <= i < v.len() ==> !ends_version(#[trigger] v[i]),
        None => d.channel is None,
    }
    &&& match d.channel {
        Some(c) => c.len() > 0 && forall|i: int| 0 <= i < c.len() ==> !ends_channel(#[trigger] c[i]),
        None => true,
    }
}

/// `scan_to` stops at the first position from `i` on whose character
/// satisfies `stop`.
pub proof fn lemma_scan_to_stops_at(s: Seq<char>, i: int, stop: spec_fn(char) -> bool, k: int)
    requires
        0 <= i <= k <= s.len(),
        forall|j: int| i <= j < k ==> !stop(#[trigger] s[j]),
        k == s.len() || stop(s[k]),
    ensures
        scan_to(s, i, stop) == k,
    decreases k - i,
{
    if i < k {
        lemma_scan_to_stops_at(s, i + 1, stop, k);
    }
}

/// The text of a reference reads back as the same reference
/// (`Dependency::from_str` of `Dependency::to_string`), for the references
/// described by [`reads_back`].
pub proof fn lemma_reference_roundtrip(d: DependencyView)
    requires
        reads_back(d),
    ensures
        parse_reference(reference_text(d)) == Some(d),
{
    let s = reference_text(d);
    let n = d.name.len() as int;
    match d.version {
        Some(v) => {
            let vl = v.len() as int;
            let tail: Seq<char> = match (d.user, d.channel) {
                (Some(u), Some(c)) => u + seq!['/'] + c,
                (None, Some(c)) => c,
                _ => seq![],
            };
            if d.channel is Some {
                assert(s =~= d.name + seq!['/'] + v + seq!['@'] + tail);
            } else {
                assert(s =~= d.name + seq!['/'] + v);
            }
            assert(s[0] == d.name[0]);
            lemma_scan_to_stops_at(s, 0, not_space(), 0);
            assert forall|j: int| 0 <= j < n implies !is_slash()(#[trigger] s[j]) by {
                assert(s[j] == d.name[j]);
            }
            assert(s[n] == '/');
            lemma_scan_to_stops_at(s, 0, is_slash(), n);
            assert(s[n + 1] == v[0]);
            assert forall|j: int| n + 1 <= j < n + 1 + vl implies !version_end()(#[trigger] s[j]) by {
                assert(s[j] == v[j - n - 1]);
            }
            lemma_scan_to_stops_at(s, n + 1, version_end(), n + 1 + vl);
            assert(s.subrange(0, n) =~= d.name);
            assert(s.subrange(n + 1, n + 1 + vl) =~= v);
            if let Some(c) = d.channel {
                let tl = tail.len() as int;
                assert(s[n + 1 + vl] == '@');
                assert(tail[0] == s[n + 2 + vl]);
                assert forall|j: int| 0 <= j < tl implies !ends_channel(#[trigger] tail[j]) by {
                    if let Some(u) = d.user {
                        if j < u.len() {
                            assert(tail[j] == u[j]);
                        } else if j > u.len() {
                            assert(tail[j] == c[j - u.len() - 1]);
                        }
                    } else {
                        assert(tail[j] == c[j]);
                    }
                }
                assert forall|j: int| n + 2 + vl <= j < s.len() implies !channel_end()(#[trigger] s[j]) by {
                    assert(s[j] == tail[j - n - 2 - vl]);
                }
                lemma_scan_to_stops_at(s, n + 2 + vl, channel_end(), s.len() as int);
                assert(s.subrange(n + 2 + vl, s.len() as int) =~= tail);
                match d.user {
                    Some(u) => {
                        let ul = u.len() as int;
                        assert forall|j: int| 0 <= j < ul implies !is_slash()(#[trigger] tail[j]) by {
                            assert(tail[j] == u[j]);
                        }
                        lemma_scan_to_stops_at(tail, 0, is_slash(), ul);
                        assert(tail.take(ul) =~= u);
                        assert(tail.skip(ul + 1) =~= c);
                    },
                    None => {
                        assert forall|j: int| 0 <= j < tl implies !is_slash()(#[trigger] tail[j]) by {}
                        lemma_scan_to_stops_at(tail, 0, is_slash(), tl);
                    },
                }
            }
        },
        None => {
            assert(s =~= d.name);
            lemma_scan_to_stops_at(s, 0, not_space(), 0);
            assert forall|j: int| 0 <= j < n implies !is_slash()(#[trigger] s[j]) by {}
            lemma_scan_to_stops_at(s, 0, is_slash(), n);
            assert(s.subrange(0, n) =~= d.name);
        },
    }
}

/// Every reference matches itself.
pub proof fn lemma_matches_reflexive(d: DependencyView)
    ensures
        spec_matches(d, d),
{
}

/// Matching does not depend on the order of the two references.
pub proof fn lemma_matches_symmetric(a: DependencyView, b: DependencyView)
    ensures
        spec_matches(a, b) == spec_matches(b, a),
{
}

/// A string that does not match the reference pattern.
#[derive(Debug, Clone, Copy, PartialEq, Eq)]
pub enum DependencyParseError {
    NoMatch,
}

impl DependencyParseError {
    pub fn to_string(&self) -> (r: String)
        ensures
            r@ == "Did not match"@,
    {
        owned("Did not match")
    }
}

fn scan(cs: &Vec<char>, i: usize, slash: bool, version: bool) -> (r: usize)
    requires
        i <= cs.len(),
        slash != version || !slash,
    ensures
        slash ==> r == scan_to(cs@, i as int, is_slash()),
        !slash && version ==> r == scan_to(cs@, i as int, version_end()),
        !slash && !version ==> r == scan_to(cs@, i as int, channel_end()),
        i <= r <= cs.len(),
    decreases cs.len() - i,
{
    if i >= cs.len() {
        return cs.len();
    }
    let c = cs[i];
    let stop = if slash {
        c == '/'
    } else if version {
        c == '@' || c == '#' || c == ':'
    } else {
        c == '#' || c == ':'
    };
    if stop {
        i
    } else {
        scan(cs, i + 1, slash, version)
    }
}

fn has_line_break(cs: &Vec<char>, t: usize) -> (r: bool)
    requires
        t <= cs.len(),
    ensures
        r == exists|k: int| t <= k < cs@.len() && cs@[k] == '\n',
{
    let mut k = t;
    while k < cs.len()
        invariant
            t <= k <= cs.len(),
            forall|j: int| t <= j < k ==> cs@[j] != '\n',
        decreases cs.len() - k,
    {
        if cs[k] == '\n' {
            return true;
        }
        k += 1;
    }
    false
}

impl Dependency {
    /// See [`spec_matches`].
    pub fn matches(&self, other: &Dependency) -> (r: bool)
        ensures
            r == spec_matches(self@, other@),
    {
        self.name == other.name && (self.version.is_none() || other.version.is_none() || opt_eq(
            &self.version,
            &other.version,
        )) && (self.channel.is_none() || other.channel.is_none() || opt_eq(
            &self.channel,
            &other.channel,
        ))
    }

    /// Reads a reference; see [`parse_reference`] for the accepted text.
    pub fn from_str(s: &str) -> (r: Result<Dependency, DependencyParseError>)
        ensures
            match parse_reference(s@) {
                Some(d) => r matches Ok(x) && x@ == d,
                None => r == Err::<Dependency, DependencyParseError>(DependencyParseError::NoMatch),
            },
    {
        let cs = str_chars(s);
        let n = cs.len();
        let w = skip_space(&cs, 0);
        let a = if w < n && cs[w] != '/' {
            w
        } else if w > 0 {
            w - 1
        } else {
            return Err(DependencyParseError::NoMatch);
        };
        let f = scan(&cs, a, true, false);
        let has_version = f < n && f + 1 < n && !(cs[f + 1] == '@' || cs[f + 1] == '#' || cs[f
            + 1] == ':');
        let g = if has_version {
            scan(&cs, f + 1, false, true)
        } else {
            f
        };
        let has_channel = g < n && g + 1 < n && cs[g] == '@' && !(cs[g + 1] == '#' || cs[g + 1]
            == ':');
        let h = if has_channel {
            scan(&cs, g + 1, false, false)
        } else {
            g
        };
        let t = if h < n && (cs[h] == ':' || cs[h] == '#') {
            h + 1
        } else {
            h
        };
        if has_line_break(&cs, t) {
            return Err(DependencyParseError::NoMatch);
        }
        let name = slice_chars(&cs, a, f);
        let version = if has_version {
            Some(slice_chars(&cs, f + 1, g))
        } else {
            None
        };
        let (user, channel) = if has_channel {
            let part = sub_chars(&cs, g + 1, h);
            let k = scan(&part, 0, true, false);
            if 0 < k && k + 1 < part.len() {
                let u = sub_chars(&part, 0, k);
                let c = sub_chars(&part, k + 1, part.len());
                assert(u@ =~= part@.take(k as int));
                assert(c@ =~= part@.skip(k + 1));
                (Some(string_from_chars(&u)), Some(string_from_chars(&c)))
            } else {
                (None, Some(string_from_chars(&part)))
            }
        } else {
            (None, None)
        };
        Ok(Dependency { name, version, user, channel })
    }

    /// The text of the reference (see [`reference_text`]).
    pub fn to_string(&self) -> (r: String)
        ensures
            r@ == reference_text(self@),
    {
        let mut r = self.name.clone();
        if let Some(v) = &self.version {
            push_str(&mut r, "/");
            push_str(&mut r, v.as_str());
        }
        match (&self.user, &self.channel) {
            (Some(u), Some(c)) => {
                push_str(&mut r, "@");
                push_str(&mut r, u.as_str());
                push_str(&mut r, "/");
                push_str(&mut r, c.as_str());
            },
            (Some(u), None) => {
                push_str(&mut r, "@");
                push_str(&mut r, u.as_str());
            },
            (None, Some(c)) => {
                push_str(&mut r, "@");
                push_str(&mut r, c.as_str());
            },
            (None, None) => {},
        }
        proof {
            reveal_strlit("/");
            reveal_strlit("@");
        }
        assert(r@ =~= reference_text(self@));
        r
    }
}

} // verus!
