//! The project configuration held in `c3pg.toml`.
//!
//! The file itself is read and written outside this library; here are the
//! values it holds, the rules they obey and the operations on them.

use vstd::prelude::*;

use crate::cmake::CppStandard;
use crate::dependency::{clone_opt, opt_eq, opt_view, Dependency, DependencyView};
use crate::text::{
    lemma_seq_lt_asymmetric, lemma_seq_lt_irreflexive, lemma_seq_lt_total,
    lemma_seq_lt_transitive, owned, push_str, seq_lt, str_eq, str_lt,
};

verus! {

// ---------------------------------------------------------------------------
// Dependency value (how one entry of `[dependencies]` is written)
// ---------------------------------------------------------------------------

/// How a single dependency is written in `[dependencies]`.
///
/// Simple form: `name = "version"`;
/// detailed form: `name = { version = "...", user = "...", channel = "..." }`.
#[derive(Debug)]
pub enum DependencyValue {
    Simple(String),
    Detailed { version: String, user: Option<String>, channel: Option<String> },
}

pub enum DependencyValueView {
    Simple(Seq<char>),
    Detailed { version: Seq<char>, user: Option<Seq<char>>, channel: Option<Seq<char>> },
}

impl View for DependencyValue {
    type V = DependencyValueView;

    open spec fn view(&self) -> DependencyValueView {
        match self {
            DependencyValue::Simple(v) => DependencyValueView::Simple(v@),
            DependencyValue::Detailed { version, user, channel } => DependencyValueView::Detailed {
                version: version@,
                user: opt_view(*user),
                channel: opt_view(*channel),
            },
        }
    }
}

impl Clone for DependencyValue {
    fn clone(&self) -> (r: Self)
        ensures
            r@ == self@,
    {
        match self {
            DependencyValue::Simple(v) => DependencyValue::Simple(v.clone()),
            DependencyValue::Detailed { version, user, channel } => DependencyValue::Detailed {
                version: version.clone(),
                user: clone_opt(user),
                channel: clone_opt(channel),
            },
        }
    }
}

impl PartialEq for DependencyValue {
    fn eq(&self, other: &Self) -> (r: bool) {
        match self {
            DependencyValue::Simple(a) => match other {
                DependencyValue::Simple(b) => *a == *b,
                _ => false,
            },
            DependencyValue::Detailed { version, user, channel } => match other {
                DependencyValue::Detailed { version: v2, user: u2, channel: c2 } => *version
                    == *v2 && opt_eq(user, u2) && opt_eq(channel, c2),
                _ => false,
            },
        }
    }
}

impl vstd::std_specs::cmp::PartialEqSpecImpl for DependencyValue {
    open spec fn obeys_eq_spec() -> bool {
        true
    }

    open spec fn eq_spec(&self, other: &Self) -> bool {
        self@ == other@
    }
}

/// The entry written for a dependency: the simple form when neither user nor
/// channel is set, the detailed form otherwise; an absent version is written
/// as the empty string.
pub open spec fn value_of(d: DependencyView) -> DependencyValueView {
    let version = match d.version {
        Some(v) => v,
        None => seq![],
    };
    if d.user is Some || d.channel is Some {
        DependencyValueView::Detailed { version, user: d.user, channel: d.channel }
    } else {
        DependencyValueView::Simple(version)
    }
}

/// The dependency an entry stands for, given the package name.
pub open spec fn dependency_of(v: DependencyValueView, name: Seq<char>) -> DependencyView {
    match v {
        DependencyValueView::Simple(version) => DependencyView {
            name,
            version: Some(version),
            user: None,
            channel: None,
        },
        DependencyValueView::Detailed { version, user, channel } => DependencyView {
            name,
            version: Some(version),
            user,
            channel,
        },
    }
}

fn clone_version(v: &Option<String>) -> (r: String)
    ensures
        r@ == match opt_view(*v) {
            Some(x) => x,
            None => seq![],
        },
{
    match v {
        Some(x) => x.clone(),
        None => String::new(),
    }
}

impl DependencyValue {
    /// The entry written for `dep` (see [`value_of`]).
    pub fn from_dependency(dep: &Dependency) -> (r: Self)
        ensures
            r@ == value_of(dep@),
    {
        if dep.user.is_some() || dep.channel.is_some() {
            DependencyValue::Detailed {
                version: clone_version(&dep.version),
                user: clone_opt(&dep.user),
                channel: clone_opt(&dep.channel),
            }
        } else {
            DependencyValue::Simple(clone_version(&dep.version))
        }
    }

    /// The dependency this entry stands for (see [`dependency_of`]).
    pub fn to_dependency(&self, name: &str) -> (r: Dependency)
        ensures
            r@ == dependency_of(self@, name@),
    {
        match self {
            DependencyValue::Simple(version) => Dependency {
                name: owned(name),
                version: Some(version.clone()),
                user: None,
                channel: None,
            },
            DependencyValue::Detailed { version, user, channel } => Dependency {
                name: owned(name),
                version: Some(version.clone()),
                user: clone_opt(user),
                channel: clone_opt(channel),
            },
        }
    }
}

/// Writing a dependency with a version as an entry and reading it back under
/// its name gives the same dependency.
pub proof fn lemma_value_roundtrip(d: DependencyView)
    requires
        d.version is Some,
    ensures
        dependency_of(value_of(d), d.name) == d,
{
}

// ---------------------------------------------------------------------------
// The `[dependencies]` table
// ---------------------------------------------------------------------------

/// The `[dependencies]` table: package name to entry, kept in the order of
/// the names.
#[derive(Debug)]
pub struct DependencyMap {
    entries: Vec<(String, DependencyValue)>,
}

impl DependencyMap {
    /// The names, in order.
    pub closed spec fn key(self, i: int) -> Seq<char> {
        self.entries@[i].0@
    }

    pub closed spec fn len_spec(self) -> nat {
        self.entries@.len()
    }

    pub closed spec fn value_at(self, i: int) -> DependencyValueView {
        self.entries@[i].1@
    }

    /// The names are strictly increasing, so each occurs once.
    #[verifier::type_invariant]
    pub closed spec fn wf(self) -> bool {
        forall|i: int, j: int|
            0 <= i < j < self.entries@.len() ==> seq_lt(
                #[trigger] self.entries@[i].0@,
                #[trigger] self.entries@[j].0@,
            )
    }

    pub closed spec fn index_of(self, k: Seq<char>) -> int {
        choose|i: int| 0 <= i < self.entries@.len() && self.entries@[i].0@ == k
    }

    /// The table as a map.
    pub closed spec fn view(self) -> Map<Seq<char>, DependencyValueView> {
        Map::new(
            |k: Seq<char>| exists|i: int| 0 <= i < self.entries@.len() && self.entries@[i].0@ == k,
            |k: Seq<char>| self.entries@[self.index_of(k)].1@,
        )
    }

    proof fn lemma_unique(self, i: int, j: int)
        requires
            self.wf(),
            0 <= i < self.entries@.len(),
            0 <= j < self.entries@.len(),
            self.entries@[i].0@ == self.entries@[j].0@,
        ensures
            i == j,
    {
        if i < j {
            lemma_seq_lt_irreflexive(self.entries@[i].0@);
        } else if j < i {
            lemma_seq_lt_irreflexive(self.entries@[i].0@);
        }
    }

    /// What the map view holds at position `i`.
    pub proof fn lemma_view_at(self, i: int)
        requires
            self.wf(),
            0 <= i < self.len_spec(),
        ensures
            self.view().dom().contains(self.key(i)),
            self.view()[self.key(i)] == self.value_at(i),
    {
        let k = self.entries@[i].0@;
        assert(exists|j: int| 0 <= j < self.entries@.len() && self.entries@[j].0@ == k);
        let j = self.index_of(k);
        self.lemma_unique(i, j);
    }

    /// Every key of the map view is at some position.
    pub proof fn lemma_view_dom(self, k: Seq<char>)
        requires
            self.view().dom().contains(k),
        ensures
            exists|i: int| 0 <= i < self.len_spec() && self.key(i) == k,
    {
        let i = choose|i: int| 0 <= i < self.entries@.len() && self.entries@[i].0@ == k;
        assert(self.key(i) == k);
    }

    /// An empty table.
    pub fn new() -> (r: Self)
        ensures
            r.view() == Map::<Seq<char>, DependencyValueView>::empty(),
            r.len_spec() == 0,
    {
        let r = DependencyMap { entries: Vec::new() };
        assert(r.view() =~= Map::<Seq<char>, DependencyValueView>::empty());
        r
    }

    /// Number of entries.
    pub fn len(&self) -> (r: usize)
        ensures
            r == self.view().len(),
            r == self.len_spec(),
    {
        proof {
            use_type_invariant(self);
        }
        proof {
            self.lemma_len();
        }
        self.entries.len()
    }

    pub fn is_empty(&self) -> (r: bool)
        ensures
            r == (self.view().len() == 0),
    {
        proof {
            use_type_invariant(self);
        }
        proof {
            self.lemma_len();
        }
        self.entries.len() == 0
    }

    proof fn lemma_len(self)
        requires
            self.wf(),
        ensures
            self.view().dom().finite(),
            self.view().len() == self.entries@.len(),
    {
        let keys = self.entries@.map_values(|e: (String, DependencyValue)| e.0@);
        assert forall|i: int, j: int| 0 <= i < keys.len() && 0 <= j < keys.len() && i != j implies keys[i] != keys[j] by {
            if keys[i] == keys[j] {
                self.lemma_unique(i, j);
            }
        }
        keys.unique_seq_to_set();
        assert forall|k: Seq<char>| self.view().dom().contains(k) == keys.to_set().contains(k) by {
            if self.view().dom().contains(k) {
                let i = choose|i: int| 0 <= i < self.entries@.len() && self.entries@[i].0@ == k;
                assert(keys[i] == k);
            }
            if keys.to_set().contains(k) {
                let i = choose|i: int| 0 <= i < keys.len() && keys[i] == k;
                assert(self.entries@[i].0@ == k);
            }
        }
        assert(self.view().dom() =~= keys.to_set());
    }

    /// Position of `name`, if present.
    fn find(&self, name: &str) -> (r: Option<usize>)
        ensures
            match r {
                Some(i) => i < self.entries@.len() && self.entries@[i as int].0@ == name@,
                None => !self.view().dom().contains(name@),
            },
    {
        proof {
            use_type_invariant(self);
        }
        let mut i: usize = 0;
        while i < self.entries.len()
            invariant
                i <= self.entries@.len(),
                forall|k: int| 0 <= k < i ==> self.entries@[k].0@ != name@,
            decreases self.entries@.len() - i,
        {
            if str_eq(self.entries[i].0.as_str(), name) {
                return Some(i);
            }
            i += 1;
        }
        None
    }

    /// Whether `name` has an entry.
    pub fn contains_key(&self, name: &str) -> (r: bool)
        ensures
            r == self.view().dom().contains(name@),
    {
        proof {
            use_type_invariant(self);
        }
        match self.find(name) {
            Some(i) => {
                proof {
                    self.lemma_view_at(i as int);
                }
                true
            },
            None => false,
        }
    }

    /// The entry of `name`, if any.
    pub fn get(&self, name: &str) -> (r: Option<&DependencyValue>)
        ensures
            match r {
                Some(v) => self.view().dom().contains(name@) && self.view()[name@] == v@,
                None => !self.view().dom().contains(name@),
            },
    {
        proof {
            use_type_invariant(self);
        }
        match self.find(name) {
            Some(i) => {
                proof {
                    self.lemma_view_at(i as int);
                }
                Some(&self.entries[i].1)
            },
            None => None,
        }
    }

    /// The first position whose name does not sort before `name`.
    fn lower_bound(&self, name: &str) -> (r: usize)
        ensures
            r <= self.entries@.len(),
            forall|k: int| 0 <= k < r ==> seq_lt(#[trigger] self.entries@[k].0@, name@),
            r < self.entries@.len() ==> !seq_lt(self.entries@[r as int].0@, name@),
    {
        let mut i: usize = 0;
        let mut done = false;
        while i < self.entries.len() && !done
            invariant
                i <= self.entries@.len(),
                forall|k: int| 0 <= k < i ==> seq_lt(#[trigger] self.entries@[k].0@, name@),
                done ==> i < self.entries@.len() && !seq_lt(self.entries@[i as int].0@, name@),
            decreases self.entries@.len() - i + (if done { 0int } else { 1int }),
        {
            if str_lt(self.entries[i].0.as_str(), name) {
                i += 1;
            } else {
                done = true;
            }
        }
        i
    }

    /// Sets the entry of `name`, replacing any earlier one.
    pub fn insert(&mut self, name: &str, value: DependencyValue)
        ensures
            final(self).view() == old(self).view().insert(name@, value@),
    {
        proof {
            use_type_invariant(&*self);
        }
        let ghost v = value@;
        let ghost before = *self;
        let i = self.lower_bound(name);
        let mut e: Vec<(String, DependencyValue)> = Vec::new();
        std::mem::swap(&mut e, &mut self.entries);
        assert(e@ == before.entries@);
        let ghost this = DependencyMap { entries: e };
        if i < e.len() && str_eq(e[i].0.as_str(), name) {
            e.set(i, (owned(name), value));
            let ghost after = DependencyMap { entries: e };
            proof {
                let m1 = after.view();
                let m2 = before.view().insert(name@, v);
                assert(after.entries@ == before.entries@.update(i as int, after.entries@[i as int]));
                assert(after.wf()) by {
                    assert forall|a: int, b: int| 0 <= a < b < after.entries@.len() implies seq_lt(
                        #[trigger] after.entries@[a].0@,
                        #[trigger] after.entries@[b].0@,
                    ) by {
                        assert(before.entries@[a].0@ == after.entries@[a].0@);
                        assert(before.entries@[b].0@ == after.entries@[b].0@);
                    }
                }
                assert forall|k: Seq<char>| m1.dom().contains(k) == m2.dom().contains(k) by {
                    if m1.dom().contains(k) {
                        after.lemma_view_dom(k);
                        let j = choose|j: int| 0 <= j < after.len_spec() && after.key(j) == k;
                        if j != i {
                            before.lemma_view_at(j);
                        }
                    }
                    if m2.dom().contains(k) && k != name@ {
                        before.lemma_view_dom(k);
                        let j = choose|j: int| 0 <= j < before.len_spec() && before.key(j) == k;
                        after.lemma_view_at(j);
                    }
                    if k == name@ {
                        after.lemma_view_at(i as int);
                    }
                }
                assert forall|k: Seq<char>| m1.dom().contains(k) implies m1[k] == m2[k] by {
                    after.lemma_view_dom(k);
                    let j = choose|j: int| 0 <= j < after.len_spec() && after.key(j) == k;
                    after.lemma_view_at(j);
                    if j != i {
                        if k == name@ {
                            after.lemma_unique(i as int, j);
                        }
                        before.lemma_view_at(j);
                    }
                }
                assert(m1 =~= m2);
            }
        } else {
            e.insert(i, (owned(name), value));
            let ghost after = DependencyMap { entries: e };
            proof {
                let m1 = after.view();
                let m2 = before.view().insert(name@, v);
                assert(forall|k: int| 0 <= k < i ==> after.entries@[k] == before.entries@[k]);
                assert(forall|k: int|
                    i < k < after.entries@.len() ==> after.entries@[k] == before.entries@[k - 1]);
                if i < before.entries@.len() {
                    lemma_seq_lt_total(before.entries@[i as int].0@, name@);
                }
                assert(after.wf()) by {
                    assert forall|a: int, b: int| 0 <= a < b < after.entries@.len() implies seq_lt(
                        #[trigger] after.entries@[a].0@,
                        #[trigger] after.entries@[b].0@,
                    ) by {
                        if b < i {
                        } else if b == i {
                        } else if a < i {
                            lemma_seq_lt_transitive(after.entries@[a].0@, name@, before.entries@[i as int].0@);
                            if b - 1 > i {
                                lemma_seq_lt_transitive(
                                    after.entries@[a].0@,
                                    before.entries@[i as int].0@,
                                    before.entries@[b - 1].0@,
                                );
                            }
                        } else if a == i {
                            if b - 1 > i {
                                lemma_seq_lt_transitive(name@, before.entries@[i as int].0@, before.entries@[b - 1].0@);
                            }
                        } else {
                        }
                    }
                }
                assert forall|k: Seq<char>| m1.dom().contains(k) == m2.dom().contains(k) by {
                    if m1.dom().contains(k) {
                        after.lemma_view_dom(k);
                        let j = choose|j: int| 0 <= j < after.len_spec() && after.key(j) == k;
                        if j < i {
                            before.lemma_view_at(j);
                        } else if j > i {
                            before.lemma_view_at(j - 1);
                        }
                    }
                    if m2.dom().contains(k) && k != name@ {
                        before.lemma_view_dom(k);
                        let j = choose|j: int| 0 <= j < before.len_spec() && before.key(j) == k;
                        if j < i {
                            after.lemma_view_at(j);
                        } else {
                            after.lemma_view_at(j + 1);
                        }
                    }
                    if k == name@ {
                        after.lemma_view_at(i as int);
                    }
                }
                assert forall|k: Seq<char>| m1.dom().contains(k) implies m1[k] == m2[k] by {
                    after.lemma_view_dom(k);
                    let j = choose|j: int| 0 <= j < after.len_spec() && after.key(j) == k;
                    after.lemma_view_at(j);
                    if j < i {
                        before.lemma_view_at(j);
                        lemma_seq_lt_asymmetric(k, name@);
                    } else if j > i {
                        before.lemma_view_at(j - 1);
                        assert(seq_lt(after.entries@[i as int].0@, after.entries@[j].0@));
                        lemma_seq_lt_asymmetric(name@, k);
                    }
                }
                assert(m1 =~= m2);
            }
        }
        self.entries = e;
        assert(self.view() == before.view().insert(name@, v));
    }

    /// Removes the entry of `name`; whether there was one.
    pub fn remove(&mut self, name: &str) -> (r: bool)
        ensures
            final(self).view() == old(self).view().remove(name@),
            r == old(self).view().dom().contains(name@),
    {
        proof {
            use_type_invariant(&*self);
        }
        let ghost before = *self;
        let found = self.find(name);
        let mut e: Vec<(String, DependencyValue)> = Vec::new();
        std::mem::swap(&mut e, &mut self.entries);
        assert(e@ == before.entries@);
        let ghost this = DependencyMap { entries: e };
        match found {
            None => {
                self.entries = e;
                assert(self.view() =~= before.view().remove(name@));
                false
            },
            Some(i) => {
                proof {
                    before.lemma_view_at(i as int);
                }
                e.remove(i);
                let ghost after = DependencyMap { entries: e };
                proof {
                    let m1 = after.view();
                    let m2 = before.view().remove(name@);
                    assert(forall|k: int| 0 <= k < i ==> after.entries@[k] == before.entries@[k]);
                    assert(forall|k: int|
                        i <= k < after.entries@.len() ==> after.entries@[k] == before.entries@[k + 1]);
                    assert(after.wf()) by {
                        assert forall|a: int, b: int| 0 <= a < b < after.entries@.len() implies seq_lt(
                            #[trigger] after.entries@[a].0@,
                            #[trigger] after.entries@[b].0@,
                        ) by {
                            if a < i && b >= i {
                                assert(before.entries@[a].0@ == after.entries@[a].0@);
                                assert(before.entries@[b + 1].0@ == after.entries@[b].0@);
                            } else if a >= i {
                                assert(before.entries@[a + 1].0@ == after.entries@[a].0@);
                                assert(before.entries@[b + 1].0@ == after.entries@[b].0@);
                            }
                        }
                    }
                    assert forall|k: Seq<char>| m1.dom().contains(k) == m2.dom().contains(k) by {
                        if m1.dom().contains(k) {
                            after.lemma_view_dom(k);
                            let j = choose|j: int| 0 <= j < after.len_spec() && after.key(j) == k;
                            if j < i {
                                before.lemma_view_at(j);
                                assert(before.entries@[j].0@ != before.entries@[i as int].0@) by {
                                    if before.entries@[j].0@ == before.entries@[i as int].0@ {
                                        before.lemma_unique(j, i as int);
                                    }
                                }
                            } else {
                                before.lemma_view_at(j + 1);
                                assert(before.entries@[j + 1].0@ != before.entries@[i as int].0@) by {
                                    if before.entries@[j + 1].0@ == before.entries@[i as int].0@ {
                                        before.lemma_unique(j + 1, i as int);
                                    }
                                }
                            }
                        }
                        if m2.dom().contains(k) {
                            before.lemma_view_dom(k);
                            let j = choose|j: int| 0 <= j < before.len_spec() && before.key(j) == k;
                            if j < i {
                                after.lemma_view_at(j);
                            } else if j > i {
                                after.lemma_view_at(j - 1);
                            }
                        }
                    }
                    assert forall|k: Seq<char>| m1.dom().contains(k) implies m1[k] == m2[k] by {
                        after.lemma_view_dom(k);
                        let j = choose|j: int| 0 <= j < after.len_spec() && after.key(j) == k;
                        after.lemma_view_at(j);
                        if j < i {
                            before.lemma_view_at(j);
                        } else {
                            before.lemma_view_at(j + 1);
                        }
                    }
                    assert(m1 =~= m2);
                }
                self.entries = e;
                assert(self.view() == after.view());
                true
            },
        }
    }

    /// The entries, in the order of their names.
    pub fn entries(&self) -> (r: &Vec<(String, DependencyValue)>)
        ensures
            r@.len() == self.len_spec(),
            forall|i: int| 0 <= i < r@.len() ==> r@[i].0@ == self.key(i) && r@[i].1@ == self.value_at(i),
            forall|i: int, j: int| 0 <= i < j < r@.len() ==> seq_lt(#[trigger] self.key(i), #[trigger] self.key(j)),
            forall|i: int|
                0 <= i < r@.len() ==> self.view().dom().contains(#[trigger] self.key(i)) && self.view()[self.key(
                    i,
                )] == self.value_at(i),
            forall|k: Seq<char>| self.view().dom().contains(k) ==> exists|i: int| 0 <= i < r@.len() && #[trigger] self.key(i) == k,
    {
        proof {
            use_type_invariant(self);
            assert forall|i: int| 0 <= i < self.entries@.len() implies self.view().dom().contains(
                #[trigger] self.key(i),
            ) && self.view()[self.key(i)] == self.value_at(i) by {
                self.lemma_view_at(i);
            }
            assert forall|k: Seq<char>| self.view().dom().contains(k) implies exists|i: int|
                0 <= i < self.entries@.len() && #[trigger] self.key(i) == k by {
                self.lemma_view_dom(k);
            }
        }
        &self.entries
    }
}

// ---------------------------------------------------------------------------
// Sections of the configuration
// ---------------------------------------------------------------------------

/// `[project]`: name, C++ standard and build cache directory.
#[derive(Debug)]
pub struct Project {
    pub name: String,
    pub standard: CppStandard,
    pub cache_dir: String,
}

impl Project {
    /// "build".
    pub fn default_cache_dir() -> (r: String)
        ensures
            r@ == "build"@,
    {
        owned("build")
    }

    /// Whether `dir` is the default cache directory.
    pub fn is_default_cache_dir(dir: &String) -> (r: bool)
        ensures
            r == (dir@ == "build"@),
    {
        str_eq(dir.as_str(), "build")
    }
}

impl Default for Project {
    fn default() -> (r: Self)
        ensures
            r.name@ == "sandbox"@,
            r.standard == CppStandard::Cpp20,
            r.cache_dir@ == "build"@,
    {
        Project { name: owned("sandbox"), standard: CppStandard::Cpp20, cache_dir: Self::default_cache_dir() }
    }
}

/// `[cmake]`.
#[derive(Debug, Clone, Copy)]
pub struct CMakeConfig {
    pub export_compile_commands: bool,
}

impl Default for CMakeConfig {
    fn default() -> (r: Self)
        ensures
            r.export_compile_commands,
    {
        CMakeConfig { export_compile_commands: true }
    }
}

impl CMakeConfig {
    /// Whether every field has its default value.
    pub fn is_default(&self) -> (r: bool)
        ensures
            r == self.export_compile_commands,
    {
        self.export_compile_commands
    }
}

/// `[conan]`: the Conan program and an optional remote.
#[derive(Debug)]
pub struct ConanConfig {
    pub bin: String,
    pub remote: Option<String>,
}

impl Default for ConanConfig {
    fn default() -> (r: Self)
        ensures
            r.bin@ == "conan"@,
            r.remote is None,
    {
        ConanConfig { bin: owned("conan"), remote: None }
    }
}

impl ConanConfig {
    /// Whether every field has its default value.
    pub fn is_default(&self) -> (r: bool)
        ensures
            r == (self.bin@ == "conan"@ && self.remote is None),
    {
        str_eq(self.bin.as_str(), "conan") && self.remote.is_none()
    }
}

/// `[testing]`: the directory of the test sources.
#[derive(Debug)]
pub struct TestingConfig {
    pub dir: String,
}

impl Default for TestingConfig {
    fn default() -> (r: Self)
        ensures
            r.dir@ == "tests"@,
    {
        TestingConfig { dir: owned("tests") }
    }
}

impl TestingConfig {
    /// Whether every field has its default value.
    pub fn is_default(&self) -> (r: bool)
        ensures
            r == (self.dir@ == "tests"@),
    {
        str_eq(self.dir.as_str(), "tests")
    }
}

/// The kind of artifact a target produces.
#[derive(Debug, Clone, Copy, PartialEq, Eq)]
pub enum TargetType {
    Executable,
    StaticLibrary,
}

/// A library target declared in `[[lib]]`.
#[derive(Debug)]
pub struct LibConfig {
    pub name: String,
    pub sources: Vec<String>,
    pub public_include: Vec<String>,
    pub link: Vec<String>,
}

/// An executable target declared in `[[bin]]`.
#[derive(Debug)]
pub struct BinConfig {
    pub name: String,
    pub sources: Vec<String>,
    pub link: Vec<String>,
}

/// A target ready for CMake generation: its source entries have been
/// expanded to files.
#[derive(Debug)]
pub struct EffectiveTarget {
    pub name: String,
    pub target_type: TargetType,
    pub source_files: Vec<String>,
    pub public_include: Vec<String>,
    pub link: Vec<String>,
}

/// The whole of `c3pg.toml`.
#[derive(Debug)]
pub struct Config {
    pub project: Project,
    pub dependencies: DependencyMap,
    pub lib: Vec<LibConfig>,
    pub bin: Vec<BinConfig>,
    pub cmake: CMakeConfig,
    pub conan: ConanConfig,
    pub testing: TestingConfig,
}

impl Default for Config {
    fn default() -> (r: Self)
        ensures
            r.project.name@ == "sandbox"@,
            r.project.standard == CppStandard::Cpp20,
            r.project.cache_dir@ == "build"@,
            r.dependencies.view() == Map::<Seq<char>, DependencyValueView>::empty(),
            r.lib@.len() == 0,
            r.bin@.len() == 0,
            r.cmake.export_compile_commands,
            r.conan.bin@ == "conan"@,
            r.conan.remote is None,
            r.testing.dir@ == "tests"@,
    {
        Config {
            project: Project::default(),
            dependencies: DependencyMap::new(),
            lib: Vec::new(),
            bin: Vec::new(),
            cmake: CMakeConfig::default(),
            conan: ConanConfig::default(),
            testing: TestingConfig::default(),
        }
    }
}

impl Config {
    /// The dependencies, in the order of their names.
    pub fn dependency_vec(&self) -> (r: Vec<Dependency>)
        ensures
            r@.len() == self.dependencies.len_spec(),
            forall|i: int|
                0 <= i < r@.len() ==> #[trigger] r@[i]@ == dependency_of(
                    self.dependencies.value_at(i),
                    self.dependencies.key(i),
                ),
            forall|i: int, j: int| 0 <= i < j < r@.len() ==> seq_lt(#[trigger] r@[i]@.name, #[trigger] r@[j]@.name),
            forall|i: int|
                0 <= i < r@.len() ==> self.dependencies.view().dom().contains(#[trigger] r@[i]@.name)
                    && r@[i]@ == dependency_of(self.dependencies.view()[r@[i]@.name], r@[i]@.name),
            forall|k: Seq<char>|
                self.dependencies.view().dom().contains(k) ==> exists|i: int| 0 <= i < r@.len() && #[trigger] r@[i]@.name == k,
    {
        let es = self.dependencies.entries();
        let mut r: Vec<Dependency> = Vec::new();
        let mut i: usize = 0;
        while i < es.len()
            invariant
                i <= es@.len(),
                es@.len() == self.dependencies.len_spec(),
                forall|k: int| 0 <= k < es@.len() ==> es@[k].0@ == self.dependencies.key(k) && es@[k].1@ == self.dependencies.value_at(k),
                r@.len() == i,
                forall|k: int|
                    0 <= k < i ==> #[trigger] r@[k]@ == dependency_of(
                        self.dependencies.value_at(k),
                        self.dependencies.key(k),
                    ),
            decreases es@.len() - i,
        {
            r.push(es[i].1.to_dependency(es[i].0.as_str()));
            i += 1;
        }
        proof {
            assert forall|i: int, j: int| 0 <= i < j < r@.len() implies seq_lt(
                #[trigger] r@[i]@.name,
                #[trigger] r@[j]@.name,
            ) by {
                assert(r@[i]@.name == self.dependencies.key(i));
                assert(r@[j]@.name == self.dependencies.key(j));
            }
            assert forall|k: Seq<char>| self.dependencies.view().dom().contains(k) implies exists|i: int|
                0 <= i < r@.len() && #[trigger] r@[i]@.name == k by {
                let i = choose|i: int| 0 <= i < es@.len() && #[trigger] self.dependencies.key(i) == k;
                assert(r@[i]@.name == k);
            }
        }
        r
    }

    /// Inserts or replaces the entry of `dep.name`.
    pub fn add_dependency(&mut self, dep: &Dependency)
        ensures
            final(self).dependencies.view() == old(self).dependencies.view().insert(
                dep@.name,
                value_of(dep@),
            ),
            final(self).project == old(self).project,
            final(self).lib == old(self).lib,
            final(self).bin == old(self).bin,
    {
        let value = DependencyValue::from_dependency(dep);
        self.dependencies.insert(dep.name.as_str(), value);
    }

    /// Whether a dependency with the given name exists.
    pub fn has_dependency(&self, name: &str) -> (r: bool)
        ensures
            r == self.dependencies.view().dom().contains(name@),
    {
        self.dependencies.contains_key(name)
    }

    /// Removes the dependency with the given name; whether there was one.
    pub fn remove_dependency(&mut self, name: &str) -> (r: bool)
        ensures
            final(self).dependencies.view() == old(self).dependencies.view().remove(name@),
            r == old(self).dependencies.view().dom().contains(name@),
            final(self).project == old(self).project,
    {
        self.dependencies.remove(name)
    }
}

/// After adding a dependency, the table has an entry under its name that
/// reads back as the dependency (when it has a version), and the other
/// entries are unchanged.
pub proof fn lemma_add_then_lookup(
    before: Map<Seq<char>, DependencyValueView>,
    dep: DependencyView,
    other: Seq<char>,
)
    ensures
        before.insert(dep.name, value_of(dep)).dom().contains(dep.name),
        dep.version is Some ==> dependency_of(before.insert(dep.name, value_of(dep))[dep.name], dep.name) == dep,
        other != dep.name ==> before.insert(dep.name, value_of(dep)).dom().contains(other) == before.dom().contains(other),
        other != dep.name && before.dom().contains(other) ==> before.insert(dep.name, value_of(dep))[other] == before[other],
{
}

/// After removing a dependency the table has no entry under its name, the
/// other entries are unchanged, and adding it back restores what was there
/// when it was absent before.
pub proof fn lemma_remove_then_absent(
    before: Map<Seq<char>, DependencyValueView>,
    name: Seq<char>,
    other: Seq<char>,
)
    ensures
        !before.remove(name).dom().contains(name),
        other != name ==> before.remove(name).dom().contains(other) == before.dom().contains(other),
        other != name && before.dom().contains(other) ==> before.remove(name)[other] == before[other],
        !before.dom().contains(name) ==> before.remove(name) == before,
{
    if !before.dom().contains(name) {
        assert(before.remove(name) =~= before);
    }
}

// ---------------------------------------------------------------------------
// Target validation
// ---------------------------------------------------------------------------

/// Why the `[[lib]]` and `[[bin]]` declarations are rejected.
#[derive(Debug)]
pub enum TargetError {
    /// Two targets share a name.
    DuplicateName(String),
    /// A library links to something that is not a declared library.
    LibraryLinkUnknown { lib: String, link: String },
    /// An executable links to something that is not a declared library.
    ExecutableLinkUnknown { bin: String, link: String },
    /// The named library is on a cycle of links.
    Cycle(String),
}

impl TargetError {
    pub open spec fn message(&self) -> Seq<char> {
        match self {
            TargetError::DuplicateName(n) => "duplicate target name: '"@ + n@ + "'"@,
            TargetError::LibraryLinkUnknown { lib, link } => "library '"@ + lib@ + "' links to '"@
                + link@ + "', which is not a declared [[lib]] target"@,
            TargetError::ExecutableLinkUnknown { bin, link } => "executable '"@ + bin@
                + "' links to '"@ + link@ + "', which is not a declared [[lib]] target"@,
            TargetError::Cycle(n) => "dependency cycle detected involving target '"@ + n@ + "'"@,
        }
    }

    /// The error message.
    pub fn to_string(&self) -> (r: String)
        ensures
            r@ == self.message(),
    {
        let mut m = String::new();
        match self {
            TargetError::DuplicateName(n) => {
                push_str(&mut m, "duplicate target name: '");
                push_str(&mut m, n.as_str());
                push_str(&mut m, "'");
            },
            TargetError::LibraryLinkUnknown { lib, link } => {
                push_str(&mut m, "library '");
                push_str(&mut m, lib.as_str());
                push_str(&mut m, "' links to '");
                push_str(&mut m, link.as_str());
                push_str(&mut m, "', which is not a declared [[lib]] target");
            },
            TargetError::ExecutableLinkUnknown { bin, link } => {
                push_str(&mut m, "executable '");
                push_str(&mut m, bin.as_str());
                push_str(&mut m, "' links to '");
                push_str(&mut m, link.as_str());
                push_str(&mut m, "', which is not a declared [[lib]] target");
            },
            TargetError::Cycle(n) => {
                push_str(&mut m, "dependency cycle detected involving target '");
                push_str(&mut m, n.as_str());
                push_str(&mut m, "'");
            },
        }
        assert(m@ =~= self.message());
        m
    }
}

pub open spec fn lib_names(libs: Seq<LibConfig>) -> Seq<Seq<char>> {
    libs.map_values(|l: LibConfig| l.name@)
}

pub open spec fn bin_names(bins: Seq<BinConfig>) -> Seq<Seq<char>> {
    bins.map_values(|b: BinConfig| b.name@)
}

/// All target names: the libraries', then the executables'.
pub open spec fn all_names(libs: Seq<LibConfig>, bins: Seq<BinConfig>) -> Seq<Seq<char>> {
    lib_names(libs) + bin_names(bins)
}

pub open spec fn has_duplicate(ns: Seq<Seq<char>>) -> bool {
    exists|i: int, j: int| 0 <= i < j < ns.len() && ns[i] == ns[j]
}

/// `j` is the first position whose name occurred before.
pub open spec fn first_duplicate_at(ns: Seq<Seq<char>>, j: int) -> bool {
    &&& 0 <= j < ns.len()
    &&& exists|i: int| 0 <= i < j && ns[i] == ns[j]
    &&& !has_duplicate(ns.take(j))
}

/// Link `k` of library `i` names no declared library.
pub open spec fn lib_link_unknown(libs: Seq<LibConfig>, i: int, k: int) -> bool {
    &&& 0 <= i < libs.len()
    &&& 0 <= k < libs[i].link@.len()
    &&& !lib_names(libs).contains(libs[i].link@[k]@)
}

pub open spec fn some_lib_link_unknown(libs: Seq<LibConfig>) -> bool {
    exists|i: int, k: int| lib_link_unknown(libs, i, k)
}

/// The first unknown library link, in the order of the declarations.
pub open spec fn first_lib_link_unknown(libs: Seq<LibConfig>, i: int, k: int) -> bool {
    &&& lib_link_unknown(libs, i, k)
    &&& forall|a: int, b: int| (a < i || (a == i && b < k)) ==> !lib_link_unknown(libs, a, b)
}

/// Link `k` of executable `i` names no declared library.
pub open spec fn bin_link_unknown(libs: Seq<LibConfig>, bins: Seq<BinConfig>, i: int, k: int) -> bool {
    &&& 0 <= i < bins.len()
    &&& 0 <= k < bins[i].link@.len()
    &&& !lib_names(libs).contains(bins[i].link@[k]@)
}

pub open spec fn some_bin_link_unknown(libs: Seq<LibConfig>, bins: Seq<BinConfig>) -> bool {
    exists|i: int, k: int| bin_link_unknown(libs, bins, i, k)
}

pub open spec fn first_bin_link_unknown(libs: Seq<LibConfig>, bins: Seq<BinConfig>, i: int, k: int) -> bool {
    &&& bin_link_unknown(libs, bins, i, k)
    &&& forall|a: int, b: int| (a < i || (a == i && b < k)) ==> !bin_link_unknown(libs, bins, a, b)
}

/// Library `i` links to library `j`.
pub open spec fn lib_edge(libs: Seq<LibConfig>, i: int, j: int) -> bool {
    &&& 0 <= i < libs.len()
    &&& 0 <= j < libs.len()
    &&& exists|k: int| 0 <= k < libs[i].link@.len() && libs[i].link@[k]@ == libs[j].name@
}

/// `p` is a closed walk of at least one step over nodes `0..n`.
pub open spec fn is_cycle_in(p: Seq<int>, n: int, edge: spec_fn(int, int) -> bool) -> bool {
    &&& p.len() >= 2
    &&& p[0] == p.last()
    &&& forall|t: int| #![trigger p[t]] 0 <= t < p.len() ==> 0 <= p[t] < n
    &&& forall|t: int| #![trigger p[t]] 0 <= t < p.len() - 1 ==> edge(p[t], p[t + 1])
}

pub open spec fn lib_edges(libs: Seq<LibConfig>) -> spec_fn(int, int) -> bool {
    |i: int, j: int| lib_edge(libs, i, j)
}

/// Library `i` can reach itself by following links.
pub open spec fn on_cycle(libs: Seq<LibConfig>, i: int) -> bool {
    exists|p: Seq<int>| is_cycle_in(p, libs.len() as int, lib_edges(libs)) && p[0] == i
}

/// No library can reach itself by following links.
pub open spec fn acyclic(libs: Seq<LibConfig>) -> bool {
    forall|i: int| 0 <= i < libs.len() ==> !on_cycle(libs, i)
}

// --- the search -------------------------------------------------------------

pub open spec fn adj_edge(adj: Seq<Vec<usize>>, u: int, v: int) -> bool {
    0 <= u < adj.len() && exists|k: int| 0 <= k < adj[u]@.len() && adj[u]@[k] == v
}

pub open spec fn adj_edges(adj: Seq<Vec<usize>>) -> spec_fn(int, int) -> bool {
    |u: int, v: int| adj_edge(adj, u, v)
}

pub open spec fn adj_ok(adj: Seq<Vec<usize>>) -> bool {
    forall|u: int, k: int| 0 <= u < adj.len() && 0 <= k < adj[u]@.len() ==> #[trigger] adj[u]@[k] < adj.len()
}

pub open spec fn states_ok(state: Seq<u8>) -> bool {
    forall|v: int| 0 <= v < state.len() ==> #[trigger] state[v] <= 2
}

/// The nodes in progress are exactly those on `stk`, which is a walk.
pub open spec fn stack_ok(adj: Seq<Vec<usize>>, state: Seq<u8>, stk: Seq<int>) -> bool {
    &&& forall|t: int| 0 <= t < stk.len() ==> 0 <= #[trigger] stk[t] < state.len() && state[stk[t]] == 1
    &&& forall|v: int| 0 <= v < state.len() && #[trigger] state[v] == 1 ==> stk.contains(v)
    &&& forall|t: int| #![trigger stk[t]] 0 <= t < stk.len() - 1 ==> adj_edge(adj, stk[t], stk[t + 1])
}

/// Finished nodes only lead to finished nodes of smaller rank.
pub open spec fn done_ok(adj: Seq<Vec<usize>>, state: Seq<u8>, rank: Seq<int>) -> bool {
    forall|v: int, k: int|
        0 <= v < state.len() && state[v] == 2 && 0 <= k < adj[v]@.len() ==> state[#[trigger] adj[v]@[k] as int]
            == 2 && rank[adj[v]@[k] as int] < rank[v]
}

pub open spec fn count_zero(s: Seq<u8>) -> nat
    decreases s.len(),
{
    if s.len() == 0 {
        0
    } else {
        count_zero(s.drop_last()) + if s.last() == 0 {
            1nat
        } else {
            0nat
        }
    }
}

proof fn lemma_count_zero_mono(a: Seq<u8>, b: Seq<u8>)
    requires
        a.len() == b.len(),
        forall|i: int| 0 <= i < b.len() && b[i] == 0 ==> a[i] == 0,
    ensures
        count_zero(b) <= count_zero(a),
    decreases a.len(),
{
    if a.len() > 0 {
        lemma_count_zero_mono(a.drop_last(), b.drop_last());
    }
}

proof fn lemma_count_zero_strict(a: Seq<u8>, b: Seq<u8>, w: int)
    requires
        a.len() == b.len(),
        forall|i: int| 0 <= i < b.len() && b[i] == 0 ==> a[i] == 0,
        0 <= w < a.len(),
        a[w] == 0,
        b[w] != 0,
    ensures
        count_zero(b) < count_zero(a),
    decreases a.len(),
{
    if w == a.len() - 1 {
        lemma_count_zero_mono(a.drop_last(), b.drop_last());
    } else {
        lemma_count_zero_strict(a.drop_last(), b.drop_last(), w);
    }
}

/// Along a walk through finished nodes the rank strictly decreases.
proof fn lemma_walk_rank(adj: Seq<Vec<usize>>, state: Seq<u8>, rank: Seq<int>, p: Seq<int>)
    requires
        done_ok(adj, state, rank),
        adj.len() == state.len(),
        p.len() >= 2,
        forall|t: int| #![trigger p[t]] 0 <= t < p.len() ==> 0 <= p[t] < state.len() && state[p[t]] == 2,
        forall|t: int| #![trigger p[t]] 0 <= t < p.len() - 1 ==> adj_edge(adj, p[t], p[t + 1]),
    ensures
        rank[p.last()] < rank[p[0]],
    decreases p.len(),
{
    assert(adj_edge(adj, p[0], p[1]));
    let k = choose|k: int| 0 <= k < adj[p[0]]@.len() && adj[p[0]]@[k] == p[1];
    assert(state[adj[p[0]]@[k] as int] == 2 && rank[adj[p[0]]@[k] as int] < rank[p[0]]);
    if p.len() > 2 {
        let q = p.drop_first();
        assert forall|t: int| #![trigger q[t]] 0 <= t < q.len() - 1 implies adj_edge(adj, q[t], q[t + 1]) by {
            assert(q[t] == p[t + 1]);
            assert(q[t + 1] == p[t + 2]);
            assert(adj_edge(adj, p[t + 1], p[t + 2]));
        }
        assert forall|t: int| #![trigger q[t]] 0 <= t < q.len() implies 0 <= q[t] < state.len() && state[q[t]] == 2 by {
            assert(q[t] == p[t + 1]);
        }
        lemma_walk_rank(adj, state, rank, q);
    }
}

/// Depth-first search from `u`: `Err(w)` names a node on a cycle.
#[verifier::spinoff_prover]
#[verifier::rlimit(40)]
fn visit(
    adj: &Vec<Vec<usize>>,
    u: usize,
    state: &mut Vec<u8>,
    Ghost(stk): Ghost<Seq<int>>,
    Ghost(rank): Ghost<Seq<int>>,
    Ghost(ctr): Ghost<int>,
) -> (res: (Result<(), usize>, Ghost<Seq<int>>, Ghost<int>))
    requires
        adj_ok(adj@),
        old(state)@.len() == adj@.len(),
        rank.len() == adj@.len(),
        u < adj@.len(),
        old(state)@[u as int] == 0,
        states_ok(old(state)@),
        stack_ok(adj@, old(state)@, stk),
        stk.len() > 0 ==> adj_edge(adj@, stk.last(), u as int),
        done_ok(adj@, old(state)@, rank),
        forall|v: int| 0 <= v < adj@.len() && old(state)@[v] == 2 ==> rank[v] < ctr,
    ensures
        final(state)@.len() == adj@.len(),
        res.1@.len() == adj@.len(),
        res.0 is Ok ==> {
            &&& states_ok(final(state)@)
            &&& final(state)@[u as int] == 2
            &&& forall|v: int| 0 <= v < adj@.len() ==> (#[trigger] final(state)@[v] == 1 <==> old(state)@[v] == 1)
            &&& forall|v: int| 0 <= v < adj@.len() && old(state)@[v] == 2 ==> #[trigger] final(state)@[v] == 2 && res.1@[v] == rank[v]
            &&& forall|v: int| 0 <= v < adj@.len() && #[trigger] final(state)@[v] == 0 ==> old(state)@[v] == 0
            &&& done_ok(adj@, final(state)@, res.1@)
            &&& forall|v: int| 0 <= v < adj@.len() && #[trigger] final(state)@[v] == 2 ==> res.1@[v] < res.2@
            &&& res.2@ >= ctr
        },
        res.0 matches Err(w) ==> w < adj@.len() && exists|p: Seq<int>| #[trigger] is_cycle_in(p, adj@.len() as int, adj_edges(adj@)) && p[0] == w,
    decreases count_zero(old(state)@),
{
    let ghost entry = state@;
    state.set(u, 1);
    let ghost stk2 = stk.push(u as int);
    let ghost mut rk = rank;
    let ghost mut c = ctr;
    proof {
        lemma_count_zero_strict(entry, state@, u as int);
        assert(stack_ok(adj@, state@, stk2)) by {
            assert forall|v: int| 0 <= v < state@.len() && #[trigger] state@[v] == 1 implies stk2.contains(v) by {
                if v != u {
                    assert(stk.contains(v));
                    let t = choose|t: int| 0 <= t < stk.len() && stk[t] == v;
                    assert(stk2[t] == v);
                } else {
                    assert(stk2[stk.len() as int] == v);
                }
            }
            assert forall|t: int| #![trigger stk2[t]] 0 <= t < stk2.len() - 1 implies adj_edge(adj@, stk2[t], stk2[t + 1]) by {
                if t < stk.len() - 1 {
                    assert(stk2[t] == stk[t] && stk2[t + 1] == stk[t + 1]);
                } else {
                    assert(stk2[t] == stk.last());
                }
            }
        }
    }
    let mut k: usize = 0;
    while k < adj[u].len()
        invariant
            adj_ok(adj@),
            u < adj@.len(),
            state@.len() == adj@.len(),
            rk.len() == adj@.len(),
            states_ok(state@),
            state@[u as int] == 1,
            entry[u as int] == 0,
            entry.len() == adj@.len(),
            entry == old(state)@,
            rank.len() == adj@.len(),
            stk2 == stk.push(u as int),
            stack_ok(adj@, state@, stk2),
            forall|v: int| 0 <= v < adj@.len() ==> (#[trigger] state@[v] == 1 <==> (entry[v] == 1 || v == u)),
            forall|v: int| 0 <= v < adj@.len() && entry[v] == 2 ==> #[trigger] state@[v] == 2 && rk[v] == rank[v],
            forall|v: int| 0 <= v < adj@.len() && #[trigger] state@[v] == 0 ==> entry[v] == 0,
            done_ok(adj@, state@, rk),
            forall|v: int| 0 <= v < adj@.len() && #[trigger] state@[v] == 2 ==> rk[v] < c,
            c >= ctr,
            k <= adj@[u as int]@.len(),
            forall|j: int| 0 <= j < k ==> state@[#[trigger] adj@[u as int]@[j] as int] == 2,
            count_zero(state@) < count_zero(entry),
        decreases adj@[u as int]@.len() - k,
    {
        let w = adj[u][k];
        if state[w] == 1 {
            proof {
                let m = choose|t: int| 0 <= t < stk2.len() && stk2[t] == w;
                let p = stk2.subrange(m, stk2.len() as int).push(w as int);
                assert(adj_edge(adj@, u as int, w as int));
                assert forall|t: int| #![trigger p[t]] 0 <= t < p.len() - 1 implies adj_edges(adj@)(p[t], p[t + 1]) by {
                    if t < p.len() - 2 {
                        assert(p[t] == stk2[m + t]);
                        assert(p[t + 1] == stk2[m + t + 1]);
                    } else {
                        assert(p[t] == stk2.last());
                    }
                }
                assert forall|t: int| #![trigger p[t]] 0 <= t < p.len() implies 0 <= p[t] < adj@.len() by {
                    if t < p.len() - 1 {
                        assert(p[t] == stk2[m + t]);
                    }
                }
                assert(is_cycle_in(p, adj@.len() as int, adj_edges(adj@)));
            }
            return (Err(w), Ghost(rk), Ghost(c));
        } else if state[w] == 0 {
            let ghost before = state@;
            proof {
                assert(adj_edge(adj@, stk2.last(), w as int));
                assert(entry == old(state)@);
                assert(count_zero(state@) < count_zero(old(state)@));
            }
            let (r, Ghost(rk2), Ghost(c2)) = visit(adj, w, state, Ghost(stk2), Ghost(rk), Ghost(c));
            if let Err(x) = r {
                return (Err(x), Ghost(rk2), Ghost(c2));
            }
            proof {
                lemma_count_zero_mono(before, state@);
                assert forall|v: int| 0 <= v < adj@.len() && entry[v] == 2 implies #[trigger] state@[v] == 2 && rk2[v] == rank[v] by {
                    assert(before[v] == 2);
                }
                assert forall|j: int| 0 <= j < k + 1 implies state@[#[trigger] adj@[u as int]@[j] as int] == 2 by {
                    let x = adj@[u as int]@[j] as int;
                    if j < k {
                        assert(before[x] == 2);
                    }
                }
                assert(stack_ok(adj@, state@, stk2)) by {
                    assert forall|t: int| 0 <= t < stk2.len() implies 0 <= #[trigger] stk2[t] < state@.len() && state@[stk2[t]] == 1 by {
                        assert(before[stk2[t]] == 1);
                    }
                }
            }
            proof {
                rk = rk2;
                c = c2;
            }
        }
        k += 1;
    }
    state.set(u, 2);
    proof {
        rk = rk.update(u as int, c);
        assert(done_ok(adj@, state@, rk)) by {
            assert forall|v: int, j: int|
                0 <= v < state@.len() && state@[v] == 2 && 0 <= j < adj@[v]@.len() implies state@[#[trigger] adj@[v]@[j] as int]
                    == 2 && rk[adj@[v]@[j] as int] < rk[v] by {
                let x = adj@[v]@[j] as int;
                if v == u {
                    assert(state@[x] == 2);
                } else {
                    assert(x != u);
                }
            }
        }
        c = c + 1;
    }
    (Ok(()), Ghost(rk), Ghost(c))
}

fn find_lib(libs: &[LibConfig], name: &str) -> (r: Option<usize>)
    ensures
        match r {
            Some(j) => j < libs@.len() && libs@[j as int].name@ == name@,
            None => !lib_names(libs@).contains(name@),
        },
{
    let mut j: usize = 0;
    while j < libs.len()
        invariant
            j <= libs@.len(),
            forall|t: int| 0 <= t < j ==> libs@[t].name@ != name@,
        decreases libs@.len() - j,
    {
        if str_eq(libs[j].name.as_str(), name) {
            return Some(j);
        }
        j += 1;
    }
    proof {
        if lib_names(libs@).contains(name@) {
            let t = choose|t: int| 0 <= t < lib_names(libs@).len() && lib_names(libs@)[t] == name@;
            assert(libs@[t].name@ == name@);
        }
    }
    None
}

/// Whether library `i` is on a cycle, read off the search graph.
proof fn lemma_same_edges(libs: Seq<LibConfig>, adj: Seq<Vec<usize>>)
    requires
        adj.len() == libs.len(),
        forall|u: int| 0 <= u < libs.len() ==> #[trigger] adj[u]@.len() == libs[u].link@.len(),
        forall|u: int, k: int|
            0 <= u < libs.len() && 0 <= k < libs[u].link@.len() ==> #[trigger] adj[u]@[k] < libs.len()
                && libs[adj[u]@[k] as int].name@ == libs[u].link@[k]@,
        forall|i: int, j: int| 0 <= i < j < libs.len() ==> libs[i].name@ != libs[j].name@,
    ensures
        lib_edges(libs) == adj_edges(adj),
{
    assert forall|u: int, v: int| #[trigger] lib_edges(libs)(u, v) == adj_edges(adj)(u, v) by {
        if lib_edge(libs, u, v) {
            let k = choose|k: int| 0 <= k < libs[u].link@.len() && libs[u].link@[k]@ == libs[v].name@;
            let w = adj[u]@[k] as int;
            if w < v {
                assert(libs[w].name@ != libs[v].name@);
            } else if v < w {
                assert(libs[v].name@ != libs[w].name@);
            }
            assert(adj_edge(adj, u, v));
        }
        if adj_edge(adj, u, v) {
            let k = choose|k: int| 0 <= k < adj[u]@.len() && adj[u]@[k] == v;
            assert(lib_edge(libs, u, v));
        }
    }
    assert(lib_edges(libs) =~= adj_edges(adj));
}

/// The `[[lib]]` and `[[bin]]` declarations are sound: target names are
/// unique across both lists, every `link` names a declared library, and no
/// library reaches itself through links.
pub open spec fn targets_valid(libs: Seq<LibConfig>, bins: Seq<BinConfig>) -> bool {
    &&& !has_duplicate(all_names(libs, bins))
    &&& !some_lib_link_unknown(libs)
    &&& !some_bin_link_unknown(libs, bins)
    &&& acyclic(libs)
}

/// `e` reports the first problem of the declarations, the checks taken in
/// the order: duplicate names, library links, executable links, cycles.
pub open spec fn reports_first_problem(libs: Seq<LibConfig>, bins: Seq<BinConfig>, e: TargetError) -> bool {
    let ns = all_names(libs, bins);
    if has_duplicate(ns) {
        exists|j: int| first_duplicate_at(ns, j) && (e matches TargetError::DuplicateName(n) && n@ == ns[j])
    } else if some_lib_link_unknown(libs) {
        exists|i: int, k: int|
            first_lib_link_unknown(libs, i, k) && (e matches TargetError::LibraryLinkUnknown { lib, link }
                && lib@ == libs[i].name@ && link@ == libs[i].link@[k]@)
    } else if some_bin_link_unknown(libs, bins) {
        exists|i: int, k: int|
            first_bin_link_unknown(libs, bins, i, k) && (e matches TargetError::ExecutableLinkUnknown { bin, link }
                && bin@ == bins[i].name@ && link@ == bins[i].link@[k]@)
    } else {
        e matches TargetError::Cycle(n) && exists|i: int| 0 <= i < libs.len() && on_cycle(libs, i) && n@ == libs[i].name@
    }
}

/// Checks the `[[lib]]` and `[[bin]]` declarations (see [`targets_valid`]).
/// The first problem found is reported, in the order of the checks and of
/// the declarations; a cycle is reported by naming a library on it.
pub fn validate_targets(libs: &[LibConfig], bins: &[BinConfig]) -> (r: Result<(), TargetError>)
    ensures
        r is Ok <==> targets_valid(libs@, bins@),
        r matches Err(e) ==> reports_first_problem(libs@, bins@, e),
{
    if libs.len() == 0 && bins.len() == 0 {
        proof {
            assert(all_names(libs@, bins@).len() == 0);
        }
        return Ok(());
    }
    let ghost ns = all_names(libs@, bins@);
    // Duplicate names (across both lists)
    let mut names: Vec<String> = Vec::new();
    let mut i: usize = 0;
    while i < libs.len()
        invariant
            i <= libs@.len(),
            names@.len() == i,
            forall|t: int| 0 <= t < i ==> #[trigger] names@[t]@ == ns[t],
            ns == all_names(libs@, bins@),
        decreases libs@.len() - i,
    {
        names.push(libs[i].name.clone());
        i += 1;
    }
    let mut i: usize = 0;
    while i < bins.len()
        invariant
            i <= bins@.len(),
            names@.len() == libs@.len() + i,
            forall|t: int| 0 <= t < libs@.len() + i ==> #[trigger] names@[t]@ == ns[t],
            ns == all_names(libs@, bins@),
        decreases bins@.len() - i,
    {
        names.push(bins[i].name.clone());
        i += 1;
    }
    let mut j: usize = 0;
    while j < names.len()
        invariant
            j <= names@.len(),
            names@.len() == ns.len(),
            forall|t: int| 0 <= t < ns.len() ==> #[trigger] names@[t]@ == ns[t],
            !has_duplicate(ns.take(j as int)),
            ns == all_names(libs@, bins@),
        decreases names@.len() - j,
    {
        let mut i: usize = 0;
        while i < j
            invariant
                i <= j < names@.len(),
                names@.len() == ns.len(),
                forall|t: int| 0 <= t < ns.len() ==> #[trigger] names@[t]@ == ns[t],
                forall|t: int| 0 <= t < i ==> ns[t] != ns[j as int],
                !has_duplicate(ns.take(j as int)),
                ns == all_names(libs@, bins@),
            decreases j - i,
        {
            if names[i] == names[j] {
                proof {
                    assert(ns[i as int] == ns[j as int]);
                    assert(first_duplicate_at(ns, j as int));
                }
                return Err(TargetError::DuplicateName(names[j].clone()));
            }
            i += 1;
        }
        proof {
            let tk = ns.take(j + 1);
            assert forall|a: int, b: int| 0 <= a < b < tk.len() implies #[trigger] tk[a] != #[trigger] tk[b] by {
                if b < j {
                    assert(ns.take(j as int)[a] == ns[a] && ns.take(j as int)[b] == ns[b]);
                }
            }
        }
        j += 1;
    }
    proof {
        assert(ns.take(ns.len() as int) =~= ns);
    }
    proof {
        assert forall|a: int, b: int| 0 <= a < b < libs@.len() implies libs@[a].name@ != libs@[b].name@ by {
            assert(ns[a] == libs@[a].name@ && ns[b] == libs@[b].name@);
        }
    }
    // Link references must point to a declared library target
    let mut adj: Vec<Vec<usize>> = Vec::new();
    let mut i: usize = 0;
    while i < libs.len()
        invariant
            i <= libs@.len(),
            adj@.len() == i,
            !has_duplicate(ns),
            ns == all_names(libs@, bins@),
            forall|u: int| 0 <= u < i ==> #[trigger] adj@[u]@.len() == libs@[u].link@.len(),
            forall|u: int, k: int|
                0 <= u < i && 0 <= k < libs@[u].link@.len() ==> #[trigger] adj@[u]@[k] < libs@.len()
                    && libs@[adj@[u]@[k] as int].name@ == libs@[u].link@[k]@,
            forall|a: int, b: int| a < i ==> !lib_link_unknown(libs@, a, b),
        decreases libs@.len() - i,
    {
        let mut row: Vec<usize> = Vec::new();
        let mut k: usize = 0;
        while k < libs[i].link.len()
            invariant
                i < libs@.len(),
                k <= libs@[i as int].link@.len(),
                row@.len() == k,
                forall|t: int| 0 <= t < k ==> #[trigger] row@[t] < libs@.len() && libs@[row@[t] as int].name@
                    == libs@[i as int].link@[t]@,
                forall|b: int| b < k ==> !lib_link_unknown(libs@, i as int, b),
                forall|a: int, b: int| a < i ==> !lib_link_unknown(libs@, a, b),
                !has_duplicate(ns),
                ns == all_names(libs@, bins@),
            decreases libs@[i as int].link@.len() - k,
        {
            match find_lib(libs, libs[i].link[k].as_str()) {
                Some(t) => {
                    row.push(t);
                    proof {
                        assert forall|b: int| b < k + 1 implies !lib_link_unknown(libs@, i as int, b) by {
                            if b == k {
                                assert(lib_names(libs@)[t as int] == libs@[i as int].link@[b]@);
                            }
                        }
                    }
                },
                None => {
                    proof {
                        assert(first_lib_link_unknown(libs@, i as int, k as int));
                    }
                    return Err(
                        TargetError::LibraryLinkUnknown { lib: libs[i].name.clone(), link: libs[i].link[k].clone() },
                    );
                },
            }
            k += 1;
        }
        adj.push(row);
        i += 1;
    }
    proof {
        assert(!some_lib_link_unknown(libs@));
    }
    let mut i: usize = 0;
    while i < bins.len()
        invariant
            i <= bins@.len(),
            !has_duplicate(ns),
            ns == all_names(libs@, bins@),
            !some_lib_link_unknown(libs@),
            forall|a: int, b: int| a < i ==> !bin_link_unknown(libs@, bins@, a, b),
        decreases bins@.len() - i,
    {
        let mut k: usize = 0;
        while k < bins[i].link.len()
            invariant
                i < bins@.len(),
                k <= bins@[i as int].link@.len(),
                forall|b: int| b < k ==> !bin_link_unknown(libs@, bins@, i as int, b),
                forall|a: int, b: int| a < i ==> !bin_link_unknown(libs@, bins@, a, b),
                !has_duplicate(ns),
                ns == all_names(libs@, bins@),
                !some_lib_link_unknown(libs@),
            decreases bins@[i as int].link@.len() - k,
        {
            match find_lib(libs, bins[i].link[k].as_str()) {
                Some(t) => {
                    proof {
                        assert forall|b: int| b < k + 1 implies !bin_link_unknown(libs@, bins@, i as int, b) by {
                            if b == k {
                                assert(lib_names(libs@)[t as int] == bins@[i as int].link@[b]@);
                            }
                        }
                    }
                },
                None => {
                    proof {
                        assert(first_bin_link_unknown(libs@, bins@, i as int, k as int));
                    }
                    return Err(
                        TargetError::ExecutableLinkUnknown { bin: bins[i].name.clone(), link: bins[i].link[k].clone() },
                    );
                },
            }
            k += 1;
        }
        i += 1;
    }
    proof {
        assert(!some_bin_link_unknown(libs@, bins@));
        lemma_same_edges(libs@, adj@);
        assert(adj_ok(adj@));
    }
    // Cycle detection by depth-first search (only among library targets)
    let n = libs.len();
    let mut state: Vec<u8> = vec![0u8; n];
    let ghost mut rank: Seq<int> = Seq::new(n as nat, |v: int| 0);
    let ghost mut ctr: int = 0;
    let mut s: usize = 0;
    while s < n
        invariant
            n == libs@.len(),
            n == adj@.len(),
            adj_ok(adj@),
            lib_edges(libs@) == adj_edges(adj@),
            state@.len() == n,
            rank.len() == n,
            states_ok(state@),
            forall|v: int| 0 <= v < n ==> #[trigger] state@[v] != 1,
            done_ok(adj@, state@, rank),
            forall|v: int| 0 <= v < n && #[trigger] state@[v] == 2 ==> rank[v] < ctr,
            forall|v: int| 0 <= v < s ==> #[trigger] state@[v] == 2,
            s <= n,
            !has_duplicate(ns),
            ns == all_names(libs@, bins@),
            !some_lib_link_unknown(libs@),
            !some_bin_link_unknown(libs@, bins@),
        decreases n - s,
    {
        if state[s] == 0 {
            let (res, Ghost(rk), Ghost(c)) = visit(&adj, s, &mut state, Ghost(Seq::empty()), Ghost(rank), Ghost(ctr));
            match res {
                Err(w) => {
                    proof {
                        let p = choose|p: Seq<int>| #[trigger] is_cycle_in(p, adj@.len() as int, adj_edges(adj@)) && p[0] == w;
                        assert(on_cycle(libs@, w as int));
                    }
                    return Err(TargetError::Cycle(libs[w].name.clone()));
                },
                Ok(()) => {},
            }
            proof {
                rank = rk;
                ctr = c;
            }
        }
        s += 1;
    }
    proof {
        assert forall|i: int| 0 <= i < libs@.len() implies !on_cycle(libs@, i) by {
            if on_cycle(libs@, i) {
                let p = choose|p: Seq<int>| is_cycle_in(p, libs@.len() as int, lib_edges(libs@)) && p[0] == i;
                assert forall|t: int| #![trigger p[t]] 0 <= t < p.len() - 1 implies adj_edge(adj@, p[t], p[t + 1]) by {
                    assert(adj_edges(adj@)(p[t], p[t + 1]));
                }
                lemma_walk_rank(adj@, state@, rank, p);
            }
        }
    }
    Ok(())
}

} // verus!
