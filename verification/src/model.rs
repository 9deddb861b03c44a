//! The configuration model: platforms, profiles, aliases and the
//! configuration, whose aliases are kept sorted by name without repeats.
use vstd::prelude::*;
use crate::text::{chars_eq, chars_lt, chars_of, lemma_lt_irreflexive, lemma_lt_total, lemma_lt_transitive, seq_lt, str_eq};

verus! {

/// An operating system an alias can be restricted to.
#[derive(Clone, Copy, Debug, PartialEq, Eq, Structural, PartialOrd, Ord, Hash)]
pub enum Platform {
    Windows,
    Macos,
    Linux,
}

/// The platform of an operating system, by the name Rust's standard library
/// gives it (`std::env::consts::OS`): Windows and macOS by their names,
/// every other system counted as Linux.
pub open spec fn platform_of_os(os: Seq<char>) -> Platform {
    if os == "windows"@ {
        Platform::Windows
    } else if os == "macos"@ {
        Platform::Macos
    } else {
        Platform::Linux
    }
}

impl Platform {
    /// The platform the program runs on, from the name of its operating
    /// system.
    pub fn current(os: &str) -> (r: Platform)
        ensures
            r == platform_of_os(os@),
    {
        if str_eq(os, "windows") {
            Platform::Windows
        } else if str_eq(os, "macos") {
            Platform::Macos
        } else {
            Platform::Linux
        }
    }
}

/// The work or personal profile an alias can be scoped to.
#[derive(Clone, Copy, Debug, PartialEq, Eq, Structural, PartialOrd, Ord, Hash)]
pub enum Profile {
    Work,
    Personal,
}

/// The profile a lowercase name stands for: `work` or `personal`.
pub open spec fn profile_named(name: Seq<char>) -> Option<Profile> {
    if name == "work"@ {
        Some(Profile::Work)
    } else if name == "personal"@ {
        Some(Profile::Personal)
    } else {
        None
    }
}

impl Profile {
    /// The profile named `name`, if it names one.
    pub fn from_name(name: &str) -> (r: Option<Profile>)
        ensures
            r == profile_named(name@),
    {
        if str_eq(name, "work") {
            Some(Profile::Work)
        } else if str_eq(name, "personal") {
            Some(Profile::Personal)
        } else {
            None
        }
    }
}

/// One alias definition.
#[derive(Clone, Debug, PartialEq, Eq)]
pub struct Alias {
    pub description: Option<String>,
    pub command: Vec<String>,
    pub tags: Vec<String>,
    pub bash: Option<String>,
    pub powershell: Option<String>,
    pub forward_args: bool,
    pub platforms: Vec<Platform>,
    pub profile: Option<Profile>,
}

/// The view of an optional string.
pub open spec fn opt_view(o: Option<String>) -> Option<Seq<char>> {
    match o {
        Some(s) => Some(s@),
        None => None,
    }
}

impl Alias {
    /// The alias runs on `current`: it names no platform, or names `current`.
    pub open spec fn active_on(self, current: Platform) -> bool {
        self.platforms@.len() == 0 || self.platforms@.contains(current)
    }

    /// The alias belongs to the selected profile: either side is unscoped,
    /// or both name the same profile.
    pub open spec fn active_for(self, profile: Option<Profile>) -> bool {
        match (self.profile, profile) {
            (Some(own), Some(selected)) => own == selected,
            _ => true,
        }
    }

    /// Whether the alias applies to the platform the program runs on, which
    /// the caller passes in as `current`.
    pub fn is_active_for_current_platform(&self, current: Platform) -> (r: bool)
        ensures
            r == self.active_on(current),
    {
        let n = self.platforms.len();
        if n == 0 {
            return true;
        }
        let mut i: usize = 0;
        while i < n
            invariant
                n == self.platforms@.len(),
                i <= n,
                forall|j: int| 0 <= j < i ==> self.platforms@[j] != current,
            decreases n - i,
        {
            if self.platforms[i] == current {
                assert(self.platforms@.contains(current)) by {
                    assert(self.platforms@[i as int] == current);
                }
                return true;
            }
            i = i + 1;
        }
        false
    }

    /// Whether the alias belongs to the selected profile.
    pub fn is_active_for_profile(&self, profile: Option<Profile>) -> (r: bool)
        ensures
            r == self.active_for(profile),
    {
        match (self.profile, profile) {
            (Some(own), Some(selected)) => own == selected,
            _ => true,
        }
    }
}

impl Default for Alias {
    /// An alias with no command, no overrides, arguments forwarded and no
    /// restriction.
    fn default() -> (r: Self)
        ensures
            r.description is None,
            r.command@.len() == 0,
            r.tags@.len() == 0,
            r.bash is None,
            r.powershell is None,
            r.forward_args,
            r.platforms@.len() == 0,
            r.profile is None,
    {
        Alias {
            description: None,
            command: Vec::new(),
            tags: Vec::new(),
            bash: None,
            powershell: None,
            forward_args: true,
            platforms: Vec::new(),
            profile: None,
        }
    }
}

/// The names of `s` come in strictly increasing order, so none repeats.
pub open spec fn names_sorted(s: Seq<(String, Alias)>) -> bool {
    forall|i: int, j: int| 0 <= i < j < s.len() ==> seq_lt(#[trigger] s[i].0@, #[trigger] s[j].0@)
}

/// Some entry of `s` is named `name`.
pub open spec fn has_name(s: Seq<(String, Alias)>, name: Seq<char>) -> bool {
    exists|i: int| 0 <= i < s.len() && #[trigger] s[i].0@ == name
}

/// The entries of `s` as a map from name to alias.
pub open spec fn alias_map(s: Seq<(String, Alias)>) -> Map<Seq<char>, Alias> {
    Map::new(
        |k: Seq<char>| has_name(s, k),
        |k: Seq<char>| s[name_index(s, k)].1,
    )
}

/// An index of `s` whose entry is named `name`, if there is one.
pub open spec fn name_index(s: Seq<(String, Alias)>, name: Seq<char>) -> int {
    choose|i: int| 0 <= i < s.len() && #[trigger] s[i].0@ == name
}

/// The names of `s`, in order.
pub open spec fn name_seq(s: Seq<(String, Alias)>) -> Seq<Seq<char>> {
    s.map_values(|e: (String, Alias)| e.0@)
}

/// In a sorted sequence the map sends each name to the alias beside it.
pub proof fn lemma_map_at(s: Seq<(String, Alias)>, i: int)
    requires
        names_sorted(s),
        0 <= i < s.len(),
    ensures
        alias_map(s).contains_key(s[i].0@),
        alias_map(s)[s[i].0@] == s[i].1,
{
    let k = s[i].0@;
    assert(has_name(s, k));
    let j = name_index(s, k);
    if j < i {
        assert(seq_lt(s[j].0@, s[i].0@));
        lemma_lt_irreflexive(k);
    } else if i < j {
        assert(seq_lt(s[i].0@, s[j].0@));
        lemma_lt_irreflexive(k);
    }
}

/// A version and a set of aliases, kept sorted by name.
#[derive(Clone, Debug, PartialEq, Eq)]
pub struct Config {
    pub version: u32,
    /// The aliases with their names; the library keeps them sorted by name
    /// without repeats (`wf`), which its functions require.
    pub aliases: Vec<(String, Alias)>,
}

impl View for Config {
    type V = Seq<(String, Alias)>;

    /// The aliases with their names, in name order.
    open spec fn view(&self) -> Seq<(String, Alias)> {
        self.aliases@
    }
}

impl Config {
    /// The aliases are sorted by name and no name repeats.
    pub open spec fn wf(&self) -> bool {
        names_sorted(self@)
    }

    /// The configuration's version.
    pub open spec fn version_of(&self) -> u32 {
        self.version
    }

    /// The aliases as a map from name to alias.
    pub open spec fn to_map(&self) -> Map<Seq<char>, Alias> {
        alias_map(self@)
    }

    /// A configuration of the given version without aliases.
    pub fn new(version: u32) -> (r: Config)
        ensures
            r.wf(),
            r.version_of() == version,
            r@ == Seq::<(String, Alias)>::empty(),
    {
        Config { version, aliases: Vec::new() }
    }

    /// The number of aliases.
    pub fn len(&self) -> (r: usize)
        ensures
            r == self@.len(),
    {
        self.aliases.len()
    }

    /// Whether there are no aliases.
    pub fn is_empty(&self) -> (r: bool)
        ensures
            r == (self@.len() == 0),
    {
        self.aliases.len() == 0
    }

    /// The aliases with their names, in name order.
    pub fn entries(&self) -> (r: &Vec<(String, Alias)>)
        ensures
            r@ == self@,
    {
        &self.aliases
    }

    /// The aliases with their names, in name order, taken out of the
    /// configuration.
    pub fn into_entries(self) -> (r: Vec<(String, Alias)>)
        ensures
            r@ == self@,
    {
        self.aliases
    }

    /// Where `name` stands, or would stand, among the sorted names.
    fn position(&self, name: &str) -> (r: (usize, bool))
        requires
            self.wf(),
        ensures
            r.0 <= self@.len(),
            forall|k: int| 0 <= k < r.0 ==> seq_lt(#[trigger] self@[k].0@, name@),
            r.1 ==> r.0 < self@.len() && self@[r.0 as int].0@ == name@,
            !r.1 ==> (r.0 < self@.len() ==> seq_lt(name@, self@[r.0 as int].0@)),
            r.1 == has_name(self@, name@),
    {
        let target = chars_of(name);
        let n = self.aliases.len();
        let mut i: usize = 0;
        while i < n
            invariant
                n == self@.len(),
                self.wf(),
                target@ == name@,
                i <= n,
                forall|k: int| 0 <= k < i ==> seq_lt(#[trigger] self@[k].0@, name@),
            decreases n - i,
        {
            let here = chars_of(self.aliases[i].0.as_str());
            if chars_eq(&here, &target) {
                return (i, true);
            }
            if !chars_lt(&here, &target) {
                proof {
                    lemma_lt_total(here@, target@);
                    assert forall|j: int| 0 <= j < n implies #[trigger] self@[j].0@ != name@ by {
                        if j < i {
                            assert(seq_lt(self@[j].0@, name@));
                            lemma_lt_irreflexive(name@);
                        } else if j > i {
                            assert(seq_lt(self@[i as int].0@, self@[j].0@));
                            lemma_lt_transitive(name@, self@[i as int].0@, self@[j].0@);
                            lemma_lt_irreflexive(name@);
                        } else {
                            lemma_lt_irreflexive(name@);
                        }
                    }
                }
                return (i, false);
            }
            i = i + 1;
        }
        proof {
            assert forall|j: int| 0 <= j < n implies #[trigger] self@[j].0@ != name@ by {
                assert(seq_lt(self@[j].0@, name@));
                lemma_lt_irreflexive(name@);
            }
        }
        (n, false)
    }

    /// Whether an alias is named `name`.
    pub fn contains_key(&self, name: &str) -> (r: bool)
        requires
            self.wf(),
        ensures
            r == self.to_map().contains_key(name@),
    {
        self.position(name).1
    }

    /// The alias named `name`, if any.
    pub fn get(&self, name: &str) -> (r: Option<&Alias>)
        requires
            self.wf(),
        ensures
            match r {
                Some(a) => self.to_map().contains_key(name@) && *a == self.to_map()[name@],
                None => !self.to_map().contains_key(name@),
            },
    {
        let (i, found) = self.position(name);
        if found {
            proof {
                lemma_map_at(self@, i as int);
            }
            Some(&self.aliases[i].1)
        } else {
            None
        }
    }

    /// Adds or replaces the alias named `name`; gives back the alias it
    /// replaced.
    pub fn insert(&mut self, name: String, alias: Alias) -> (r: Option<Alias>)
        requires
            old(self).wf(),
        ensures
            final(self).wf(),
            final(self).version_of() == old(self).version_of(),
            final(self).to_map() == old(self).to_map().insert(name@, alias),
            match r {
                Some(a) => old(self).to_map().contains_key(name@) && a == old(self).to_map()[name@],
                None => !old(self).to_map().contains_key(name@),
            },
    {
        self.place(name, alias).1
    }

    /// `insert`, telling where the entry went: an existing entry keeps its
    /// name and gets the alias, a new entry is inserted at the position.
    pub(crate) fn place(&mut self, name: String, alias: Alias) -> (r: (usize, Option<Alias>))
        requires
            old(self).wf(),
        ensures
            final(self).wf(),
            final(self).version_of() == old(self).version_of(),
            final(self).to_map() == old(self).to_map().insert(name@, alias),
            match r.1 {
                Some(a) => old(self).to_map().contains_key(name@) && a == old(self).to_map()[name@],
                None => !old(self).to_map().contains_key(name@),
            },
            r.1 matches Some(a) ==> r.0 < old(self)@.len() && a == old(self)@[r.0 as int].1
                && final(self)@ == old(self)@.update(r.0 as int, (old(self)@[r.0 as int].0, alias)),
            r.1 is None ==> r.0 <= old(self)@.len() && final(self)@ == old(self)@.insert(
                r.0 as int,
                (name, alias),
            ),
    {
        let (i, found) = self.position(name.as_str());
        let ghost s = self@;
        let ghost key = name@;
        if found {
            let old_entry = self.aliases.remove(i);
            self.aliases.insert(i, (old_entry.0, alias));
            proof {
                let t = self@;
                assert(t =~= s.update(i as int, t[i as int]));
                assert(names_sorted(t)) by {
                    assert forall|a: int, b: int| 0 <= a < b < t.len() implies seq_lt(
                        #[trigger] t[a].0@,
                        #[trigger] t[b].0@,
                    ) by {
                        assert(seq_lt(s[a].0@, s[b].0@));
                    }
                }
                lemma_map_at(s, i as int);
                assert(t =~= s.update(i as int, (s[i as int].0, alias)));
                assert(alias_map(t) =~= alias_map(s).insert(key, alias)) by {
                    assert forall|k: Seq<char>| #[trigger] alias_map(t).contains_key(k) <==> alias_map(
                        s,
                    ).insert(key, alias).contains_key(k) by {
                        if has_name(t, k) {
                            let j = choose|j: int| 0 <= j < t.len() && #[trigger] t[j].0@ == k;
                            assert(s[j].0@ == k);
                        }
                        if has_name(s, k) {
                            let j = choose|j: int| 0 <= j < s.len() && #[trigger] s[j].0@ == k;
                            assert(t[j].0@ == k);
                        }
                    }
                    assert forall|k: Seq<char>| #[trigger] alias_map(t).contains_key(k) implies alias_map(
                        t,
                    )[k] == alias_map(s).insert(key, alias)[k] by {
                        let j = choose|j: int| 0 <= j < t.len() && #[trigger] t[j].0@ == k;
                        lemma_map_at(t, j);
                        lemma_map_at(s, j);
                        if j != i {
                            assert(t[j] == s[j]);
                            if k == key {
                                if j < i {
                                    assert(seq_lt(s[j].0@, s[i as int].0@));
                                } else {
                                    assert(seq_lt(s[i as int].0@, s[j].0@));
                                }
                                lemma_lt_irreflexive(k);
                            }
                        }
                    }
                }
            }
            (i, Some(old_entry.1))
        } else {
            self.aliases.insert(i, (name, alias));
            proof {
                let t = self@;
                assert(t =~= s.insert(i as int, t[i as int]));
                assert(names_sorted(t)) by {
                    assert forall|a: int, b: int| 0 <= a < b < t.len() implies seq_lt(
                        #[trigger] t[a].0@,
                        #[trigger] t[b].0@,
                    ) by {
                        if b < i {
                            assert(seq_lt(s[a].0@, s[b].0@));
                        } else if b == i {
                            assert(seq_lt(s[a].0@, key));
                        } else if a == i {
                            assert(seq_lt(key, s[i as int].0@));
                            if b - 1 > i {
                                assert(seq_lt(s[i as int].0@, s[b - 1].0@));
                                lemma_lt_transitive(key, s[i as int].0@, s[b - 1].0@);
                            }
                        } else if a < i {
                            assert(seq_lt(s[a].0@, key));
                            assert(seq_lt(key, s[i as int].0@));
                            lemma_lt_transitive(s[a].0@, key, s[i as int].0@);
                            if b - 1 > i {
                                assert(seq_lt(s[i as int].0@, s[b - 1].0@));
                                lemma_lt_transitive(s[a].0@, s[i as int].0@, s[b - 1].0@);
                            }
                        } else {
                            assert(seq_lt(s[a - 1].0@, s[b - 1].0@));
                        }
                    }
                }
                assert(alias_map(t) =~= alias_map(s).insert(key, alias)) by {
                    assert forall|k: Seq<char>| #[trigger] alias_map(t).contains_key(k) <==> alias_map(
                        s,
                    ).insert(key, alias).contains_key(k) by {
                        if has_name(t, k) {
                            let j = choose|j: int| 0 <= j < t.len() && #[trigger] t[j].0@ == k;
                            if j < i {
                                assert(s[j].0@ == k);
                            } else if j > i {
                                assert(s[j - 1].0@ == k);
                            }
                        }
                        if has_name(s, k) {
                            let j = choose|j: int| 0 <= j < s.len() && #[trigger] s[j].0@ == k;
                            if j < i {
                                assert(t[j].0@ == k);
                            } else {
                                assert(t[j + 1].0@ == k);
                            }
                        }
                        if k == key {
                            assert(t[i as int].0@ == k);
                        }
                    }
                    assert forall|k: Seq<char>| #[trigger] alias_map(t).contains_key(k) implies alias_map(
                        t,
                    )[k] == alias_map(s).insert(key, alias)[k] by {
                        let j = choose|j: int| 0 <= j < t.len() && #[trigger] t[j].0@ == k;
                        lemma_map_at(t, j);
                        if j == i {
                            assert(t[j].1 == alias);
                            assert(k == key);
                            assert(alias_map(t)[k] == alias);
                            assert(alias_map(s).insert(key, alias)[k] == alias);
                            assert(alias_map(t)[k] == alias_map(s).insert(key, alias)[k]);
                        }
                        if j < i {
                            lemma_map_at(s, j);
                            assert(t[j] == s[j]);
                            if k == key {
                                assert(seq_lt(t[j].0@, t[i as int].0@));
                                lemma_lt_irreflexive(k);
                            }
                            assert(alias_map(t)[k] == alias_map(s)[k]);
                            assert(alias_map(s).insert(key, alias)[k] == alias_map(s)[k]);
                            assert(alias_map(t)[k] == alias_map(s).insert(key, alias)[k]);
                        } else if j > i {
                            lemma_map_at(s, j - 1);
                            assert(t[j] == s[j - 1]);
                            if k == key {
                                assert(seq_lt(t[i as int].0@, t[j].0@));
                                lemma_lt_irreflexive(k);
                            }
                            assert(alias_map(t)[k] == alias_map(s)[k]);
                            assert(alias_map(s).insert(key, alias)[k] == alias_map(s)[k]);
                            assert(alias_map(t)[k] == alias_map(s).insert(key, alias)[k]);
                        }
                    }
                }
            }
            (i, None)
        }
    }

    /// Removes the alias named `name`; gives it back if there was one.
    pub fn remove(&mut self, name: &str) -> (r: Option<Alias>)
        requires
            old(self).wf(),
        ensures
            final(self).wf(),
            final(self).version_of() == old(self).version_of(),
            final(self).to_map() == old(self).to_map().remove(name@),
            r is None ==> *final(self) == *old(self),
            match r {
                Some(a) => old(self).to_map().contains_key(name@) && a == old(self).to_map()[name@],
                None => !old(self).to_map().contains_key(name@),
            },
    {
        match self.take(name) {
            Some((_, entry)) => Some(entry.1),
            None => None,
        }
    }

    /// `remove`, giving back the whole entry and where it stood.
    pub(crate) fn take(&mut self, name: &str) -> (r: Option<(usize, (String, Alias))>)
        requires
            old(self).wf(),
        ensures
            final(self).wf(),
            final(self).version_of() == old(self).version_of(),
            final(self).to_map() == old(self).to_map().remove(name@),
            r is None ==> *final(self) == *old(self),
            match r {
                Some((i, e)) => old(self).to_map().contains_key(name@) && e.1 == old(self).to_map()[name@]
                    && i < old(self)@.len() && e == old(self)@[i as int] && final(self)@ == old(
                    self,
                )@.remove(i as int),
                None => !old(self).to_map().contains_key(name@),
            },
    {
        let (i, found) = self.position(name);
        let ghost s = self@;
        let ghost key = name@;
        if found {
            let old_entry = self.aliases.remove(i);
            proof {
                let t = self@;
                assert(t =~= s.remove(i as int));
                assert(names_sorted(t)) by {
                    assert forall|a: int, b: int| 0 <= a < b < t.len() implies seq_lt(
                        #[trigger] t[a].0@,
                        #[trigger] t[b].0@,
                    ) by {
                        if b < i {
                            assert(seq_lt(s[a].0@, s[b].0@));
                        } else if a < i {
                            assert(seq_lt(s[a].0@, s[b + 1].0@));
                        } else {
                            assert(seq_lt(s[a + 1].0@, s[b + 1].0@));
                        }
                    }
                }
                lemma_map_at(s, i as int);
                assert(alias_map(t) =~= alias_map(s).remove(key)) by {
                    assert forall|k: Seq<char>| #[trigger] alias_map(t).contains_key(k) <==> alias_map(
                        s,
                    ).remove(key).contains_key(k) by {
                        if has_name(t, k) {
                            let j = choose|j: int| 0 <= j < t.len() && #[trigger] t[j].0@ == k;
                            if j < i {
                                assert(s[j].0@ == k);
                                assert(seq_lt(s[j].0@, s[i as int].0@));
                                if k == key {
                                    lemma_lt_irreflexive(k);
                                }
                            } else {
                                assert(s[j + 1].0@ == k);
                                assert(seq_lt(s[i as int].0@, s[j + 1].0@));
                                if k == key {
                                    lemma_lt_irreflexive(k);
                                }
                            }
                        }
                        if has_name(s, k) && k != key {
                            let j = choose|j: int| 0 <= j < s.len() && #[trigger] s[j].0@ == k;
                            if j < i {
                                assert(t[j].0@ == k);
                            } else {
                                assert(j != i);
                                assert(t[j - 1].0@ == k);
                            }
                        }
                    }
                    assert forall|k: Seq<char>| #[trigger] alias_map(t).contains_key(k) implies alias_map(
                        t,
                    )[k] == alias_map(s).remove(key)[k] by {
                        let j = choose|j: int| 0 <= j < t.len() && #[trigger] t[j].0@ == k;
                        lemma_map_at(t, j);
                        if j < i {
                            lemma_map_at(s, j);
                        } else {
                            lemma_map_at(s, j + 1);
                        }
                    }
                }
            }
            Some((i, old_entry))
        } else {
            proof {
                assert(alias_map(s) =~= alias_map(s).remove(key));
            }
            None
        }
    }
}

impl Config {
    /// Undoes `place`: the entry at `i` gets back its alias `previous`, or,
    /// when there was none, the entry at `i` goes.
    pub(crate) fn unplace(&mut self, i: usize, previous: Option<Alias>)
        requires
            i < old(self)@.len(),
        ensures
            final(self).version_of() == old(self).version_of(),
            previous matches Some(a) ==> final(self)@ == old(self)@.update(
                i as int,
                (old(self)@[i as int].0, a),
            ),
            previous is None ==> final(self)@ == old(self)@.remove(i as int),
    {
        let entry = self.aliases.remove(i);
        match previous {
            Some(a) => {
                self.aliases.insert(i, (entry.0, a));
            },
            None => {},
        }
    }

    /// Undoes `take`: puts `entry` back at `i`.
    pub(crate) fn put_back(&mut self, i: usize, entry: (String, Alias))
        requires
            i <= old(self)@.len(),
        ensures
            final(self).version_of() == old(self).version_of(),
            final(self)@ == old(self)@.insert(i as int, entry),
    {
        self.aliases.insert(i, entry);
    }
}

/// After storing an alias under a name, looking the name up gives that
/// alias; the other names keep theirs.
pub proof fn lemma_insert_then_get(before: Config, after: Config, name: Seq<char>, alias: Alias, other: Seq<char>)
    requires
        after.to_map() == before.to_map().insert(name, alias),
        other != name,
    ensures
        after.to_map().contains_key(name),
        after.to_map()[name] == alias,
        after.to_map().contains_key(other) == before.to_map().contains_key(other),
        before.to_map().contains_key(other) ==> after.to_map()[other] == before.to_map()[other],
{
}

/// After removing a name, looking it up finds nothing; the other names keep
/// their aliases.
pub proof fn lemma_remove_then_get(before: Config, after: Config, name: Seq<char>, other: Seq<char>)
    requires
        after.to_map() == before.to_map().remove(name),
        other != name,
    ensures
        !after.to_map().contains_key(name),
        after.to_map().contains_key(other) == before.to_map().contains_key(other),
        before.to_map().contains_key(other) ==> after.to_map()[other] == before.to_map()[other],
{
}

impl Default for Config {
    /// Version 1 without aliases.
    fn default() -> (r: Self)
        ensures
            r.wf(),
            r.version_of() == 1,
            r@ == Seq::<(String, Alias)>::empty(),
    {
        Config::new(1)
    }
}

} // verus!
