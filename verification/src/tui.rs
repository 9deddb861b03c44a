//! The state of the interactive browser: the aliases it shows, which one is
//! selected, how keys move the selection, and the text of its panes.
use vstd::prelude::*;
use crate::model::{Alias, Config, Platform, Profile};
use crate::listing::{command_text, format_command, format_platforms, format_profile, format_tags, platforms_text, profile_name, tags_text};
use crate::text::{decimal, decimal_string, str_eq};

verus! {

/// One alias as the browser shows it.
pub struct AliasEntry {
    pub name: String,
    pub alias: Alias,
    pub is_active: bool,
    pub platform_match: bool,
    pub profile_match: bool,
}

/// The entry shows the alias `name` with its matches for `profile` and
/// `current`.
pub open spec fn shows(e: AliasEntry, name: Seq<char>, alias: Alias, profile: Option<Profile>, current: Platform) -> bool {
    &&& e.name@ == name
    &&& e.alias == alias
    &&& e.platform_match == alias.active_on(current)
    &&& e.profile_match == alias.active_for(profile)
    &&& e.is_active == (e.platform_match && e.profile_match)
}

/// One entry per alias of the configuration, in name order, each with
/// whether it matches the platform the program runs on and the selected
/// profile.
pub fn build_entries(config: Config, profile: Option<Profile>, current: Platform) -> (r: Vec<AliasEntry>)
    ensures
        r@.len() == config@.len(),
        forall|i: int|
            0 <= i < r@.len() ==> shows(
                #[trigger] r@[i],
                config@[i].0@,
                config@[i].1,
                profile,
                current,
            ),
{
    let ghost all = config@;
    let mut rest = config.into_entries();
    let mut r: Vec<AliasEntry> = Vec::new();
    while rest.len() > 0
        invariant
            r@.len() <= all.len(),
            rest@ == all.subrange(r@.len() as int, all.len() as int),
            forall|i: int|
                0 <= i < r@.len() ==> shows(#[trigger] r@[i], all[i].0@, all[i].1, profile, current),
        decreases rest@.len(),
    {
        let ghost k = r@.len() as int;
        let (name, alias) = rest.remove(0);
        assert(all[k] == (name, alias));
        let platform_match = alias.is_active_for_current_platform(current);
        let profile_match = alias.is_active_for_profile(profile);
        r.push(
            AliasEntry {
                name,
                alias,
                is_active: platform_match && profile_match,
                platform_match,
                profile_match,
            },
        );
        assert(rest@ =~= all.subrange(r@.len() as int, all.len() as int));
    }
    r
}

/// The selection after moving down: the next entry, or the first after the
/// last.
pub open spec fn next_index(selected: Option<usize>, len: nat) -> int {
    match selected {
        Some(i) if i + 1 < len => i + 1,
        _ => 0,
    }
}

/// The selection after moving up: the previous entry, or the last before
/// the first.
pub open spec fn previous_index(selected: Option<usize>, len: nat) -> int {
    match selected {
        Some(i) if i != 0 => i - 1,
        _ => len - 1,
    }
}

/// The browser's state.
pub struct App {
    config_file: String,
    profile: Option<Profile>,
    entries: Vec<AliasEntry>,
    selected: Option<usize>,
    status: String,
}

/// The help line shown until something else is reported.
pub open spec fn help_text() -> Seq<char> {
    "q/Esc quit  r reload  \u{2191}/\u{2193} move  Home/End jump"@
}

impl App {
    /// The configuration file the aliases come from.
    pub closed spec fn file_view(&self) -> Seq<char> {
        self.config_file@
    }

    /// The profile the aliases are matched against.
    pub closed spec fn profile_view(&self) -> Option<Profile> {
        self.profile
    }

    /// The help or status line.
    pub closed spec fn status_view(&self) -> Seq<char> {
        self.status@
    }

    /// The entries shown.
    pub closed spec fn entries_view(&self) -> Seq<AliasEntry> {
        self.entries@
    }

    /// The selected position.
    pub closed spec fn selection(&self) -> Option<usize> {
        self.selected
    }

    /// Something is selected exactly when there are entries, and the
    /// selection is one of them.
    pub open spec fn wf(&self) -> bool {
        &&& (self.selection() is None) == (self.entries_view().len() == 0)
        &&& (self.selection() matches Some(i) ==> i < self.entries_view().len())
    }

    /// The browser over the aliases of `config`, the first one selected.
    pub fn load(config_file: String, profile: Option<Profile>, config: Config, current: Platform) -> (r: App)
        ensures
            r.wf(),
            r.file_view() == config_file@,
            r.profile_view() == profile,
            r.entries_view().len() == config@.len(),
            forall|i: int|
                0 <= i < config@.len() ==> shows(
                    #[trigger] r.entries_view()[i],
                    config@[i].0@,
                    config@[i].1,
                    profile,
                    current,
                ),
            r.selection() == (if config@.len() == 0 {
                None::<usize>
            } else {
                Some(0usize)
            }),
            r.status_view() == help_text(),
    {
        let entries = build_entries(config, profile, current);
        let selected = if entries.len() == 0 {
            None
        } else {
            Some(0)
        };
        App {
            config_file,
            profile,
            entries,
            selected,
            status: String::from_str("q/Esc quit  r reload  \u{2191}/\u{2193} move  Home/End jump"),
        }
    }

    /// The configuration file the aliases come from.
    pub fn config_file(&self) -> (r: &str)
        ensures
            r@ == self.file_view(),
    {
        self.config_file.as_str()
    }

    /// The profile the aliases are matched against.
    pub fn profile(&self) -> (r: Option<Profile>)
        ensures
            r == self.profile_view(),
    {
        self.profile
    }

    /// The help or status line.
    pub fn status(&self) -> (r: &str)
        ensures
            r@ == self.status_view(),
    {
        self.status.as_str()
    }

    /// The entries shown.
    pub fn entries(&self) -> (r: &Vec<AliasEntry>)
        ensures
            r@ == self.entries_view(),
    {
        &self.entries
    }

    /// The selected position.
    pub fn selected(&self) -> (r: Option<usize>)
        ensures
            r == self.selection(),
    {
        self.selected
    }

    /// The selected entry, if any.
    pub fn selected_entry(&self) -> (r: Option<&AliasEntry>)
        requires
            self.wf(),
        ensures
            match self.selection() {
                Some(i) => r matches Some(e) && *e == self.entries_view()[i as int],
                None => r is None,
            },
    {
        match self.selected {
            Some(i) => Some(&self.entries[i]),
            None => None,
        }
    }

    /// Moves the selection down, wrapping to the first entry.
    pub fn next(&mut self)
        requires
            old(self).wf(),
        ensures
            final(self).wf(),
            final(self).entries_view() == old(self).entries_view(),
            final(self).file_view() == old(self).file_view(),
            final(self).profile_view() == old(self).profile_view(),
            final(self).status_view() == old(self).status_view(),
            old(self).entries_view().len() == 0 ==> final(self).selection() == old(self).selection(),
            old(self).entries_view().len() > 0 ==> final(self).selection() == Some(
                next_index(old(self).selection(), old(self).entries_view().len()) as usize,
            ),
    {
        let n = self.entries.len();
        if n == 0 {
            return;
        }
        self.selected = Some(
            match self.selected {
                Some(i) if i + 1 < n => i + 1,
                _ => 0,
            },
        );
    }

    /// Moves the selection up, wrapping to the last entry.
    pub fn previous(&mut self)
        requires
            old(self).wf(),
        ensures
            final(self).wf(),
            final(self).entries_view() == old(self).entries_view(),
            final(self).file_view() == old(self).file_view(),
            final(self).profile_view() == old(self).profile_view(),
            final(self).status_view() == old(self).status_view(),
            old(self).entries_view().len() == 0 ==> final(self).selection() == old(self).selection(),
            old(self).entries_view().len() > 0 ==> final(self).selection() == Some(
                previous_index(old(self).selection(), old(self).entries_view().len()) as usize,
            ),
    {
        let n = self.entries.len();
        if n == 0 {
            return;
        }
        self.selected = Some(
            match self.selected {
                Some(i) if i != 0 => i - 1,
                _ => n - 1,
            },
        );
    }

    /// Selects the first entry, if there is one.
    pub fn first(&mut self)
        requires
            old(self).wf(),
        ensures
            final(self).wf(),
            final(self).entries_view() == old(self).entries_view(),
            final(self).file_view() == old(self).file_view(),
            final(self).profile_view() == old(self).profile_view(),
            final(self).status_view() == old(self).status_view(),
            final(self).selection() == (if old(self).entries_view().len() == 0 {
                old(self).selection()
            } else {
                Some(0usize)
            }),
    {
        if self.entries.len() > 0 {
            self.selected = Some(0);
        }
    }

    /// Selects the last entry, if there is one.
    pub fn last(&mut self)
        requires
            old(self).wf(),
        ensures
            final(self).wf(),
            final(self).entries_view() == old(self).entries_view(),
            final(self).file_view() == old(self).file_view(),
            final(self).profile_view() == old(self).profile_view(),
            final(self).status_view() == old(self).status_view(),
            final(self).selection() == (if old(self).entries_view().len() == 0 {
                old(self).selection()
            } else {
                Some((old(self).entries_view().len() - 1) as usize)
            }),
    {
        let n = self.entries.len();
        if n > 0 {
            self.selected = Some(n - 1);
        }
    }
}

/// A key as the browser reads it.
#[derive(Clone, Copy, Debug, PartialEq, Eq, Structural)]
pub enum KeyInput {
    Char(char),
    Esc,
    Up,
    Down,
    Home,
    End,
    Other,
}

/// What a key asks of the browser.
#[derive(Clone, Copy, Debug, PartialEq, Eq, Structural)]
pub enum KeyAction {
    Quit,
    Previous,
    Next,
    First,
    Last,
    Reload,
    Ignore,
}

/// `q` and Esc quit, the arrows and `k`/`j` move, Home/End and `g`/`G`
/// jump, `r` reloads; every other key is ignored.
pub open spec fn action_of(key: KeyInput) -> KeyAction {
    match key {
        KeyInput::Char('q') | KeyInput::Esc => KeyAction::Quit,
        KeyInput::Up | KeyInput::Char('k') => KeyAction::Previous,
        KeyInput::Down | KeyInput::Char('j') => KeyAction::Next,
        KeyInput::Home | KeyInput::Char('g') => KeyAction::First,
        KeyInput::End | KeyInput::Char('G') => KeyAction::Last,
        KeyInput::Char('r') => KeyAction::Reload,
        _ => KeyAction::Ignore,
    }
}

/// What a key asks of the browser.
pub fn action_for(key: KeyInput) -> (r: KeyAction)
    ensures
        r == action_of(key),
{
    match key {
        KeyInput::Char('q') | KeyInput::Esc => KeyAction::Quit,
        KeyInput::Up | KeyInput::Char('k') => KeyAction::Previous,
        KeyInput::Down | KeyInput::Char('j') => KeyAction::Next,
        KeyInput::Home | KeyInput::Char('g') => KeyAction::First,
        KeyInput::End | KeyInput::Char('G') => KeyAction::Last,
        KeyInput::Char('r') => KeyAction::Reload,
        _ => KeyAction::Ignore,
    }
}

/// The name of the entry at the selection, if any.
pub open spec fn selected_name(entries: Seq<AliasEntry>, selected: Option<usize>) -> Option<Seq<char>> {
    match selected {
        Some(i) => Some(entries[i as int].name@),
        None => None,
    }
}

/// Some entry is named `name`.
pub open spec fn has_entry(entries: Seq<AliasEntry>, name: Seq<char>) -> bool {
    exists|k: int| 0 <= k < entries.len() && #[trigger] entries[k].name@ == name
}

/// The selection after a reload: the entry with the name that was selected
/// (the first such), else the first entry when there is one.
pub open spec fn reselected(entries: Seq<AliasEntry>, kept: Option<Seq<char>>, r: Option<usize>) -> bool {
    if kept is Some && has_entry(entries, kept->0) {
        &&& r is Some
        &&& r->0 < entries.len()
        &&& entries[r->0 as int].name@ == kept->0
        &&& forall|j: int| 0 <= j < r->0 ==> #[trigger] entries[j].name@ != kept->0
    } else {
        r == (if entries.len() == 0 {
            None::<usize>
        } else {
            Some(0usize)
        })
    }
}

/// The line after a reload.
pub open spec fn reloaded_text(count: nat, config_file: Seq<char>) -> Seq<char> {
    "reloaded "@ + decimal(count) + " aliases from "@ + config_file
}

impl App {
    /// Replaces the entries by those of a freshly loaded configuration,
    /// keeping the selected alias selected where it still exists.
    pub fn reload(&mut self, config: Config, current: Platform)
        requires
            old(self).wf(),
        ensures
            final(self).wf(),
            final(self).entries_view().len() == config@.len(),
            forall|i: int|
                0 <= i < config@.len() ==> shows(
                    #[trigger] final(self).entries_view()[i],
                    config@[i].0@,
                    config@[i].1,
                    old(self).profile_view(),
                    current,
                ),
            reselected(
                final(self).entries_view(),
                selected_name(old(self).entries_view(), old(self).selection()),
                final(self).selection(),
            ),
            final(self).file_view() == old(self).file_view(),
            final(self).profile_view() == old(self).profile_view(),
            final(self).status_view() == reloaded_text(config@.len(), old(self).file_view()),
    {
        let kept: Option<String> = match self.selected {
            Some(i) => Some(self.entries[i].name.clone()),
            None => None,
        };
        let ghost kept_view = selected_name(self.entries@, self.selected);
        let entries = build_entries(config, self.profile, current);
        let n = entries.len();
        let mut found: Option<usize> = None;
        if let Some(name) = &kept {
            let mut k: usize = 0;
            while k < n
                invariant_except_break
                    found is None,
                invariant
                    n == entries@.len(),
                    k <= n,
                    forall|j: int| 0 <= j < k ==> #[trigger] entries@[j].name@ != name@,
                ensures
                    found is None ==> forall|j: int| 0 <= j < n ==> #[trigger] entries@[j].name@ != name@,
                    found matches Some(f) ==> f < n && entries@[f as int].name@ == name@ && forall|j: int|
                        0 <= j < f ==> #[trigger] entries@[j].name@ != name@,
                decreases n - k,
            {
                if str_eq(entries[k].name.as_str(), name.as_str()) {
                    found = Some(k);
                    break;
                }
                k = k + 1;
            }
        }
        let selected = match found {
            Some(k) => Some(k),
            None => if n == 0 {
                None
            } else {
                Some(0)
            },
        };
        let mut status = String::from_str("reloaded ");
        status.append(decimal_string(n).as_str());
        status.append(" aliases from ");
        status.append(self.config_file.as_str());
        self.entries = entries;
        self.selected = selected;
        self.status = status;
    }

    /// Reports a reload that failed.
    pub fn reload_failed(&mut self, error: &str)
        ensures
            final(self).status_view() == "reload failed: "@ + error@,
            final(self).entries_view() == old(self).entries_view(),
            final(self).selection() == old(self).selection(),
            final(self).file_view() == old(self).file_view(),
            final(self).profile_view() == old(self).profile_view(),
    {
        let mut status = String::from_str("reload failed: ");
        status.append(error);
        self.status = status;
    }

    /// Moves the selection as `action` asks; the other actions leave the
    /// state as it is.
    pub fn step(&mut self, action: KeyAction)
        requires
            old(self).wf(),
        ensures
            final(self).wf(),
            final(self).entries_view() == old(self).entries_view(),
            final(self).file_view() == old(self).file_view(),
            final(self).profile_view() == old(self).profile_view(),
            final(self).status_view() == old(self).status_view(),
            old(self).entries_view().len() == 0 ==> final(self).selection() == old(self).selection(),
            old(self).entries_view().len() > 0 ==> final(self).selection() == match action {
                KeyAction::Previous => Some(
                    previous_index(old(self).selection(), old(self).entries_view().len()) as usize,
                ),
                KeyAction::Next => Some(
                    next_index(old(self).selection(), old(self).entries_view().len()) as usize,
                ),
                KeyAction::First => Some(0usize),
                KeyAction::Last => Some((old(self).entries_view().len() - 1) as usize),
                _ => old(self).selection(),
            },
    {
        match action {
            KeyAction::Previous => self.previous(),
            KeyAction::Next => self.next(),
            KeyAction::First => self.first(),
            KeyAction::Last => self.last(),
            _ => {},
        }
    }
}

/// `yes` or `no`.
pub open spec fn yes_no(b: bool) -> Seq<char> {
    if b {
        "yes"@
    } else {
        "no"@
    }
}

/// A labelled line for an optional value, or nothing.
pub open spec fn optional_field(label: Seq<char>, value: Option<String>) -> Seq<(Seq<char>, Seq<char>)> {
    match value {
        Some(v) => seq![(label, v@)],
        None => Seq::empty(),
    }
}

/// The labelled lines of the details pane.
pub open spec fn detail_fields(e: AliasEntry, profile: Option<Profile>) -> Seq<(Seq<char>, Seq<char>)> {
    seq![
        ("Name"@, e.name@),
        ("State"@, if e.is_active { "active"@ } else { "inactive"@ }),
        ("Current profile"@, match profile { Some(p) => profile_name(p), None => "none"@ }),
        ("Profile rule"@, match e.alias.profile { Some(p) => profile_name(p), None => "all"@ }),
        ("Tags"@, tags_text(e.alias.tags@)),
        ("Command"@, command_text(e.alias.command@)),
        ("Forward args"@, yes_no(e.alias.forward_args)),
        ("Platforms"@, platforms_text(e.alias.platforms@)),
        ("Platform match"@, yes_no(e.platform_match)),
        ("Profile match"@, yes_no(e.profile_match)),
    ] + optional_field("Description"@, e.alias.description) + optional_field("Bash"@, e.alias.bash)
        + optional_field("PowerShell"@, e.alias.powershell)
}

/// The label and value of each pair.
pub open spec fn pair_views(v: Seq<(String, String)>) -> Seq<(Seq<char>, Seq<char>)> {
    v.map_values(|p: (String, String)| (p.0@, p.1@))
}

fn push_field(v: &mut Vec<(String, String)>, label: &str, value: String)
    ensures
        pair_views(final(v)@) == pair_views(old(v)@).push((label@, value@)),
{
    v.push((String::from_str(label), value));
    assert(pair_views(v@) =~= pair_views(old(v)@).push((label@, value@)));
}

fn push_optional(v: &mut Vec<(String, String)>, label: &str, value: &Option<String>)
    ensures
        pair_views(final(v)@) == pair_views(old(v)@) + optional_field(label@, *value),
{
    match value {
        Some(text) => {
            push_field(v, label, text.clone());
        },
        None => {
            assert(pair_views(v@) =~= pair_views(old(v)@) + optional_field(label@, *value));
        },
    }
}

fn yes_no_string(b: bool) -> (r: String)
    ensures
        r@ == yes_no(b),
{
    if b {
        String::from_str("yes")
    } else {
        String::from_str("no")
    }
}

/// The labelled lines the details pane shows for an entry.
pub fn alias_details(entry: &AliasEntry, profile: Option<Profile>) -> (r: Vec<(String, String)>)
    ensures
        pair_views(r@) == detail_fields(*entry, profile),
{
    let mut v: Vec<(String, String)> = Vec::new();
    push_field(&mut v, "Name", entry.name.clone());
    push_field(
        &mut v,
        "State",
        if entry.is_active {
            String::from_str("active")
        } else {
            String::from_str("inactive")
        },
    );
    push_field(
        &mut v,
        "Current profile",
        match profile {
            Some(p) => format_profile(p),
            None => String::from_str("none"),
        },
    );
    push_field(
        &mut v,
        "Profile rule",
        match entry.alias.profile {
            Some(p) => format_profile(p),
            None => String::from_str("all"),
        },
    );
    push_field(&mut v, "Tags", format_tags(&entry.alias.tags));
    push_field(&mut v, "Command", format_command(&entry.alias.command));
    push_field(&mut v, "Forward args", yes_no_string(entry.alias.forward_args));
    push_field(&mut v, "Platforms", format_platforms(&entry.alias.platforms));
    push_field(&mut v, "Platform match", yes_no_string(entry.platform_match));
    push_field(&mut v, "Profile match", yes_no_string(entry.profile_match));
    let ghost fixed = pair_views(v@);
    push_optional(&mut v, "Description", &entry.alias.description);
    push_optional(&mut v, "Bash", &entry.alias.bash);
    push_optional(&mut v, "PowerShell", &entry.alias.powershell);
    assert(fixed =~= detail_fields(*entry, profile).subrange(0, 10));
    assert(pair_views(v@) =~= detail_fields(*entry, profile));
    v
}

/// One line of the alias list.
pub struct ListRow {
    /// `> ` before the selected entry, two spaces before the others.
    pub marker: String,
    pub name: String,
    /// The tags in brackets, after two spaces.
    pub tags: String,
    pub selected: bool,
    pub active: bool,
}

/// The row shows `e`, selected or not.
pub open spec fn row_shows(row: ListRow, e: AliasEntry, selected: bool) -> bool {
    &&& row.marker@ == (if selected { "> "@ } else { "  "@ })
    &&& row.name@ == e.name@
    &&& row.tags@ == "  ["@ + tags_text(e.alias.tags@) + "]"@
    &&& row.selected == selected
    &&& row.active == e.is_active
}

/// The status line at the top.
pub open spec fn header_text(count: nat, profile: Option<Profile>, config_file: Seq<char>) -> Seq<char> {
    "HunMing TUI  |  "@ + decimal(count) + " aliases  |  "@ + match profile {
        Some(p) => profile_name(p),
        None => "all profiles"@,
    } + "  |  "@ + config_file
}

impl App {
    /// The rows of the alias list, one per entry.
    pub fn rows(&self) -> (r: Vec<ListRow>)
        ensures
            r@.len() == self.entries_view().len(),
            forall|i: int|
                0 <= i < r@.len() ==> row_shows(
                    #[trigger] r@[i],
                    self.entries_view()[i],
                    self.selection() == Some(i as usize),
                ),
    {
        let mut r: Vec<ListRow> = Vec::new();
        let n = self.entries.len();
        let mut i: usize = 0;
        while i < n
            invariant
                n == self.entries@.len(),
                i <= n,
                r@.len() == i,
                forall|k: int|
                    0 <= k < i ==> row_shows(
                        #[trigger] r@[k],
                        self.entries@[k],
                        self.selected == Some(k as usize),
                    ),
            decreases n - i,
        {
            let entry = &self.entries[i];
            let selected = self.selected == Some(i);
            let mut tags = String::from_str("  [");
            tags.append(format_tags(&entry.alias.tags).as_str());
            tags.append("]");
            r.push(
                ListRow {
                    marker: if selected {
                        String::from_str("> ")
                    } else {
                        String::from_str("  ")
                    },
                    name: entry.name.clone(),
                    tags,
                    selected,
                    active: entry.is_active,
                },
            );
            i = i + 1;
        }
        r
    }

    /// The status line at the top: the number of aliases, the profile and
    /// the configuration file.
    pub fn header(&self) -> (r: String)
        ensures
            r@ == header_text(self.entries_view().len(), self.profile_view(), self.file_view()),
    {
        let mut r = String::from_str("HunMing TUI  |  ");
        r.append(decimal_string(self.entries.len()).as_str());
        r.append(" aliases  |  ");
        match self.profile {
            Some(p) => r.append(format_profile(p).as_str()),
            None => r.append("all profiles"),
        }
        r.append("  |  ");
        r.append(self.config_file.as_str());
        r
    }
}

/// Moving down then up comes back to where the selection was, and so does
/// moving up then down.
pub proof fn lemma_next_previous_undo(i: usize, len: nat)
    requires
        i < len <= usize::MAX,
    ensures
        previous_index(Some(next_index(Some(i), len) as usize), len) == i,
        next_index(Some(previous_index(Some(i), len) as usize), len) == i,
{
}

} // verus!
