//! The checks of `doctor`, made over what was observed of the files.
use vstd::prelude::*;
use crate::block::{bash_block, bash_managed_block, powershell_block, powershell_managed_block};
use crate::model::{Alias, Config};
use crate::paths::{join_path, AppPaths, DoctorTargets};
use crate::install::opt_view;
use crate::text::{chars_of, contains, contains_str, join, join_strings, pieces, split_pieces, views};

verus! {

/// What was found of the configuration file.
#[derive(Clone, Debug)]
pub enum ConfigState {
    Missing,
    Invalid(String),
    Valid(Config),
}

/// What reading a shell profile gave.
#[derive(Clone, Debug, PartialEq, Eq)]
pub enum ProfileRead {
    Missing,
    Failed(String),
    Content(String),
}

/// What `doctor` observed of an installation.
#[derive(Clone, Debug)]
pub struct DoctorObservations {
    pub config: ConfigState,
    pub bash_script_exists: bool,
    pub zsh_script_exists: bool,
    pub powershell_script_exists: bool,
    pub bash_rc: ProfileRead,
    pub zsh_rc: ProfileRead,
    pub powershell_profile: ProfileRead,
    /// The content of `~/.bash_profile`, when it could be read.
    pub bash_login: Option<String>,
    /// For each alias of a valid configuration, in name order, whether a
    /// program of that name is on the search path.
    pub command_found: Vec<bool>,
}

/// The report being built: one line per check.
pub struct DoctorReport {
    lines: Vec<String>,
}

/// A passed check.
pub open spec fn ok_line(message: Seq<char>) -> Seq<char> {
    "[\u{2713}] "@ + message
}

/// A warning.
pub open spec fn warn_line(message: Seq<char>) -> Seq<char> {
    "[!] "@ + message
}

/// The lines joined by line breaks, with a final line break.
pub open spec fn finished(lines: Seq<Seq<char>>) -> Seq<char> {
    if lines.len() == 0 {
        Seq::empty()
    } else {
        join(lines, "\n"@) + "\n"@
    }
}

impl DoctorReport {
    /// The lines so far.
    pub closed spec fn lines_of(&self) -> Seq<Seq<char>> {
        views(self.lines@)
    }

    /// An empty report.
    pub fn new() -> (r: DoctorReport)
        ensures
            r.lines_of() == Seq::<Seq<char>>::empty(),
    {
        let r = DoctorReport { lines: Vec::new() };
        assert(r.lines_of() =~= Seq::<Seq<char>>::empty());
        r
    }

    /// Records a passed check.
    pub fn ok(&mut self, message: &str)
        ensures
            final(self).lines_of() == old(self).lines_of().push(ok_line(message@)),
    {
        let mut line = String::from_str("[\u{2713}] ");
        line.append(message);
        let ghost before = self.lines@;
        self.lines.push(line);
        assert(views(self.lines@) =~= views(before).push(ok_line(message@)));
    }

    /// Records a warning.
    pub fn warn(&mut self, message: &str)
        ensures
            final(self).lines_of() == old(self).lines_of().push(warn_line(message@)),
    {
        let mut line = String::from_str("[!] ");
        line.append(message);
        let ghost before = self.lines@;
        self.lines.push(line);
        assert(views(self.lines@) =~= views(before).push(warn_line(message@)));
    }

    /// The report: every line followed by a line break.
    pub fn finish(self) -> (r: String)
        ensures
            r@ == finished(self.lines_of()),
    {
        if self.lines.len() == 0 {
            return String::new();
        }
        let mut r = join_strings(&self.lines, "\n");
        r.append("\n");
        r
    }
}

/// The line about a shell profile and the managed block it should hold.
pub open spec fn profile_line(label: Seq<char>, path: Seq<char>, read: ProfileRead, block: Seq<
    char,
>) -> Seq<char> {
    match read {
        ProfileRead::Content(c) => if contains(c@, block) {
            ok_line(label + " contains humming managed block"@)
        } else {
            warn_line(label + " does not contain humming managed block"@)
        },
        ProfileRead::Missing => warn_line(label + " missing"@),
        ProfileRead::Failed(e) => warn_line("failed to read "@ + label + " at "@ + path + ": "@ + e@),
    }
}

/// The ways a login profile can source `~/.bashrc`.
pub open spec fn sources_bash_rc(content: Seq<char>) -> bool {
    ||| contains(content, ". ~/.bashrc"@)
    ||| contains(content, "source ~/.bashrc"@)
    ||| contains(content, ". \"$HOME/.bashrc\""@)
    ||| contains(content, "source \"$HOME/.bashrc\""@)
    ||| contains(content, ". ${HOME}/.bashrc"@)
    ||| contains(content, "source ${HOME}/.bashrc"@)
}

/// Whether the login profile sources `~/.bashrc` in one of the usual ways.
pub fn profile_sources_bash_rc(content: &str) -> (r: bool)
    ensures
        r == sources_bash_rc(content@),
{
    contains_str(content, ". ~/.bashrc") || contains_str(content, "source ~/.bashrc")
        || contains_str(content, ". \"$HOME/.bashrc\"") || contains_str(
        content,
        "source \"$HOME/.bashrc\"",
    ) || contains_str(content, ". ${HOME}/.bashrc") || contains_str(
        content,
        "source ${HOME}/.bashrc",
    )
}

/// The line about a generated script.
pub open spec fn script_line(shell: Seq<char>, exists: bool) -> Seq<char> {
    if exists {
        ok_line("generated "@ + shell + " file exists"@)
    } else {
        warn_line("generated "@ + shell + " file missing"@)
    }
}

/// The line about the configuration file.
pub open spec fn config_line(state: ConfigState) -> Seq<char> {
    match state {
        ConfigState::Missing => warn_line("config file missing"@),
        ConfigState::Invalid(e) => warn_line("config file is invalid: "@ + e@),
        ConfigState::Valid(_) => ok_line("config file exists"@),
    }
}

/// The names among the first `n` aliases that a program on the search path
/// shadows, in name order.
pub open spec fn shadowed_names(entries: Seq<(String, Alias)>, found: Seq<bool>, n: int) -> Seq<
    Seq<char>,
>
    decreases n,
{
    if n <= 0 {
        Seq::empty()
    } else if n - 1 < found.len() && found[n - 1] {
        shadowed_names(entries, found, n - 1).push(entries[n - 1].0@)
    } else {
        shadowed_names(entries, found, n - 1)
    }
}

/// The lines about the aliases of a valid configuration.
pub open spec fn alias_lines(state: ConfigState, found: Seq<bool>) -> Seq<Seq<char>> {
    match state {
        ConfigState::Valid(c) => {
            let names = shadowed_names(c@, found, c@.len() as int);
            seq![ok_line("no duplicated alias names"@)] + if names.len() == 0 {
                seq![ok_line("no aliases shadow existing command"@)]
            } else {
                names.map_values(
                    |n: Seq<char>| warn_line("alias \""@ + n + "\" shadows existing command"@),
                )
            }
        },
        _ => Seq::empty(),
    }
}

/// The names of the aliases that a program on the search path shadows.
fn shadowing(config: &Config, found: &Vec<bool>) -> (r: Vec<String>)
    ensures
        views(r@) == shadowed_names(config@, found@, config@.len() as int),
{
    let entries = config.entries();
    let n = entries.len();
    let mut r: Vec<String> = Vec::new();
    let mut i: usize = 0;
    assert(views(r@) =~= Seq::<Seq<char>>::empty());
    while i < n
        invariant
            n == config@.len(),
            entries@ == config@,
            i <= n,
            views(r@) == shadowed_names(config@, found@, i as int),
        decreases n - i,
    {
        if i < found.len() && found[i] {
            let ghost before = r@;
            r.push(entries[i].0.clone());
            assert(views(r@) =~= views(before).push(config@[i as int].0@));
        }
        i = i + 1;
    }
    r
}

/// Every line of the report, in order.
pub open spec fn doctor_lines(paths: AppPaths, targets: DoctorTargets, obs: DoctorObservations) -> Seq<
    Seq<char>,
> {
    seq![
        config_line(obs.config),
        script_line("bash"@, obs.bash_script_exists),
        script_line("zsh"@, obs.zsh_script_exists),
        script_line("powershell"@, obs.powershell_script_exists),
        profile_line("~/.bashrc"@, targets.bash_rc_profile@, obs.bash_rc, bash_block(paths.bash_script@)),
        profile_line("~/.zshrc"@, targets.zsh_profile@, obs.zsh_rc, bash_block(paths.zsh_script@)),
        if match obs.bash_login {
            Some(c) => sources_bash_rc(c@),
            None => false,
        } {
            ok_line("~/.bash_profile sources ~/.bashrc"@)
        } else {
            warn_line("~/.bash_profile does not source ~/.bashrc"@)
        },
        profile_line(
            "PowerShell profile"@,
            targets.powershell_profile@,
            obs.powershell_profile,
            powershell_block(paths.powershell_script@),
        ),
        warn_line("PowerShell execution policy may block profile loading"@),
    ] + alias_lines(obs.config, obs.command_found@)
}

fn check_profile_block(
    report: &mut DoctorReport,
    label: &str,
    path: &str,
    read: &ProfileRead,
    block: &str,
)
    ensures
        final(report).lines_of() == old(report).lines_of().push(
            profile_line(label@, path@, *read, block@),
        ),
{
    match read {
        ProfileRead::Content(c) => {
            if contains_str(c.as_str(), block) {
                let mut m = String::from_str(label);
                m.append(" contains humming managed block");
                report.ok(m.as_str());
            } else {
                let mut m = String::from_str(label);
                m.append(" does not contain humming managed block");
                report.warn(m.as_str());
            }
        },
        ProfileRead::Missing => {
            let mut m = String::from_str(label);
            m.append(" missing");
            report.warn(m.as_str());
        },
        ProfileRead::Failed(e) => {
            let mut m = String::from_str("failed to read ");
            m.append(label);
            m.append(" at ");
            m.append(path);
            m.append(": ");
            m.append(e.as_str());
            report.warn(m.as_str());
        },
    }
}

fn check_script(report: &mut DoctorReport, shell: &str, exists: bool)
    ensures
        final(report).lines_of() == old(report).lines_of().push(script_line(shell@, exists)),
{
    let mut m = String::from_str("generated ");
    m.append(shell);
    if exists {
        m.append(" file exists");
        report.ok(m.as_str());
    } else {
        m.append(" file missing");
        report.warn(m.as_str());
    }
}

/// The report of `doctor` over what was observed of the installation.
pub fn doctor_report(paths: &AppPaths, targets: &DoctorTargets, obs: &DoctorObservations) -> (r:
    String)
    ensures
        r@ == finished(doctor_lines(*paths, *targets, *obs)),
{
    let mut report = DoctorReport::new();
    match &obs.config {
        ConfigState::Missing => report.warn("config file missing"),
        ConfigState::Invalid(e) => {
            let mut m = String::from_str("config file is invalid: ");
            m.append(e.as_str());
            report.warn(m.as_str());
        },
        ConfigState::Valid(_) => report.ok("config file exists"),
    }
    check_script(&mut report, "bash", obs.bash_script_exists);
    check_script(&mut report, "zsh", obs.zsh_script_exists);
    check_script(&mut report, "powershell", obs.powershell_script_exists);
    let block = bash_managed_block(paths.bash_script.as_str());
    check_profile_block(
        &mut report,
        "~/.bashrc",
        targets.bash_rc_profile.as_str(),
        &obs.bash_rc,
        block.as_str(),
    );
    let block = bash_managed_block(paths.zsh_script.as_str());
    check_profile_block(
        &mut report,
        "~/.zshrc",
        targets.zsh_profile.as_str(),
        &obs.zsh_rc,
        block.as_str(),
    );
    let sources = match &obs.bash_login {
        Some(c) => profile_sources_bash_rc(c.as_str()),
        None => false,
    };
    if sources {
        report.ok("~/.bash_profile sources ~/.bashrc");
    } else {
        report.warn("~/.bash_profile does not source ~/.bashrc");
    }
    let block = powershell_managed_block(paths.powershell_script.as_str());
    check_profile_block(
        &mut report,
        "PowerShell profile",
        targets.powershell_profile.as_str(),
        &obs.powershell_profile,
        block.as_str(),
    );
    report.warn("PowerShell execution policy may block profile loading");
    let ghost fixed = report.lines_of();
    if let ConfigState::Valid(c) = &obs.config {
        report.ok("no duplicated alias names");
        let shadowed = shadowing(c, &obs.command_found);
        let ghost names = views(shadowed@);
        let n = shadowed.len();
        if n == 0 {
            report.ok("no aliases shadow existing command");
        } else {
            let ghost start = report.lines_of();
            let mut i: usize = 0;
            while i < n
                invariant
                    n == shadowed@.len(),
                    names == views(shadowed@),
                    i <= n,
                    report.lines_of() == start + names.subrange(0, i as int).map_values(
                        |n: Seq<char>| warn_line("alias \""@ + n + "\" shadows existing command"@),
                    ),
                decreases n - i,
            {
                let mut m = String::from_str("alias \"");
                m.append(shadowed[i].as_str());
                m.append("\" shadows existing command");
                report.warn(m.as_str());
                proof {
                    assert(names.subrange(0, i + 1) =~= names.subrange(0, i as int).push(
                        names[i as int],
                    ));
                    assert(report.lines_of() =~= start + names.subrange(0, i + 1).map_values(
                        |n: Seq<char>| warn_line("alias \""@ + n + "\" shadows existing command"@),
                    ));
                }
                i = i + 1;
            }
            assert(names.subrange(0, n as int) =~= names);
        }
    }
    proof {
        assert(report.lines_of() =~= doctor_lines(*paths, *targets, *obs));
    }
    report.finish()
}

/// What `doctor --fix` repairs, by what it found of the configuration.
#[derive(Clone, Copy, Debug, PartialEq, Eq, Structural)]
pub enum Repair {
    /// Write the default configuration, then the scripts and profile blocks.
    CreateConfigAndInstall,
    /// Write the scripts and profile blocks.
    Install,
    /// Leave everything as it is.
    Nothing,
}

/// A missing configuration is created and installed, a valid one
/// reinstalled, an invalid one left alone.
pub fn repair_doctor(state: &ConfigState) -> (r: Repair)
    ensures
        r == match state {
            ConfigState::Missing => Repair::CreateConfigAndInstall,
            ConfigState::Valid(_) => Repair::Install,
            ConfigState::Invalid(_) => Repair::Nothing,
        },
{
    match state {
        ConfigState::Missing => Repair::CreateConfigAndInstall,
        ConfigState::Valid(_) => Repair::Install,
        ConfigState::Invalid(_) => Repair::Nothing,
    }
}

/// A separator of a Windows path.
pub open spec fn is_path_sep(c: char) -> bool {
    c == '/' || c == '\\'
}

/// The last character of `p` ends nothing that names a file: a separator,
/// or the `.` of a final `.` component.
pub open spec fn win_filler(p: Seq<char>) -> bool {
    p.len() > 0 && (is_path_sep(p.last()) || (p.len() >= 2 && p.last() == '.' && is_path_sep(
        p[p.len() - 2],
    )))
}

/// `p` without the trailing separators and `.` components that a path's
/// file name skips.
pub open spec fn strip_win(p: Seq<char>) -> Seq<char>
    decreases p.len(),
{
    if win_filler(p) {
        strip_win(p.drop_last())
    } else {
        p
    }
}

/// The last component of `q` is `..`, which names no file.
pub open spec fn dot_dot_last(q: Seq<char>) -> bool {
    &&& q.len() >= 2
    &&& q.last() == '.'
    &&& q[q.len() - 2] == '.'
    &&& (q.len() == 2 || is_path_sep(q[q.len() - 3]))
}

/// The last component of `q` holds a `.` that does not open it.
pub open spec fn dot_in_last(q: Seq<char>) -> bool {
    exists|i: int|
        0 < i < q.len() && #[trigger] q[i] == '.' && !is_path_sep(q[i - 1]) && forall|j: int|
            i < j < q.len() ==> !is_path_sep(#[trigger] q[j])
}

/// The file name of `name` has an extension, as `Path::extension` finds
/// one: trailing separators and `.` components are skipped, a `..` has
/// none, and otherwise a `.` that does not open the file name marks one.
pub open spec fn has_extension(name: Seq<char>) -> bool {
    let q = strip_win(name);
    !dot_dot_last(q) && dot_in_last(q)
}

/// The extensions Windows tries when `PATHEXT` is not set.
pub open spec fn default_extensions() -> Seq<Seq<char>> {
    seq![".COM"@, ".EXE"@, ".BAT"@, ".CMD"@]
}

/// The files that would run `name` from directory `dir` on Windows: the
/// name itself, then, when it has no extension, the name with each
/// extension of `PATHEXT` (its non-empty `;`-separated parts, or the
/// default ones when it is not set).
pub open spec fn candidates_of(dir: Seq<char>, name: Seq<char>, pathext: Option<Seq<char>>) -> Seq<
    Seq<char>,
> {
    let exts = match pathext {
        Some(v) => pieces(v, false),
        None => default_extensions(),
    };
    seq![join_path(dir, name)] + if has_extension(name) {
        Seq::empty()
    } else {
        exts.map_values(|e: Seq<char>| join_path(dir, name + e))
    }
}

fn dot_in_prefix(cs: &Vec<char>, n: usize) -> (r: bool)
    requires
        n <= cs@.len(),
    ensures
        r == dot_in_last(cs@.subrange(0, n as int)),
{
    let ghost q = cs@.subrange(0, n as int);
    let mut has_dot = false;
    let mut k: usize = 0;
    while k < n
        invariant
            n <= cs@.len(),
            q == cs@.subrange(0, n as int),
            k <= n,
            has_dot == exists|i: int|
                0 < i < k && #[trigger] q[i] == '.' && !is_path_sep(q[i - 1]) && forall|j: int|
                    i < j < k ==> !is_path_sep(#[trigger] q[j]),
        decreases n - k,
    {
        let c = cs[k];
        assert(q[k as int] == c);
        if k > 0 {
            assert(q[k - 1] == cs@[k - 1]);
        }
        if c == '/' || c == '\\' {
            has_dot = false;
        } else if c == '.' && k > 0 && cs[k - 1] != '/' && cs[k - 1] != '\\' {
            has_dot = true;
        } else {
            proof {
                if has_dot {
                    let i = choose|i: int|
                        0 < i < k && #[trigger] q[i] == '.' && !is_path_sep(q[i - 1]) && forall|
                            j: int,
                        |
                            i < j < k ==> !is_path_sep(#[trigger] q[j]);
                    assert(forall|j: int| i < j < k + 1 ==> !is_path_sep(#[trigger] q[j]));
                } else {
                    assert forall|i: int|
                        0 < i < k + 1 && #[trigger] q[i] == '.' && !is_path_sep(
                            q[i - 1],
                        ) implies !(forall|j: int| i < j < k + 1 ==> !is_path_sep(#[trigger] q[j])) by {
                        if i < k {
                            if forall|j: int| i < j < k + 1 ==> !is_path_sep(#[trigger] q[j]) {
                                assert(forall|j: int| i < j < k ==> !is_path_sep(#[trigger] q[j]));
                            }
                        }
                    }
                }
            }
        }
        k = k + 1;
    }
    has_dot
}

fn name_has_extension(name: &str) -> (r: bool)
    ensures
        r == has_extension(name@),
{
    let cs = chars_of(name);
    let mut end = cs.len();
    assert(cs@.subrange(0, end as int) =~= name@);
    while end > 0 && (cs[end - 1] == '/' || cs[end - 1] == '\\' || (end >= 2 && cs[end - 1] == '.'
        && (cs[end - 2] == '/' || cs[end - 2] == '\\')))
        invariant
            cs@ == name@,
            end <= cs@.len(),
            strip_win(name@) == strip_win(cs@.subrange(0, end as int)),
        decreases end,
    {
        assert(cs@.subrange(0, end as int).drop_last() =~= cs@.subrange(0, end - 1));
        end = end - 1;
    }
    let ghost q = cs@.subrange(0, end as int);
    assert(strip_win(q) == q);
    let dot_dot = end >= 2 && cs[end - 1] == '.' && cs[end - 2] == '.' && (end == 2 || cs[end - 3]
        == '/' || cs[end - 3] == '\\');
    !dot_dot && dot_in_prefix(&cs, end)
}

/// The files that would run `name` from directory `dir` on Windows.
pub fn command_candidates(dir: &str, name: &str, pathext: Option<String>) -> (r: Vec<String>)
    ensures
        views(r@) == candidates_of(dir@, name@, opt_view(pathext)),
{
    let mut r: Vec<String> = Vec::new();
    r.push(crate::paths::join(dir, name));
    let ghost first = views(r@);
    if name_has_extension(name) {
        assert(views(r@) =~= candidates_of(dir@, name@, opt_view(pathext)));
        return r;
    }
    let exts = match &pathext {
        Some(v) => split_pieces(v.as_str(), false),
        None => {
            let mut d: Vec<String> = Vec::new();
            d.push(String::from_str(".COM"));
            d.push(String::from_str(".EXE"));
            d.push(String::from_str(".BAT"));
            d.push(String::from_str(".CMD"));
            assert(views(d@) =~= default_extensions());
            d
        },
    };
    let ghost ev = views(exts@);
    let n = exts.len();
    let mut i: usize = 0;
    while i < n
        invariant
            n == exts@.len(),
            ev == views(exts@),
            i <= n,
            views(r@) == first + ev.subrange(0, i as int).map_values(
                |e: Seq<char>| join_path(dir@, name@ + e),
            ),
        decreases n - i,
    {
        let mut file = String::from_str(name);
        file.append(exts[i].as_str());
        let ghost before = r@;
        r.push(crate::paths::join(dir, file.as_str()));
        proof {
            assert(ev.subrange(0, i + 1) =~= ev.subrange(0, i as int).push(ev[i as int]));
            assert(views(r@) =~= views(before).push(join_path(dir@, name@ + ev[i as int])));
            assert(views(r@) =~= first + ev.subrange(0, i + 1).map_values(
                |e: Seq<char>| join_path(dir@, name@ + e),
            ));
        }
        i = i + 1;
    }
    assert(ev.subrange(0, n as int) =~= ev);
    assert(views(r@) =~= candidates_of(dir@, name@, opt_view(pathext)));
    r
}

/// How many of the first `n` flags are set.
pub open spec fn count_set(found: Seq<bool>, n: int) -> nat
    decreases n,
{
    if n <= 0 {
        0
    } else {
        count_set(found, n - 1) + if n - 1 < found.len() && found[n - 1] {
            1nat
        } else {
            0nat
        }
    }
}

proof fn lemma_shadowed_names(entries: Seq<(String, Alias)>, found: Seq<bool>, n: int)
    requires
        0 <= n <= entries.len(),
    ensures
        shadowed_names(entries, found, n).len() == count_set(found, n),
        forall|i: int|
            0 <= i < n && i < found.len() && #[trigger] found[i] ==> shadowed_names(
                entries,
                found,
                n,
            ).contains(entries[i].0@),
    decreases n,
{
    if n > 0 {
        lemma_shadowed_names(entries, found, n - 1);
        let before = shadowed_names(entries, found, n - 1);
        let after = shadowed_names(entries, found, n);
        assert forall|i: int| 0 <= i < n && i < found.len() && #[trigger] found[i] implies after.contains(
            entries[i].0@,
        ) by {
            if i < n - 1 {
                let k = choose|k: int| 0 <= k < before.len() && before[k] == entries[i].0@;
                if after != before {
                    assert(after[k] == before[k]);
                }
            } else {
                assert(after[before.len() as int] == entries[i].0@);
            }
        }
    }
}

/// For a valid configuration, `doctor` warns once for every alias that a
/// program on the search path shadows, and for no other: the report holds
/// the warning for each shadowed alias, and its length is the nine fixed
/// lines, the line on duplicated names, and one line per shadowed alias
/// (or one line saying none is shadowed).
pub proof fn lemma_shadow_warnings(
    paths: AppPaths,
    targets: DoctorTargets,
    obs: DoctorObservations,
    c: Config,
)
    requires
        obs.config == ConfigState::Valid(c),
    ensures
        forall|i: int|
            0 <= i < c@.len() && i < obs.command_found@.len() && #[trigger] obs.command_found@[i]
                ==> doctor_lines(paths, targets, obs).contains(
                warn_line("alias \""@ + c@[i].0@ + "\" shadows existing command"@),
            ),
        doctor_lines(paths, targets, obs).len() == 10 + if count_set(
            obs.command_found@,
            c@.len() as int,
        ) == 0 {
            1nat
        } else {
            count_set(obs.command_found@, c@.len() as int)
        },
{
    let found = obs.command_found@;
    lemma_shadowed_names(c@, found, c@.len() as int);
    let names = shadowed_names(c@, found, c@.len() as int);
    let lines = doctor_lines(paths, targets, obs);
    let tail = alias_lines(obs.config, found);
    assert(lines.len() == 9 + tail.len());
    assert forall|i: int|
        0 <= i < c@.len() && i < found.len() && #[trigger] found[i] implies lines.contains(
        warn_line("alias \""@ + c@[i].0@ + "\" shadows existing command"@),
    ) by {
        let k = choose|k: int| 0 <= k < names.len() && names[k] == c@[i].0@;
        assert(tail[1 + k] == warn_line("alias \""@ + names[k] + "\" shadows existing command"@));
        assert(lines[9 + 1 + k] == tail[1 + k]);
    }
}

} // verus!
