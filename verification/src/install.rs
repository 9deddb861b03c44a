//! The decisions behind the commands that change files: which scripts and
//! profiles are written with what, and how `add` and `remove` change the
//! configuration.
use vstd::prelude::*;
use crate::block::{bash_block, powershell_block};
pub use crate::block::{
    bash_managed_block, insert_managed_block, powershell_managed_block, MANAGED_BLOCK_END,
    MANAGED_BLOCK_START,
};
pub use crate::listing::{list, show};
use crate::error::{ErrorView, HunmingError};
use crate::model::{alias_map, lemma_map_at, names_sorted, Alias, Config, Platform, Profile};
use crate::paths::{join_path, last_slash, AppPaths, InitTargets};
use crate::render::{render_bash_with_profile, render_powershell_with_profile, script};
use crate::text::{all_ws, chars_of, pieces, split_pieces, str_eq, trim, trim_string, views};
use crate::validation::{
    alias_issue, defines_something, first_entry_issue, first_tag_issue, non_blank, outcome, valid_name,
    validate_alias_name, validate_config,
};

verus! {

/// One of the shells that hunming writes scripts and profile blocks for.
#[derive(Clone, Copy, Debug, PartialEq, Eq, Structural)]
pub enum InitShell {
    Bash,
    Zsh,
    Powershell,
}

/// The shell is chosen: every shell when none is named, else the named one.
pub open spec fn chosen(shell: Option<InitShell>, which: InitShell) -> bool {
    shell is None || shell == Some(which)
}

fn is_chosen(shell: Option<InitShell>, which: InitShell) -> (r: bool)
    ensures
        r == chosen(shell, which),
{
    match shell {
        None => true,
        Some(s) => s == which,
    }
}

/// The generated scripts.
#[derive(Clone, Debug, PartialEq, Eq)]
pub struct ApplyResult {
    pub bash_script: String,
    pub zsh_script: String,
    pub powershell_script: String,
}

/// Shell profiles, or their backups, that a command touched.
#[derive(Clone, Debug, PartialEq, Eq)]
pub struct ProfileResult {
    pub profile_paths: Vec<String>,
}

/// The configuration file, the shell profiles and the generated scripts of
/// an installation.
#[derive(Clone, Debug, PartialEq, Eq)]
pub struct InitResult {
    pub config_file: String,
    pub bash_profile: String,
    pub zsh_profile: String,
    pub powershell_profile: String,
    pub bash_script: String,
    pub zsh_script: String,
    pub powershell_script: String,
}

/// A file to be written with the given content.
#[derive(Clone, Debug, PartialEq, Eq)]
pub struct FileWrite {
    pub path: String,
    pub content: String,
}

/// A file to be copied.
#[derive(Clone, Debug, PartialEq, Eq)]
pub struct FileCopy {
    pub from: String,
    pub to: String,
}

/// The scripts to write and what `apply` reports.
#[derive(Clone, Debug, PartialEq, Eq)]
pub struct ApplyPlan {
    pub writes: Vec<FileWrite>,
    pub result: ApplyResult,
}

/// The scripts to write, the managed blocks to put in shell profiles, and
/// what `init` reports.
#[derive(Clone, Debug, PartialEq, Eq)]
pub struct InitPlan {
    pub apply: ApplyPlan,
    pub profile_blocks: Vec<FileWrite>,
    pub result: InitResult,
}

/// The views of planned writes: path and content.
pub open spec fn write_views(w: Seq<FileWrite>) -> Seq<(Seq<char>, Seq<char>)> {
    w.map_values(|f: FileWrite| (f.path@, f.content@))
}

/// The views of planned copies: source and destination.
pub open spec fn copy_views(c: Seq<FileCopy>) -> Seq<(Seq<char>, Seq<char>)> {
    c.map_values(|f: FileCopy| (f.from@, f.to@))
}

/// `item` when `keep`, else nothing.
pub open spec fn when<A>(keep: bool, item: A) -> Seq<A> {
    if keep {
        seq![item]
    } else {
        Seq::empty()
    }
}

/// The scripts `apply` writes: Bash and Zsh get the Bash script,
/// PowerShell its own, each when its shell is chosen.
pub open spec fn apply_writes(
    paths: AppPaths,
    s: Seq<(String, Alias)>,
    shell: Option<InitShell>,
    profile: Option<Profile>,
    current: Platform,
) -> Seq<(Seq<char>, Seq<char>)> {
    when(chosen(shell, InitShell::Bash), (paths.bash_script@, script(s, false, profile, current)))
        + when(
        chosen(shell, InitShell::Zsh),
        (paths.zsh_script@, script(s, false, profile, current)),
    ) + when(
        chosen(shell, InitShell::Powershell),
        (paths.powershell_script@, script(s, true, profile, current)),
    )
}

/// The three scripts of `paths`.
pub open spec fn apply_result_of(r: ApplyResult, paths: AppPaths) -> bool {
    r.bash_script@ == paths.bash_script@ && r.zsh_script@ == paths.zsh_script@
        && r.powershell_script@ == paths.powershell_script@
}

fn push_when(v: &mut Vec<FileWrite>, keep: bool, path: &String, content: String)
    ensures
        write_views(final(v)@) == write_views(old(v)@) + when(keep, (path@, content@)),
{
    let ghost before = v@;
    if keep {
        v.push(FileWrite { path: path.clone(), content });
        assert(write_views(v@) =~= write_views(before) + seq![(path@, content@)]);
    } else {
        assert(write_views(v@) =~= write_views(before) + Seq::empty());
    }
}

fn apply_result(paths: &AppPaths) -> (r: ApplyResult)
    ensures
        apply_result_of(r, *paths),
{
    ApplyResult {
        bash_script: paths.bash_script.clone(),
        zsh_script: paths.zsh_script.clone(),
        powershell_script: paths.powershell_script.clone(),
    }
}

/// The scripts to write for `config` and what `apply` reports: the Bash
/// script goes to the Bash and the Zsh files, the PowerShell script to its
/// file, each when its shell is chosen.
pub fn apply_with_profile(
    paths: &AppPaths,
    config: &Config,
    shell: Option<InitShell>,
    profile: Option<Profile>,
    current: Platform,
) -> (r: ApplyPlan)
    ensures
        write_views(r.writes@) == apply_writes(*paths, config@, shell, profile, current),
        apply_result_of(r.result, *paths),
{
    let mut writes: Vec<FileWrite> = Vec::new();
    assert(write_views(writes@) =~= Seq::empty());
    let bash = is_chosen(shell, InitShell::Bash);
    let zsh = is_chosen(shell, InitShell::Zsh);
    let powershell = is_chosen(shell, InitShell::Powershell);
    if bash {
        push_when(&mut writes, true, &paths.bash_script, render_bash_with_profile(config, profile, current));
    } else {
        push_when(&mut writes, false, &paths.bash_script, String::new());
    }
    if zsh {
        push_when(&mut writes, true, &paths.zsh_script, render_bash_with_profile(config, profile, current));
    } else {
        push_when(&mut writes, false, &paths.zsh_script, String::new());
    }
    if powershell {
        push_when(
            &mut writes,
            true,
            &paths.powershell_script,
            render_powershell_with_profile(config, profile, current),
        );
    } else {
        push_when(&mut writes, false, &paths.powershell_script, String::new());
    }
    proof {
        assert(write_views(writes@) =~= apply_writes(*paths, config@, shell, profile, current));
    }
    ApplyPlan { writes, result: apply_result(paths) }
}

/// The scripts to write for `config` with every profile's aliases.
pub fn apply(paths: &AppPaths, config: &Config, shell: Option<InitShell>, current: Platform) -> (r:
    ApplyPlan)
    ensures
        write_views(r.writes@) == apply_writes(*paths, config@, shell, None, current),
        apply_result_of(r.result, *paths),
{
    apply_with_profile(paths, config, shell, None, current)
}

/// The managed blocks `init` puts into the chosen shells' profiles.
pub open spec fn init_blocks(paths: AppPaths, targets: InitTargets, shell: Option<InitShell>) -> Seq<
    (Seq<char>, Seq<char>),
> {
    when(
        chosen(shell, InitShell::Bash),
        (targets.bash_profile@, bash_block(paths.bash_script@)),
    ) + when(
        chosen(shell, InitShell::Zsh),
        (targets.zsh_profile@, bash_block(paths.zsh_script@)),
    ) + when(
        chosen(shell, InitShell::Powershell),
        (targets.powershell_profile@, powershell_block(paths.powershell_script@)),
    )
}

/// What `init` reports: the configuration file, the three profiles and the
/// three scripts.
pub open spec fn init_result_of(r: InitResult, paths: AppPaths, targets: InitTargets) -> bool {
    &&& r.config_file@ == paths.config_file@
    &&& r.bash_profile@ == targets.bash_profile@
    &&& r.zsh_profile@ == targets.zsh_profile@
    &&& r.powershell_profile@ == targets.powershell_profile@
    &&& r.bash_script@ == paths.bash_script@
    &&& r.zsh_script@ == paths.zsh_script@
    &&& r.powershell_script@ == paths.powershell_script@
}

/// What `init` does once the configuration exists: writes every script
/// with the profile's aliases, puts the managed block into each chosen
/// shell's profile, and reports the files.
pub fn init_with_targets_and_shell_and_profile(
    paths: &AppPaths,
    targets: &InitTargets,
    shell: Option<InitShell>,
    profile: Option<Profile>,
    config: &Config,
    current: Platform,
) -> (r: InitPlan)
    ensures
        write_views(r.apply.writes@) == apply_writes(*paths, config@, None, profile, current),
        apply_result_of(r.apply.result, *paths),
        write_views(r.profile_blocks@) == init_blocks(*paths, *targets, shell),
        init_result_of(r.result, *paths, *targets),
{
    let plan = apply_with_profile(paths, config, None, profile, current);
    let mut blocks: Vec<FileWrite> = Vec::new();
    assert(write_views(blocks@) =~= Seq::empty());
    let b = is_chosen(shell, InitShell::Bash);
    let block = if b {
        bash_managed_block(paths.bash_script.as_str())
    } else {
        String::new()
    };
    push_when(&mut blocks, b, &targets.bash_profile, block);
    let z = is_chosen(shell, InitShell::Zsh);
    let block = if z {
        bash_managed_block(paths.zsh_script.as_str())
    } else {
        String::new()
    };
    push_when(&mut blocks, z, &targets.zsh_profile, block);
    let p = is_chosen(shell, InitShell::Powershell);
    let block = if p {
        powershell_managed_block(paths.powershell_script.as_str())
    } else {
        String::new()
    };
    push_when(&mut blocks, p, &targets.powershell_profile, block);
    proof {
        assert(write_views(blocks@) =~= init_blocks(*paths, *targets, shell));
    }
    let result = InitResult {
        config_file: paths.config_file.clone(),
        bash_profile: targets.bash_profile.clone(),
        zsh_profile: targets.zsh_profile.clone(),
        powershell_profile: targets.powershell_profile.clone(),
        bash_script: plan.result.bash_script.clone(),
        zsh_script: plan.result.zsh_script.clone(),
        powershell_script: plan.result.powershell_script.clone(),
    };
    InitPlan { apply: plan, profile_blocks: blocks, result }
}

/// Running `init` again with the same arguments leaves every profile as the
/// first run left it: each block it puts into a profile is already in place
/// there, so inserting it again changes nothing (provided the closing marker
/// occurs in no script path, and the profile held either no opening marker
/// or a complete managed block).
pub proof fn lemma_init_settles(
    paths: AppPaths,
    targets: InitTargets,
    shell: Option<InitShell>,
    existing: Seq<char>,
)
    requires
        !crate::text::contains(paths.bash_script@, crate::block::end_marker()),
        !crate::text::contains(paths.zsh_script@, crate::block::end_marker()),
        !crate::text::contains(paths.powershell_script@, crate::block::end_marker()),
        crate::block::block_range(existing) is Some || !crate::text::contains(
            existing,
            crate::block::start_marker(),
        ),
    ensures
        forall|i: int|
            0 <= i < init_blocks(paths, targets, shell).len() ==> {
                let b = #[trigger] init_blocks(paths, targets, shell)[i].1;
                crate::block::inserted(crate::block::inserted(existing, b), b)
                    == crate::block::inserted(existing, b)
            },
{
    crate::block::lemma_blocks_are_managed(paths.bash_script@);
    crate::block::lemma_blocks_are_managed(paths.zsh_script@);
    crate::block::lemma_blocks_are_managed(paths.powershell_script@);
    crate::block::lemma_insert_idempotent(existing, bash_block(paths.bash_script@));
    crate::block::lemma_insert_idempotent(existing, bash_block(paths.zsh_script@));
    crate::block::lemma_insert_idempotent(existing, powershell_block(paths.powershell_script@));
}

/// `init` for every shell, with every profile's aliases.
pub fn init_with_targets(paths: &AppPaths, targets: &InitTargets, config: &Config, current: Platform) -> (r:
    InitPlan)
    ensures
        write_views(r.apply.writes@) == apply_writes(*paths, config@, None, None, current),
        apply_result_of(r.apply.result, *paths),
        write_views(r.profile_blocks@) == init_blocks(*paths, *targets, None),
        init_result_of(r.result, *paths, *targets),
{
    init_with_targets_and_shell_and_profile(paths, targets, None, None, config, current)
}

/// `init` for the chosen shells, with every profile's aliases.
pub fn init_with_targets_and_shell(
    paths: &AppPaths,
    targets: &InitTargets,
    shell: Option<InitShell>,
    config: &Config,
    current: Platform,
) -> (r: InitPlan)
    ensures
        write_views(r.apply.writes@) == apply_writes(*paths, config@, None, None, current),
        apply_result_of(r.apply.result, *paths),
        write_views(r.profile_blocks@) == init_blocks(*paths, *targets, shell),
        init_result_of(r.result, *paths, *targets),
{
    init_with_targets_and_shell_and_profile(paths, targets, shell, None, config, current)
}

/// The profiles of the chosen shells, in the order Bash, Zsh, PowerShell.
pub open spec fn selected_profiles(targets: InitTargets, shell: Option<InitShell>) -> Seq<Seq<char>> {
    when(chosen(shell, InitShell::Bash), targets.bash_profile@) + when(
        chosen(shell, InitShell::Zsh),
        targets.zsh_profile@,
    ) + when(chosen(shell, InitShell::Powershell), targets.powershell_profile@)
}

fn push_path_when(v: &mut Vec<String>, keep: bool, path: &String)
    ensures
        views(final(v)@) == views(old(v)@) + when(keep, path@),
{
    let ghost before = v@;
    if keep {
        v.push(path.clone());
        assert(views(v@) =~= views(before) + seq![path@]);
    } else {
        assert(views(v@) =~= views(before) + Seq::empty());
    }
}

/// The profiles of the chosen shells, in the order Bash, Zsh, PowerShell.
pub fn selected_profile_paths(targets: &InitTargets, shell: Option<InitShell>) -> (r: Vec<String>)
    ensures
        views(r@) == selected_profiles(*targets, shell),
{
    let mut r: Vec<String> = Vec::new();
    assert(views(r@) =~= Seq::empty());
    push_path_when(&mut r, is_chosen(shell, InitShell::Bash), &targets.bash_profile);
    push_path_when(&mut r, is_chosen(shell, InitShell::Zsh), &targets.zsh_profile);
    push_path_when(&mut r, is_chosen(shell, InitShell::Powershell), &targets.powershell_profile);
    proof {
        assert(views(r@) =~= selected_profiles(*targets, shell));
    }
    r
}

/// The last character of `p` ends nothing that names a file: it is a `/`,
/// or the `.` of a final `/.` component.
pub open spec fn trailing_filler(p: Seq<char>) -> bool {
    p.len() > 0 && (p.last() == '/' || (p.len() >= 2 && p.last() == '.' && p[p.len() - 2] == '/'))
}

/// `p` without its trailing `/` characters and `.` components, which a path's
/// file name skips.
pub open spec fn strip_slashes(p: Seq<char>) -> Seq<char>
    decreases p.len(),
{
    if trailing_filler(p) {
        strip_slashes(p.drop_last())
    } else {
        p
    }
}

/// Where the backup of the profile at `p` is kept: beside it, named after
/// it with `.hunming.bak` appended; a path without a file name (empty, or
/// ending in `.` or `..`) gets `hunming.bak` inside it.
pub open spec fn backup_path_of(p: Seq<char>) -> Seq<char> {
    let q = strip_slashes(p);
    let k = last_slash(q);
    let name = q.subrange(k + 1, q.len() as int);
    if name.len() == 0 || name == ".."@ || name == "."@ {
        join_path(p, "hunming.bak"@)
    } else {
        q.subrange(0, k + 1) + name + ".hunming.bak"@
    }
}

/// Where the backup of the profile at `profile_path` is kept.
pub fn shell_profile_backup_path(profile_path: &str) -> (r: String)
    ensures
        r@ == backup_path_of(profile_path@),
{
    let cs = chars_of(profile_path);
    let mut end = cs.len();
    assert(cs@.subrange(0, end as int) =~= cs@);
    while end > 0 && (cs[end - 1] == '/' || (end >= 2 && cs[end - 1] == '.' && cs[end - 2]
        == '/'))
        invariant
            cs@ == profile_path@,
            end <= cs@.len(),
            strip_slashes(profile_path@) == strip_slashes(cs@.subrange(0, end as int)),
        decreases end,
    {
        assert(cs@.subrange(0, end as int).drop_last() =~= cs@.subrange(0, end - 1));
        end = end - 1;
    }
    let ghost q = cs@.subrange(0, end as int);
    assert(strip_slashes(q) == q);
    let mut k = end;
    while k > 0 && cs[k - 1] != '/'
        invariant
            cs@ == profile_path@,
            k <= end <= cs@.len(),
            q == cs@.subrange(0, end as int),
            last_slash(q) == last_slash(cs@.subrange(0, k as int)),
        decreases k,
    {
        assert(cs@.subrange(0, k as int).drop_last() =~= cs@.subrange(0, k - 1));
        k = k - 1;
    }
    proof {
        if k > 0 {
            assert(cs@.subrange(0, k as int).last() == '/');
        }
        assert(last_slash(q) == k - 1);
    }
    let name = crate::text::range_string(&cs, k, end);
    let dots = chars_of("..");
    let dot = chars_of(".");
    let name_chars = chars_of(name.as_str());
    if end == k || crate::text::chars_eq(&name_chars, &dots) || crate::text::chars_eq(
        &name_chars,
        &dot,
    ) {
        proof {
            assert(name@ =~= q.subrange(k as int, q.len() as int));
        }
        return crate::paths::join(profile_path, "hunming.bak");
    }
    let mut r = crate::text::range_string(&cs, 0, k);
    r.append(name.as_str());
    r.append(".hunming.bak");
    proof {
        assert(name@ =~= q.subrange(k as int, q.len() as int));
        assert(cs@.subrange(0, k as int) =~= q.subrange(0, k as int));
    }
    r
}

/// The trimmed tags among the first `n`, without empty ones and without
/// repeats, in the order they first appear.
pub open spec fn normalized_tags(tags: Seq<Seq<char>>, n: int) -> Seq<Seq<char>>
    decreases n,
{
    if n <= 0 {
        Seq::empty()
    } else {
        let before = normalized_tags(tags, n - 1);
        let t = trim(tags[n - 1]);
        if t.len() == 0 || before.contains(t) {
            before
        } else {
            before.push(t)
        }
    }
}

/// The trimmed value, or nothing when only whitespace is left.
pub open spec fn normalized_opt(o: Option<Seq<char>>) -> Option<Seq<char>> {
    match o {
        Some(v) => if trim(v).len() == 0 {
            None
        } else {
            Some(trim(v))
        },
        None => None,
    }
}

/// The view of an optional string.
pub open spec fn opt_view(o: Option<String>) -> Option<Seq<char>> {
    match o {
        Some(s) => Some(s@),
        None => None,
    }
}

/// The tags trimmed, without empty ones and without repeats.
pub fn normalize_tags(tags: Vec<String>) -> (r: Vec<String>)
    ensures
        views(r@) == normalized_tags(views(tags@), tags@.len() as int),
{
    let mut out: Vec<String> = Vec::new();
    let n = tags.len();
    let mut i: usize = 0;
    assert(views(out@) =~= Seq::empty());
    while i < n
        invariant
            n == tags@.len(),
            i <= n,
            views(out@) == normalized_tags(views(tags@), i as int),
        decreases n - i,
    {
        let t = trim_string(tags[i].as_str());
        assert(views(tags@)[i as int] == tags@[i as int]@);
        proof {
            crate::text::lemma_trim_ends(tags@[i as int]@);
        }
        if !crate::text::is_blank(t.as_str()) && !crate::text::contains_string(&out, t.as_str()) {
            let ghost before = out@;
            out.push(t);
            assert(views(out@) =~= views(before).push(trim(tags@[i as int]@)));
        }
        i = i + 1;
    }
    out
}

/// The value trimmed, or nothing when only whitespace is left.
pub fn normalize_optional(value: Option<String>) -> (r: Option<String>)
    ensures
        opt_view(r) == normalized_opt(opt_view(value)),
{
    match value {
        Some(v) => {
            let t = trim_string(v.as_str());
            proof {
                crate::text::lemma_trim_ends(v@);
            }
            if crate::text::is_blank(t.as_str()) {
                None
            } else {
                Some(t)
            }
        },
        None => None,
    }
}

/// Every tag is trimmed and not empty, and no tag repeats.
pub open spec fn clean_tags(tags: Seq<Seq<char>>) -> bool {
    &&& forall|i: int| 0 <= i < tags.len() ==> trim(#[trigger] tags[i]) == tags[i]
    &&& forall|i: int| 0 <= i < tags.len() ==> (#[trigger] tags[i]).len() > 0
    &&& forall|i: int, j: int| 0 <= i < j < tags.len() ==> #[trigger] tags[i] != #[trigger] tags[j]
}

/// Normalized tags are clean.
pub proof fn lemma_normalized_clean(tags: Seq<Seq<char>>, n: int)
    requires
        0 <= n <= tags.len(),
    ensures
        clean_tags(normalized_tags(tags, n)),
    decreases n,
{
    if n > 0 {
        lemma_normalized_clean(tags, n - 1);
        let before = normalized_tags(tags, n - 1);
        let t = trim(tags[n - 1]);
        crate::text::lemma_trim_idempotent(tags[n - 1]);
        if !(t.len() == 0 || before.contains(t)) {
            let after = before.push(t);
            assert forall|i: int, j: int| 0 <= i < j < after.len() implies #[trigger] after[i]
                != #[trigger] after[j] by {
                if j == before.len() {
                    assert(before[i] == after[i]);
                    if after[i] == after[j] {
                        assert(before.contains(t));
                    }
                }
            }
        }
    }
}

/// Clean tags raise none of the tag errors of validation.
pub proof fn lemma_clean_tags_pass(name: Seq<char>, tags: Seq<Seq<char>>, n: int)
    requires
        clean_tags(tags),
        0 <= n <= tags.len(),
    ensures
        first_tag_issue(name, tags, n) is None,
    decreases n,
{
    if n > 0 {
        lemma_clean_tags_pass(name, tags, n - 1);
        let i = n - 1;
        assert(trim(tags[i]) == tags[i]);
        assert(tags[i].len() > 0);
        assert(!exists|j: int| 0 <= j < i && tags[j] == tags[i]) by {
            if exists|j: int| 0 <= j < i && tags[j] == tags[i] {
                let j = choose|j: int| 0 <= j < i && tags[j] == tags[i];
                assert(tags[j] != tags[i]);
            }
        }
    }
}

/// The tags that `add` stores never fail the tag checks of validation,
/// whatever tags were given.
pub proof fn lemma_normalized_tags_valid(name: Seq<char>, tags: Seq<Seq<char>>)
    ensures
        ({
            let t = normalized_tags(tags, tags.len() as int);
            first_tag_issue(name, t, t.len() as int) is None
        }),
{
    lemma_normalized_clean(tags, tags.len() as int);
    let t = normalized_tags(tags, tags.len() as int);
    lemma_clean_tags_pass(name, t, t.len() as int);
}

/// Normalizing clean tags gives them back.
proof fn lemma_normalize_clean_prefix(tags: Seq<Seq<char>>, n: int)
    requires
        clean_tags(tags),
        0 <= n <= tags.len(),
    ensures
        normalized_tags(tags, n) == tags.subrange(0, n),
    decreases n,
{
    if n > 0 {
        lemma_normalize_clean_prefix(tags, n - 1);
        let before = tags.subrange(0, n - 1);
        let t = tags[n - 1];
        assert(trim(t) == t);
        if before.contains(t) {
            let j = choose|j: int| 0 <= j < before.len() && before[j] == t;
            assert(tags[j] == tags[n - 1]);
        }
        assert(before.push(t) =~= tags.subrange(0, n));
    }
}

/// Normalizing tags a second time changes nothing.
pub proof fn lemma_normalize_tags_idempotent(tags: Seq<Seq<char>>)
    ensures
        ({
            let t = normalized_tags(tags, tags.len() as int);
            normalized_tags(t, t.len() as int) == t
        }),
{
    lemma_normalized_clean(tags, tags.len() as int);
    let t = normalized_tags(tags, tags.len() as int);
    lemma_normalize_clean_prefix(t, t.len() as int);
    assert(t.subrange(0, t.len() as int) =~= t);
}

/// The editor command: the words of `$VISUAL`, or else of `$EDITOR`,
/// whichever first holds more than whitespace; failing both, `notepad` on
/// Windows and `vi` elsewhere.
pub open spec fn editor_words(visual: Option<Seq<char>>, editor: Option<Seq<char>>, windows: bool) -> Seq<
    Seq<char>,
> {
    if visual is Some && !all_ws(visual->0) {
        pieces(visual->0, true)
    } else if editor is Some && !all_ws(editor->0) {
        pieces(editor->0, true)
    } else if windows {
        seq!["notepad"@]
    } else {
        seq!["vi"@]
    }
}

/// The editor command, from the values of `VISUAL` and `EDITOR` and the
/// platform.
pub fn resolve_editor(visual: Option<String>, editor: Option<String>, windows: bool) -> (r: Vec<
    String,
>)
    ensures
        views(r@) == editor_words(opt_view(visual), opt_view(editor), windows),
{
    if let Some(v) = &visual {
        if !crate::text::is_blank(v.as_str()) {
            return split_pieces(v.as_str(), true);
        }
    }
    if let Some(e) = &editor {
        if !crate::text::is_blank(e.as_str()) {
            return split_pieces(e.as_str(), true);
        }
    }
    let mut r: Vec<String> = Vec::new();
    if windows {
        r.push(String::from_str("notepad"));
    } else {
        r.push(String::from_str("vi"));
    }
    assert(views(r@) =~= editor_words(opt_view(visual), opt_view(editor), windows));
    r
}

/// The alias that `add` builds from its arguments.
pub open spec fn is_added(
    a: Alias,
    bash: Option<String>,
    powershell: Option<String>,
    profile: Option<Profile>,
    tags: Seq<String>,
    command: Seq<String>,
) -> bool {
    &&& a.description is None
    &&& a.command@ == command
    &&& views(a.tags@) == normalized_tags(views(tags), tags.len() as int)
    &&& opt_view(a.bash) == normalized_opt(opt_view(bash))
    &&& opt_view(a.powershell) == normalized_opt(opt_view(powershell))
    &&& a.forward_args
    &&& a.platforms@.len() == 0
    &&& a.profile == profile
}

/// Why `add` refuses, if it does: an invalid name first, then an existing
/// alias without `force`.
pub open spec fn add_refusal(old: Config, name: Seq<char>, force: bool) -> Option<ErrorView> {
    if !valid_name(name) {
        Some(ErrorView::InvalidAliasName { name })
    } else if old.to_map().contains_key(name) && !force {
        Some(ErrorView::AliasExists { name })
    } else {
        None
    }
}

/// The alias `add` stores: the command as given, tags and shell bodies
/// normalized, arguments forwarded, no platform restriction.
fn added_alias(
    bash: Option<String>,
    powershell: Option<String>,
    profile: Option<Profile>,
    tags: Vec<String>,
    command: Vec<String>,
) -> (a: Alias)
    ensures
        is_added(a, bash, powershell, profile, tags@, command@),
{
    Alias {
        description: None,
        command,
        tags: normalize_tags(tags),
        bash: normalize_optional(bash),
        powershell: normalize_optional(powershell),
        forward_args: true,
        platforms: Vec::new(),
        profile,
    }
}

/// `t` holds exactly the aliases `m`, in name order: the entries of a
/// configuration whose aliases are `m`.
pub open spec fn arranges(t: Seq<(String, Alias)>, m: Map<Seq<char>, Alias>) -> bool {
    names_sorted(t) && alias_map(t) == m
}

/// Adds alias `name` built from the arguments, replacing an existing one
/// only with `force`: tags and shell bodies are trimmed, empty ones
/// dropped, repeated tags kept once.
pub fn add(
    config: &mut Config,
    name: String,
    bash: Option<String>,
    powershell: Option<String>,
    profile: Option<Profile>,
    tags: Vec<String>,
    command: Vec<String>,
    force: bool,
) -> (r: Result<(), HunmingError>)
    requires
        old(config).wf(),
    ensures
        final(config).wf(),
        final(config).version_of() == old(config).version_of(),
        outcome(add_refusal(*old(config), name@, force), r),
        r is Err ==> *final(config) == *old(config),
        r is Ok ==> {
            &&& final(config).to_map().contains_key(name@)
            &&& is_added(final(config).to_map()[name@], bash, powershell, profile, tags@, command@)
            &&& final(config).to_map() == old(config).to_map().insert(
                name@,
                final(config).to_map()[name@],
            )
        },
{
    validate_alias_name(name.as_str())?;
    if config.contains_key(name.as_str()) && !force {
        return Err(HunmingError::AliasExists { name });
    }
    let alias = added_alias(bash, powershell, profile, tags, command);
    let ghost key = name@;
    config.insert(name, alias);
    assert(final(config).to_map()[key] == alias);
    Ok(())
}

/// Why `remove` refuses, if it does: an invalid name first, then a name
/// that no alias has.
pub open spec fn remove_refusal(old: Config, name: Seq<char>) -> Option<ErrorView> {
    if !valid_name(name) {
        Some(ErrorView::InvalidAliasName { name })
    } else if !old.to_map().contains_key(name) {
        Some(ErrorView::AliasMissing { name })
    } else {
        None
    }
}

/// Removes alias `name`; refuses an invalid name and a name no alias has.
pub fn remove(config: &mut Config, name: &str) -> (r: Result<(), HunmingError>)
    requires
        old(config).wf(),
    ensures
        final(config).wf(),
        final(config).version_of() == old(config).version_of(),
        outcome(remove_refusal(*old(config), name@), r),
        r is Err ==> *final(config) == *old(config),
        r is Ok ==> final(config).to_map() == old(config).to_map().remove(name@),
{
    validate_alias_name(name)?;
    match config.remove(name) {
        Some(_) => Ok(()),
        None => Err(HunmingError::AliasMissing { name: String::from_str(name) }),
    }
}

/// Adding an alias under a new, valid name and then removing that name gives
/// back the aliases there were before.
pub proof fn lemma_add_then_remove(before: Config, after: Config, name: Seq<char>)
    requires
        before.wf(),
        after.wf(),
        add_refusal(before, name, false) is None,
        after.to_map().contains_key(name),
        after.to_map() == before.to_map().insert(name, after.to_map()[name]),
    ensures
        remove_refusal(after, name) is None,
        after.to_map().remove(name) == before.to_map(),
{
    assert(after.to_map().remove(name) =~= before.to_map());
}

/// `add`, then the check that saving makes, then the scripts to write; a
/// refused or failing addition leaves the configuration as it was.
pub fn add_with_profile(
    paths: &AppPaths,
    config: &mut Config,
    name: String,
    bash: Option<String>,
    powershell: Option<String>,
    profile: Option<Profile>,
    tags: Vec<String>,
    command: Vec<String>,
    force: bool,
    render_profile: Option<Profile>,
    current: Platform,
) -> (r: Result<ApplyPlan, HunmingError>)
    requires
        old(config).wf(),
    ensures
        final(config).wf(),
        final(config).version_of() == old(config).version_of(),
        r is Err ==> final(config)@ == old(config)@,
        add_refusal(*old(config), name@, force) is Some ==> outcome(
            add_refusal(*old(config), name@, force),
            r,
        ),
        add_refusal(*old(config), name@, force) is None ==> exists|t: Seq<(String, Alias)>, a: Alias|
            #![trigger arranges(t, old(config).to_map().insert(name@, a))]
            {
                &&& arranges(t, old(config).to_map().insert(name@, a))
                &&& is_added(a, bash, powershell, profile, tags@, command@)
                &&& outcome(first_entry_issue(t, t.len() as int), r)
            },
        r matches Ok(plan) ==> {
            &&& final(config).to_map().contains_key(name@)
            &&& is_added(final(config).to_map()[name@], bash, powershell, profile, tags@, command@)
            &&& final(config).to_map() == old(config).to_map().insert(
                name@,
                final(config).to_map()[name@],
            )
            &&& write_views(plan.writes@) == apply_writes(
                *paths,
                final(config)@,
                None,
                render_profile,
                current,
            )
            &&& apply_result_of(plan.result, *paths)
        },
{
    validate_alias_name(name.as_str())?;
    if config.contains_key(name.as_str()) && !force {
        return Err(HunmingError::AliasExists { name });
    }
    let alias = added_alias(bash, powershell, profile, tags, command);
    let ghost a = alias;
    let ghost key = name@;
    let ghost before = config@;
    let (i, previous) = config.place(name, alias);
    let ghost placed = config@;
    assert(arranges(placed, old(config).to_map().insert(key, a)));
    match validate_config(config) {
        Ok(()) => {
            assert(config.to_map()[key] == a);
            Ok(apply_with_profile(paths, config, None, render_profile, current))
        },
        Err(e) => {
            config.unplace(i, previous);
            proof {
                assert(config@ =~= before);
            }
            Err(e)
        },
    }
}

/// `remove`, then the check that saving makes, then the scripts to write; a
/// refused or failing removal leaves the configuration as it was.
pub fn remove_with_profile(
    paths: &AppPaths,
    config: &mut Config,
    name: &str,
    render_profile: Option<Profile>,
    current: Platform,
) -> (r: Result<ApplyPlan, HunmingError>)
    requires
        old(config).wf(),
    ensures
        final(config).wf(),
        final(config).version_of() == old(config).version_of(),
        r is Err ==> final(config)@ == old(config)@,
        remove_refusal(*old(config), name@) is Some ==> outcome(
            remove_refusal(*old(config), name@),
            r,
        ),
        remove_refusal(*old(config), name@) is None ==> exists|t: Seq<(String, Alias)>|
            #![trigger arranges(t, old(config).to_map().remove(name@))]
            {
                &&& arranges(t, old(config).to_map().remove(name@))
                &&& outcome(first_entry_issue(t, t.len() as int), r)
            },
        r matches Ok(plan) ==> {
            &&& final(config).to_map() == old(config).to_map().remove(name@)
            &&& write_views(plan.writes@) == apply_writes(
                *paths,
                final(config)@,
                None,
                render_profile,
                current,
            )
            &&& apply_result_of(plan.result, *paths)
        },
{
    validate_alias_name(name)?;
    let ghost before = config@;
    match config.take(name) {
        None => Err(HunmingError::AliasMissing { name: String::from_str(name) }),
        Some((i, entry)) => {
            let ghost removed = config@;
            assert(arranges(removed, old(config).to_map().remove(name@)));
            match validate_config(config) {
                Ok(()) => Ok(apply_with_profile(paths, config, None, render_profile, current)),
                Err(e) => {
                    config.put_back(i, entry);
                    proof {
                        assert(config@ =~= before);
                    }
                    Err(e)
                },
            }
        },
    }
}

/// A configuration passes its checks exactly when each of its entries does.
proof fn lemma_no_issue(s: Seq<(String, Alias)>, n: int)
    requires
        0 <= n <= s.len(),
    ensures
        (first_entry_issue(s, n) is None) <==> forall|i: int|
            0 <= i < n ==> (#[trigger] alias_issue(s[i].0@, s[i].1)) is None,
    decreases n,
{
    if n > 0 {
        lemma_no_issue(s, n - 1);
        if first_entry_issue(s, n) is None {
            assert forall|i: int| 0 <= i < n implies (#[trigger] alias_issue(s[i].0@, s[i].1)) is None by {
                if i < n - 1 {
                    assert(first_entry_issue(s, n - 1) is None);
                }
            }
        }
    }
}

/// Adding an alias that passes the checks to a configuration that passes
/// them gives a configuration that passes them.
pub proof fn lemma_valid_insert_valid(before: Config, t: Seq<(String, Alias)>, name: Seq<char>, a: Alias)
    requires
        before.wf(),
        first_entry_issue(before@, before@.len() as int) is None,
        alias_issue(name, a) is None,
        arranges(t, before.to_map().insert(name, a)),
    ensures
        first_entry_issue(t, t.len() as int) is None,
{
    lemma_no_issue(before@, before@.len() as int);
    assert forall|i: int| 0 <= i < t.len() implies (#[trigger] alias_issue(t[i].0@, t[i].1)) is None by {
        let key = t[i].0@;
        lemma_map_at(t, i);
        if key != name {
            assert(before.to_map().contains_key(key));
            let j = choose|j: int| 0 <= j < before@.len() && #[trigger] before@[j].0@ == key;
            lemma_map_at(before@, j);
            assert(alias_issue(before@[j].0@, before@[j].1) is None);
        }
    }
    lemma_no_issue(t, t.len() as int);
}

/// Adding, with a valid name, an alias that defines something to run to a
/// configuration that passes its checks is accepted: the configuration it
/// would store passes them, so `add_with_profile` returns `Ok`.
pub proof fn lemma_add_accepted(
    before: Config,
    t: Seq<(String, Alias)>,
    name: Seq<char>,
    a: Alias,
    bash: Option<String>,
    powershell: Option<String>,
    profile: Option<Profile>,
    tags: Seq<String>,
    command: Seq<String>,
)
    requires
        before.wf(),
        first_entry_issue(before@, before@.len() as int) is None,
        valid_name(name),
        command.len() > 0 || normalized_opt(opt_view(bash)) is Some || normalized_opt(
            opt_view(powershell),
        ) is Some,
        is_added(a, bash, powershell, profile, tags, command),
        arranges(t, before.to_map().insert(name, a)),
    ensures
        first_entry_issue(t, t.len() as int) is None,
{
    if command.len() == 0 {
        if normalized_opt(opt_view(bash)) is Some {
            let v = opt_view(bash)->0;
            crate::text::lemma_trim_idempotent(v);
            crate::text::lemma_trim_empty_iff_all_ws(trim(v));
            assert(non_blank(a.bash));
        } else {
            let v = opt_view(powershell)->0;
            crate::text::lemma_trim_idempotent(v);
            crate::text::lemma_trim_empty_iff_all_ws(trim(v));
            assert(non_blank(a.powershell));
        }
    }
    assert(defines_something(a));
    lemma_normalized_tags_valid(name, views(tags));
    assert(alias_issue(name, a) is None);
    lemma_valid_insert_valid(before, t, name, a);
}

/// The copies a command makes and the paths it reports.
#[derive(Clone, Debug, PartialEq, Eq)]
pub struct BackupPlan {
    pub copies: Vec<FileCopy>,
    pub result: ProfileResult,
}

/// The backups to make of the first `n` profiles: each present profile is
/// copied to its backup path.
pub open spec fn backups_of(profiles: Seq<Seq<char>>, present: Seq<bool>, n: int) -> Seq<
    (Seq<char>, Seq<char>),
>
    decreases n,
{
    if n <= 0 {
        Seq::empty()
    } else {
        backups_of(profiles, present, n - 1) + when(
            present[n - 1],
            (profiles[n - 1], backup_path_of(profiles[n - 1])),
        )
    }
}

/// The index of the first profile among the first `n` whose backup is
/// missing.
pub open spec fn first_missing(present: Seq<bool>, n: int) -> Option<int>
    decreases n,
{
    if n <= 0 {
        None
    } else {
        match first_missing(present, n - 1) {
            Some(i) => Some(i),
            None => if present[n - 1] {
                None
            } else {
                Some(n - 1)
            },
        }
    }
}

proof fn lemma_first_missing_stays(present: Seq<bool>, i: int, n: int)
    requires
        0 <= i < n,
        first_missing(present, i + 1) is Some,
    ensures
        first_missing(present, n) == first_missing(present, i + 1),
    decreases n - i,
{
    if n > i + 1 {
        lemma_first_missing_stays(present, i, n - 1);
    }
}

/// The backups `backup` makes of the chosen shells' profiles, given which
/// of them exist; refuses when none does.
pub fn backup_with_targets(targets: &InitTargets, shell: Option<InitShell>, present: &Vec<bool>) -> (r:
    Result<BackupPlan, HunmingError>)
    requires
        present@.len() == selected_profiles(*targets, shell).len(),
    ensures
        ({
            let sel = selected_profiles(*targets, shell);
            let cps = backups_of(sel, present@, sel.len() as int);
            &&& (r is Err <==> cps.len() == 0)
            &&& r matches Err(e) ==> e@ == ErrorView::NoProfilesToBackUp
            &&& r matches Ok(plan) ==> copy_views(plan.copies@) == cps && views(
                plan.result.profile_paths@,
            ) == cps.map_values(|c: (Seq<char>, Seq<char>)| c.1)
        }),
{
    let profiles = selected_profile_paths(targets, shell);
    let ghost sel = views(profiles@);
    let n = profiles.len();
    let mut copies: Vec<FileCopy> = Vec::new();
    let mut paths: Vec<String> = Vec::new();
    let mut i: usize = 0;
    while i < n
        invariant
            n == profiles@.len(),
            sel == views(profiles@),
            present@.len() == n,
            i <= n,
            copy_views(copies@) == backups_of(sel, present@, i as int),
            views(paths@) == backups_of(sel, present@, i as int).map_values(
                |c: (Seq<char>, Seq<char>)| c.1,
            ),
        decreases n - i,
    {
        let ghost before_c = copies@;
        let ghost before_p = paths@;
        assert(sel[i as int] == profiles@[i as int]@);
        if present[i] {
            let backup = shell_profile_backup_path(profiles[i].as_str());
            copies.push(FileCopy { from: profiles[i].clone(), to: backup.clone() });
            paths.push(backup);
            assert(copy_views(copies@) =~= copy_views(before_c) + seq![
                (sel[i as int], backup_path_of(sel[i as int])),
            ]);
            assert(views(paths@) =~= views(before_p).push(backup_path_of(sel[i as int])));
        } else {
            assert(copy_views(copies@) =~= copy_views(before_c) + Seq::empty());
        }
        proof {
            assert(backups_of(sel, present@, i + 1).map_values(|c: (Seq<char>, Seq<char>)| c.1)
                =~= views(paths@));
        }
        i = i + 1;
    }
    if copies.len() == 0 {
        return Err(HunmingError::NoProfilesToBackUp);
    }
    Ok(BackupPlan { copies, result: ProfileResult { profile_paths: paths } })
}

/// The copies `restore` makes from the backups of the chosen shells'
/// profiles, given which backups exist; refuses, naming the first profile
/// whose backup is missing, before copying anything.
pub fn restore_with_targets(
    targets: &InitTargets,
    shell: Option<InitShell>,
    backup_present: &Vec<bool>,
) -> (r: Result<BackupPlan, HunmingError>)
    requires
        backup_present@.len() == selected_profiles(*targets, shell).len(),
    ensures
        ({
            let sel = selected_profiles(*targets, shell);
            match first_missing(backup_present@, sel.len() as int) {
                Some(i) => r matches Err(e) && e@ == (ErrorView::BackupMissing {
                    profile: sel[i],
                    backup: backup_path_of(sel[i]),
                }),
                None => r matches Ok(plan) && copy_views(plan.copies@) == sel.map_values(
                    |p: Seq<char>| (backup_path_of(p), p),
                ) && views(plan.result.profile_paths@) == sel,
            }
        }),
{
    let profiles = selected_profile_paths(targets, shell);
    let ghost sel = views(profiles@);
    let n = profiles.len();
    let mut i: usize = 0;
    while i < n
        invariant
            n == profiles@.len(),
            sel == views(profiles@),
            backup_present@.len() == n,
            i <= n,
            first_missing(backup_present@, i as int) is None,
            sel == selected_profiles(*targets, shell),
        decreases n - i,
    {
        if !backup_present[i] {
            let backup = shell_profile_backup_path(profiles[i].as_str());
            proof {
                lemma_first_missing_stays(backup_present@, i as int, n as int);
            }
            return Err(HunmingError::BackupMissing { profile: profiles[i].clone(), backup });
        }
        i = i + 1;
    }
    let mut copies: Vec<FileCopy> = Vec::new();
    let mut j: usize = 0;
    while j < n
        invariant
            n == profiles@.len(),
            sel == views(profiles@),
            j <= n,
            copy_views(copies@) == sel.subrange(0, j as int).map_values(
                |p: Seq<char>| (backup_path_of(p), p),
            ),
        decreases n - j,
    {
        let backup = shell_profile_backup_path(profiles[j].as_str());
        let ghost before = copies@;
        assert(sel[j as int] == profiles@[j as int]@);
        copies.push(FileCopy { from: backup, to: profiles[j].clone() });
        proof {
            assert(copy_views(copies@) =~= copy_views(before).push(
                (backup_path_of(sel[j as int]), sel[j as int]),
            ));
            assert(sel.subrange(0, j + 1) =~= sel.subrange(0, j as int).push(sel[j as int]));
            assert(copy_views(copies@) =~= sel.subrange(0, j + 1).map_values(
                |p: Seq<char>| (backup_path_of(p), p),
            ));
        }
        j = j + 1;
    }
    assert(sel.subrange(0, n as int) =~= sel);
    Ok(BackupPlan { copies, result: ProfileResult { profile_paths: profiles } })
}

/// With every profile present, backing up copies each profile to its
/// backup, in order, and finds no backup missing afterwards.
proof fn lemma_all_present(sel: Seq<Seq<char>>, present: Seq<bool>, n: int)
    requires
        0 <= n <= sel.len(),
        present.len() == sel.len(),
        forall|i: int| 0 <= i < present.len() ==> #[trigger] present[i],
    ensures
        backups_of(sel, present, n) == sel.subrange(0, n).map_values(
            |p: Seq<char>| (p, backup_path_of(p)),
        ),
        first_missing(present, n) is None,
    decreases n,
{
    if n > 0 {
        lemma_all_present(sel, present, n - 1);
        assert(sel.subrange(0, n).map_values(|p: Seq<char>| (p, backup_path_of(p))) =~= sel.subrange(
            0,
            n - 1,
        ).map_values(|p: Seq<char>| (p, backup_path_of(p))) + seq![
            (sel[n - 1], backup_path_of(sel[n - 1])),
        ]);
    }
}

/// Restoring after a backup of profiles that all exist copies every backup
/// back over the profile it was taken from: the restore copies are the
/// backup copies reversed, and none is refused.
pub proof fn lemma_restore_reverses_backup(sel: Seq<Seq<char>>, present: Seq<bool>)
    requires
        present.len() == sel.len(),
        forall|i: int| 0 <= i < present.len() ==> #[trigger] present[i],
    ensures
        first_missing(present, sel.len() as int) is None,
        ({
            let backups = backups_of(sel, present, sel.len() as int);
            let restores = sel.map_values(|p: Seq<char>| (backup_path_of(p), p));
            &&& backups.len() == restores.len()
            &&& forall|i: int|
                0 <= i < restores.len() ==> #[trigger] restores[i] == (backups[i].1, backups[i].0)
        }),
{
    lemma_all_present(sel, present, sel.len() as int);
    assert(sel.subrange(0, sel.len() as int) =~= sel);
}

/// `backup` and `restore` work on the profile of the named shell alone, or
/// on the Bash, Zsh and PowerShell profiles in that order when no shell is
/// named; backing up one existing profile copies exactly that profile to
/// its backup.
pub proof fn lemma_selected_profiles(t: InitTargets, s: InitShell)
    ensures
        selected_profiles(t, Some(InitShell::Bash)) == seq![t.bash_profile@],
        selected_profiles(t, Some(InitShell::Zsh)) == seq![t.zsh_profile@],
        selected_profiles(t, Some(InitShell::Powershell)) == seq![t.powershell_profile@],
        selected_profiles(t, None) == seq![t.bash_profile@, t.zsh_profile@, t.powershell_profile@],
        ({
            let p = match s {
                InitShell::Bash => t.bash_profile@,
                InitShell::Zsh => t.zsh_profile@,
                InitShell::Powershell => t.powershell_profile@,
            };
            backups_of(selected_profiles(t, Some(s)), seq![true], 1) == seq![(p, backup_path_of(p))]
        }),
{
    assert(selected_profiles(t, Some(InitShell::Bash)) =~= seq![t.bash_profile@]);
    assert(selected_profiles(t, Some(InitShell::Zsh)) =~= seq![t.zsh_profile@]);
    assert(selected_profiles(t, Some(InitShell::Powershell)) =~= seq![t.powershell_profile@]);
    assert(selected_profiles(t, None) =~= seq![t.bash_profile@, t.zsh_profile@, t.powershell_profile@]);
    let sel = selected_profiles(t, Some(s));
    assert(backups_of(sel, seq![true], 0) =~= Seq::empty());
    assert(backups_of(sel, seq![true], 1) =~= seq![(sel[0], backup_path_of(sel[0]))]);
}

} // verus!
