use hunming::error::HunmingError;
use hunming::install::{
    add, add_with_profile, apply, apply_with_profile, backup_with_targets, bash_managed_block,
    insert_managed_block, MANAGED_BLOCK_END, MANAGED_BLOCK_START,
    init_with_targets, init_with_targets_and_shell, init_with_targets_and_shell_and_profile,
    normalize_optional, normalize_tags, powershell_managed_block, remove, remove_with_profile,
    restore_with_targets, selected_profile_paths, shell_profile_backup_path, FileWrite, InitShell,
};
use hunming::model::{Alias, Config, Platform, Profile};
use hunming::paths::{AppPaths, InitTargets};

const CURRENT: Platform = Platform::Linux;

fn strings(items: &[&str]) -> Vec<String> {
    items.iter().map(|s| s.to_string()).collect()
}

fn paths() -> AppPaths {
    AppPaths::from_config_dir("/tmp/t/hunming")
}

fn targets() -> InitTargets {
    InitTargets {
        bash_profile: "/tmp/t/.bashrc".to_string(),
        zsh_profile: "/tmp/t/.zshrc".to_string(),
        powershell_profile: "/tmp/t/PowerShell/Microsoft.PowerShell_profile.ps1".to_string(),
    }
}

fn written(writes: &[FileWrite], path: &str) -> Option<String> {
    writes.iter().find(|w| w.path == path).map(|w| w.content.clone())
}

fn command_alias(words: &[&str], tags: &[&str]) -> Alias {
    Alias { command: strings(words), tags: strings(tags), ..Alias::default() }
}

#[test]
fn add_creates_new_alias_and_updates_scripts() {
    let paths = paths();
    let mut config = Config::new(1);

    let plan = add_with_profile(
        &paths,
        &mut config,
        "gs".to_string(),
        None,
        None,
        None,
        Vec::new(),
        strings(&["git", "status", "--short"]),
        false,
        None,
        CURRENT,
    )
    .expect("add should succeed");

    assert_eq!(config.get("gs").expect("alias exists").command, vec!["git", "status", "--short"]);
    assert_eq!(
        written(&plan.writes, &paths.bash_script).expect("bash script written"),
        "gs() {\n  git status --short \"$@\"\n}\n"
    );
    assert_eq!(
        written(&plan.writes, &paths.powershell_script).expect("powershell script written"),
        "function gs {\n    git status --short @args\n}\n"
    );
}

#[test]
fn add_rejects_existing_alias_without_force() {
    let mut config = Config::new(1);
    config.insert("gs".to_string(), command_alias(&["git", "status"], &[]));

    let error = add(
        &mut config,
        "gs".to_string(),
        None,
        None,
        None,
        Vec::new(),
        strings(&["git", "status", "--short"]),
        false,
    )
    .expect_err("add should reject duplicates");

    assert!(error.message().contains("use --force"));
    assert_eq!(config.get("gs").expect("alias exists").command, vec!["git", "status"]);
}

#[test]
fn add_replaces_existing_alias_with_force() {
    let paths = paths();
    let mut config = Config::new(1);
    config.insert("gs".to_string(), command_alias(&["git", "status"], &[]));

    let plan = add_with_profile(
        &paths,
        &mut config,
        "gs".to_string(),
        None,
        None,
        None,
        Vec::new(),
        strings(&["git", "status", "--short"]),
        true,
        None,
        CURRENT,
    )
    .expect("add should overwrite existing alias");

    assert_eq!(config.get("gs").expect("alias exists").command, vec!["git", "status", "--short"]);
    assert_eq!(
        written(&plan.writes, &paths.bash_script).expect("bash script written"),
        "gs() {\n  git status --short \"$@\"\n}\n"
    );
}

#[test]
fn add_normalizes_tags_and_shell_bodies() {
    let mut config = Config::new(1);
    add(
        &mut config,
        "ll".to_string(),
        Some("  ls -lah ".to_string()),
        Some("   ".to_string()),
        Some(Profile::Personal),
        strings(&[" files", "", "files", "list ", "  "]),
        Vec::new(),
        false,
    )
    .expect("add should succeed");
    let alias = config.get("ll").expect("alias exists");
    assert_eq!(alias.tags, vec!["files", "list"]);
    assert_eq!(alias.bash.as_deref(), Some("ls -lah"));
    assert_eq!(alias.powershell, None);
    assert_eq!(alias.profile, Some(Profile::Personal));
    assert!(alias.forward_args);
    assert_eq!(normalize_tags(strings(&["b", " a ", "b"])), vec!["b", "a"]);
    assert_eq!(normalize_optional(Some(" x ".to_string())), Some("x".to_string()));
    assert_eq!(normalize_optional(None), None);
}

#[test]
fn add_then_remove_restores_the_aliases() {
    let mut config = Config::new(1);
    config.insert("gco".to_string(), command_alias(&["git", "checkout"], &["git"]));
    let before = config.clone();
    add(
        &mut config,
        "gs".to_string(),
        None,
        None,
        None,
        Vec::new(),
        strings(&["git", "status"]),
        false,
    )
    .expect("add should succeed");
    assert_eq!(config.len(), 2);
    remove(&mut config, "gs").expect("remove should succeed");
    assert_eq!(config, before);
}

#[test]
fn add_refuses_an_alias_that_defines_nothing() {
    let paths = paths();
    let mut config = Config::new(1);
    let error = add_with_profile(
        &paths,
        &mut config,
        "empty".to_string(),
        Some(" ".to_string()),
        None,
        None,
        Vec::new(),
        Vec::new(),
        false,
        None,
        CURRENT,
    )
    .expect_err("an empty alias cannot be saved");
    assert_eq!(error, HunmingError::EmptyAlias { name: "empty".to_string() });
}

#[test]
fn remove_deletes_alias_and_updates_scripts() {
    let paths = paths();
    let mut config = Config::new(1);
    config.insert("gs".to_string(), command_alias(&["git", "status", "--short"], &["git"]));
    config.insert("gco".to_string(), command_alias(&["git", "checkout"], &["git"]));

    let plan = remove_with_profile(&paths, &mut config, "gs", None, CURRENT)
        .expect("remove should succeed");

    assert!(!config.contains_key("gs"));
    assert!(config.contains_key("gco"));
    assert_eq!(
        written(&plan.writes, &paths.bash_script).expect("bash script written"),
        "gco() {\n  git checkout \"$@\"\n}\n"
    );
    assert_eq!(
        written(&plan.writes, &paths.powershell_script).expect("powershell script written"),
        "function gco {\n    git checkout @args\n}\n"
    );
}

#[test]
fn remove_rejects_missing_alias() {
    let mut config = Config::new(1);

    let error = remove(&mut config, "gs").expect_err("remove should reject missing alias");

    assert!(error.message().contains("does not exist"));
}

#[test]
fn apply_creates_scripts_for_existing_config() {
    let paths = paths();
    let mut config = Config::new(1);
    config.insert(
        "gs".to_string(),
        Alias {
            powershell: Some("git status --short".into()),
            ..command_alias(&["git", "status", "--short"], &["git"])
        },
    );

    let plan = apply(&paths, &config, None, CURRENT);

    assert_eq!(plan.result.bash_script, paths.bash_script);
    assert_eq!(plan.result.zsh_script, paths.zsh_script);
    assert_eq!(plan.result.powershell_script, paths.powershell_script);
    assert_eq!(
        written(&plan.writes, &paths.bash_script).expect("bash"),
        "gs() {\n  git status --short \"$@\"\n}\n"
    );
    assert_eq!(
        written(&plan.writes, &paths.zsh_script).expect("zsh"),
        "gs() {\n  git status --short \"$@\"\n}\n"
    );
    assert_eq!(
        written(&plan.writes, &paths.powershell_script).expect("powershell"),
        "function gs {\n    git status --short @args\n}\n"
    );
}

#[test]
fn apply_writes_empty_scripts_for_default_config() {
    let paths = paths();
    let plan = apply(&paths, &Config::new(1), None, CURRENT);
    assert_eq!(plan.writes.len(), 3);
    assert!(plan.writes.iter().all(|w| w.content.is_empty()));
}

fn gs_both_shells() -> Config {
    let mut config = Config::new(1);
    config.insert(
        "gs".to_string(),
        Alias {
            bash: Some("git status --short".into()),
            powershell: Some("git status --short".into()),
            ..command_alias(&["git", "status", "--short"], &["git"])
        },
    );
    config
}

#[test]
fn apply_with_shell_bash_only_updates_bash_script() {
    let paths = paths();
    let plan = apply(&paths, &gs_both_shells(), Some(InitShell::Bash), CURRENT);
    assert_eq!(
        written(&plan.writes, &paths.bash_script).expect("bash script written"),
        "gs() {\n  git status --short \"$@\"\n}\n"
    );
    assert_eq!(written(&plan.writes, &paths.zsh_script), None);
    assert_eq!(written(&plan.writes, &paths.powershell_script), None);
}

#[test]
fn apply_with_shell_powershell_only_updates_powershell_script() {
    let paths = paths();
    let plan = apply(&paths, &gs_both_shells(), Some(InitShell::Powershell), CURRENT);
    assert_eq!(written(&plan.writes, &paths.bash_script), None);
    assert_eq!(written(&plan.writes, &paths.zsh_script), None);
    assert_eq!(
        written(&plan.writes, &paths.powershell_script).expect("powershell script written"),
        "function gs {\n    git status --short @args\n}\n"
    );
}

#[test]
fn apply_with_shell_zsh_only_updates_zsh_script() {
    let paths = paths();
    let plan = apply(&paths, &gs_both_shells(), Some(InitShell::Zsh), CURRENT);
    assert_eq!(written(&plan.writes, &paths.bash_script), None);
    assert_eq!(
        written(&plan.writes, &paths.zsh_script).expect("zsh script written"),
        "gs() {\n  git status --short \"$@\"\n}\n"
    );
    assert_eq!(written(&plan.writes, &paths.powershell_script), None);
}

#[test]
fn init_replaces_existing_blocks_without_touching_user_content() {
    let paths = paths();
    let targets = targets();
    let plan = init_with_targets(&paths, &targets, &Config::new(1), CURRENT);
    let original_bash = format!(
        "export PATH=\"$HOME/bin:$PATH\"\n{start}\nold bash\n{end}\n",
        start = MANAGED_BLOCK_START,
        end = MANAGED_BLOCK_END
    );
    let original_powershell = format!(
        "Write-Host \"hello\"\n{start}\nold ps1\n{end}\n",
        start = MANAGED_BLOCK_START,
        end = MANAGED_BLOCK_END
    );

    let bash_block = written(&plan.profile_blocks, &targets.bash_profile).expect("bash block");
    let bash_profile = insert_managed_block(&original_bash, &bash_block);
    assert!(bash_profile.starts_with("export PATH=\"$HOME/bin:$PATH\"\n"));
    assert_eq!(bash_profile.matches(MANAGED_BLOCK_START).count(), 1);
    assert!(!bash_profile.contains("old bash"));

    let powershell_block =
        written(&plan.profile_blocks, &targets.powershell_profile).expect("powershell block");
    let powershell_profile = insert_managed_block(&original_powershell, &powershell_block);
    assert!(powershell_profile.starts_with("Write-Host \"hello\"\n"));
    assert_eq!(powershell_profile.matches(MANAGED_BLOCK_START).count(), 1);
    assert!(!powershell_profile.contains("old ps1"));

    let zsh_block = written(&plan.profile_blocks, &targets.zsh_profile).expect("zsh block");
    let zsh_profile = insert_managed_block("", &zsh_block);
    assert!(zsh_profile.starts_with(&bash_managed_block(&paths.zsh_script)));
    assert_eq!(zsh_profile.matches(MANAGED_BLOCK_START).count(), 1);
}

#[test]
fn apply_with_profile_renders_only_matching_aliases() {
    let paths = paths();
    let mut config = Config::new(1);
    config.insert(
        "w".to_string(),
        Alias { profile: Some(Profile::Work), ..command_alias(&["echo", "w"], &[]) },
    );
    config.insert(
        "p".to_string(),
        Alias { profile: Some(Profile::Personal), ..command_alias(&["echo", "p"], &[]) },
    );
    let plan = apply_with_profile(&paths, &config, Some(InitShell::Bash), Some(Profile::Work), CURRENT);
    assert_eq!(plan.writes[0].content, "w() {\n  echo w \"$@\"\n}\n");
}

#[test]
fn init_creates_config_generated_and_profiles() {
    let paths = paths();
    let targets = targets();

    let plan = init_with_targets(&paths, &targets, &Config::new(1), CURRENT);

    assert_eq!(plan.result.config_file, paths.config_file);
    assert_eq!(plan.apply.writes.len(), 3);
    assert_eq!(
        written(&plan.profile_blocks, &targets.bash_profile).expect("bash profile"),
        bash_managed_block(&paths.bash_script)
    );
    assert_eq!(
        written(&plan.profile_blocks, &targets.zsh_profile).expect("zsh profile"),
        bash_managed_block(&paths.zsh_script)
    );
    assert_eq!(
        written(&plan.profile_blocks, &targets.powershell_profile).expect("powershell profile"),
        powershell_managed_block(&paths.powershell_script)
    );
}

fn init_only(shell: InitShell) -> Vec<String> {
    let plan = init_with_targets_and_shell(&paths(), &targets(), Some(shell), &Config::new(1), CURRENT);
    assert_eq!(plan.apply.writes.len(), 3);
    plan.profile_blocks.iter().map(|w| w.path.clone()).collect()
}

#[test]
fn init_with_shell_bash_only_updates_bash_profile() {
    assert_eq!(init_only(InitShell::Bash), vec![targets().bash_profile]);
}

#[test]
fn init_with_shell_zsh_only_updates_zsh_profile() {
    assert_eq!(init_only(InitShell::Zsh), vec![targets().zsh_profile]);
}

#[test]
fn init_with_shell_powershell_only_updates_powershell_profile() {
    assert_eq!(init_only(InitShell::Powershell), vec![targets().powershell_profile]);
}

#[test]
fn init_reports_every_file() {
    let paths = paths();
    let targets = targets();
    let plan = init_with_targets_and_shell_and_profile(
        &paths,
        &targets,
        None,
        Some(Profile::Work),
        &Config::new(1),
        CURRENT,
    );
    assert_eq!(plan.result.bash_profile, targets.bash_profile);
    assert_eq!(plan.result.zsh_profile, targets.zsh_profile);
    assert_eq!(plan.result.powershell_profile, targets.powershell_profile);
    assert_eq!(plan.result.bash_script, paths.bash_script);
    assert_eq!(plan.result.zsh_script, paths.zsh_script);
    assert_eq!(plan.result.powershell_script, paths.powershell_script);
}

#[test]
fn backup_and_restore_selected_profiles() {
    let targets = targets();

    let backup = backup_with_targets(&targets, Some(InitShell::Bash), &vec![true])
        .expect("backup should succeed");

    assert_eq!(backup.result.profile_paths, vec!["/tmp/t/.bashrc.hunming.bak".to_string()]);
    assert_eq!(backup.copies.len(), 1);
    assert_eq!(backup.copies[0].from, targets.bash_profile);

    let restored = restore_with_targets(&targets, Some(InitShell::Bash), &vec![true])
        .expect("restore should succeed");

    assert_eq!(restored.result.profile_paths, vec![targets.bash_profile.clone()]);
    assert_eq!(restored.copies[0].from, backup.copies[0].to);
    assert_eq!(restored.copies[0].to, backup.copies[0].from);
}

#[test]
fn backup_skips_missing_profiles_and_refuses_when_none_exist() {
    let targets = targets();
    let plan = backup_with_targets(&targets, None, &vec![false, true, false]).expect("one exists");
    assert_eq!(plan.result.profile_paths, vec!["/tmp/t/.zshrc.hunming.bak".to_string()]);
    let error = backup_with_targets(&targets, None, &vec![false, false, false])
        .expect_err("nothing to back up");
    assert_eq!(error.message(), "no shell profiles found to back up");
}

#[test]
fn restore_refuses_before_copying_when_a_backup_is_missing() {
    let targets = targets();
    let error = restore_with_targets(&targets, None, &vec![true, false, false])
        .expect_err("zsh backup is missing");
    assert_eq!(
        error.message(),
        "backup for /tmp/t/.zshrc is missing at /tmp/t/.zshrc.hunming.bak"
    );
}

#[test]
fn profile_paths_follow_the_chosen_shell() {
    let targets = targets();
    assert_eq!(selected_profile_paths(&targets, None).len(), 3);
    assert_eq!(
        selected_profile_paths(&targets, Some(InitShell::Powershell)),
        vec![targets.powershell_profile.clone()]
    );
}

#[test]
fn backup_paths_sit_beside_the_profile() {
    assert_eq!(shell_profile_backup_path("/home/a/.bashrc"), "/home/a/.bashrc.hunming.bak");
    assert_eq!(shell_profile_backup_path("profile.ps1"), "profile.ps1.hunming.bak");
    assert_eq!(shell_profile_backup_path("/home/a/dir/"), "/home/a/dir.hunming.bak");
    assert_eq!(shell_profile_backup_path("/"), "/hunming.bak");
}

#[test]
fn backup_paths_skip_trailing_dot_components() {
    assert_eq!(shell_profile_backup_path("x/.bashrc/."), "x/.bashrc.hunming.bak");
    assert_eq!(shell_profile_backup_path("x/.bashrc/./"), "x/.bashrc.hunming.bak");
    assert_eq!(shell_profile_backup_path("."), "./hunming.bak");
    assert_eq!(shell_profile_backup_path("a/.."), "a/../hunming.bak");
}

#[test]
fn add_keeps_the_configuration_when_the_result_fails_validation() {
    let paths = paths();
    let mut config = Config::new(1);
    config.insert("bad".to_string(), Alias::default());
    let before = config.clone();
    let error = add_with_profile(
        &paths,
        &mut config,
        "gs".to_string(),
        None,
        None,
        None,
        Vec::new(),
        strings(&["git", "status"]),
        false,
        None,
        CURRENT,
    )
    .expect_err("the stored configuration would be invalid");
    assert_eq!(error, HunmingError::EmptyAlias { name: "bad".to_string() });
    assert_eq!(config, before);
    let error = remove_with_profile(&paths, &mut config, "bad", None, CURRENT);
    assert!(error.is_ok());
    assert!(config.is_empty());
}

#[test]
fn remove_keeps_the_configuration_when_the_rest_fails_validation() {
    let paths = paths();
    let mut config = Config::new(1);
    config.insert("bad".to_string(), Alias::default());
    config.insert("gs".to_string(), command_alias(&["git", "status"], &[]));
    let before = config.clone();
    let error = remove_with_profile(&paths, &mut config, "gs", None, CURRENT)
        .expect_err("what is left is invalid");
    assert_eq!(error, HunmingError::EmptyAlias { name: "bad".to_string() });
    assert_eq!(config, before);
}
