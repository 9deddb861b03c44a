use hunming::paths::{AppPaths, DoctorTargets, InitTargets};

#[test]
fn builds_unix_paths_from_home_directory() {
    let paths = AppPaths::from_unix_home("/Users/alice");

    assert_eq!(paths.config_dir, "/Users/alice/.config/hunming");
    assert_eq!(paths.config_file, "/Users/alice/.config/hunming/aliases.toml");
    assert_eq!(paths.generated_dir, "/Users/alice/.config/hunming/generated");
    assert_eq!(paths.bash_script, "/Users/alice/.config/hunming/generated/bash.sh");
    assert_eq!(paths.zsh_script, "/Users/alice/.config/hunming/generated/zsh.sh");
    assert_eq!(
        paths.powershell_script,
        "/Users/alice/.config/hunming/generated/powershell.ps1"
    );
}

#[test]
fn builds_windows_paths_from_appdata_directory() {
    let paths = AppPaths::from_windows_appdata(r"C:\Users\alice\AppData\Roaming");

    assert_eq!(paths.config_dir, r"C:\Users\alice\AppData\Roaming/hunming");
    assert_eq!(paths.config_file, r"C:\Users\alice\AppData\Roaming/hunming/aliases.toml");
    assert_eq!(paths.generated_dir, r"C:\Users\alice\AppData\Roaming/hunming/generated");
    assert_eq!(paths.bash_script, r"C:\Users\alice\AppData\Roaming/hunming/generated/bash.sh");
    assert_eq!(paths.zsh_script, r"C:\Users\alice\AppData\Roaming/hunming/generated/zsh.sh");
    assert_eq!(
        paths.powershell_script,
        r"C:\Users\alice\AppData\Roaming/hunming/generated/powershell.ps1"
    );
}

#[test]
fn builds_paths_from_custom_config_file() {
    let config_file = "/tmp/work/profiles/aliases.toml";
    let paths = AppPaths::from_config_file(config_file);

    assert_eq!(paths.config_file, config_file);
    assert_eq!(paths.config_dir, "/tmp/work/profiles");
    assert_eq!(paths.generated_dir, "/tmp/work/profiles/generated");
    assert_eq!(paths.bash_script, "/tmp/work/profiles/generated/bash.sh");
}

#[test]
fn custom_config_file_without_directory_uses_relative_layout() {
    let paths = AppPaths::from_config_file("aliases.toml");
    assert_eq!(paths.config_dir, "");
    assert_eq!(paths.generated_dir, "generated");
    let root = AppPaths::from_config_file("/aliases.toml");
    assert_eq!(root.config_dir, "/");
    assert_eq!(root.bash_script, "/generated/bash.sh");
}

#[test]
fn config_dir_with_trailing_slash_gets_one_separator() {
    let paths = AppPaths::from_config_dir("/etc/hunming/");
    assert_eq!(paths.config_file, "/etc/hunming/aliases.toml");
}

#[test]
fn default_targets_follow_the_home_directory() {
    let unix = InitTargets::for_home("/home/bob", false);
    assert_eq!(unix.bash_profile, "/home/bob/.bashrc");
    assert_eq!(unix.zsh_profile, "/home/bob/.zshrc");
    assert_eq!(
        unix.powershell_profile,
        "/home/bob/.config/powershell/Microsoft.PowerShell_profile.ps1"
    );
    let windows = DoctorTargets::for_home("C:/Users/bob", true);
    assert_eq!(windows.bash_login_profile, "C:/Users/bob/.bash_profile");
    assert_eq!(
        windows.powershell_profile,
        "C:/Users/bob/Documents/PowerShell/Microsoft.PowerShell_profile.ps1"
    );
}
