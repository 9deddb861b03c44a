//! Where the configuration, the generated scripts and the shell profiles
//! live, as `/`-separated path strings.
use vstd::prelude::*;

verus! {

/// `part` appended to `base` with one separator between them, as
/// `Path::join` does for a relative `part`.
pub open spec fn join_path(base: Seq<char>, part: Seq<char>) -> Seq<char> {
    if base.len() == 0 {
        part
    } else if base.last() == '/' {
        base + part
    } else {
        base + seq!['/'] + part
    }
}

/// `part` appended to `base` with one separator between them.
pub fn join(base: &str, part: &str) -> (r: String)
    ensures
        r@ == join_path(base@, part@),
{
    let n = base.unicode_len();
    let mut r = String::from_str(base);
    if n > 0 && base.get_char(n - 1) != '/' {
        r.append("/");
        proof {
            reveal_strlit("/");
        }
    }
    r.append(part);
    proof {
        if n > 0 {
            assert(base@.last() == base@[n - 1]);
        }
    }
    r
}

/// The files and directories of an installation.
#[derive(Clone, Debug, PartialEq, Eq)]
pub struct AppPaths {
    pub config_dir: String,
    pub config_file: String,
    pub generated_dir: String,
    pub bash_script: String,
    pub zsh_script: String,
    pub powershell_script: String,
}

/// The installation laid out under `dir`.
pub open spec fn layout_under(p: AppPaths, dir: Seq<char>) -> bool {
    let generated = join_path(dir, "generated"@);
    &&& p.config_dir@ == dir
    &&& p.config_file@ == join_path(dir, "aliases.toml"@)
    &&& p.generated_dir@ == generated
    &&& p.bash_script@ == join_path(generated, "bash.sh"@)
    &&& p.zsh_script@ == join_path(generated, "zsh.sh"@)
    &&& p.powershell_script@ == join_path(generated, "powershell.ps1"@)
}

impl AppPaths {
    /// `aliases.toml` in `config_dir`, the scripts in its `generated`
    /// directory.
    pub fn from_config_dir(config_dir: &str) -> (r: AppPaths)
        ensures
            layout_under(r, config_dir@),
    {
        let generated_dir = join(config_dir, "generated");
        AppPaths {
            config_file: join(config_dir, "aliases.toml"),
            bash_script: join(generated_dir.as_str(), "bash.sh"),
            zsh_script: join(generated_dir.as_str(), "zsh.sh"),
            powershell_script: join(generated_dir.as_str(), "powershell.ps1"),
            generated_dir,
            config_dir: String::from_str(config_dir),
        }
    }

    /// The Unix layout: `~/.config/hunming`.
    pub fn from_unix_home(home_dir: &str) -> (r: AppPaths)
        ensures
            layout_under(r, join_path(join_path(home_dir@, ".config"@), "hunming"@)),
    {
        let config = join(home_dir, ".config");
        let dir = join(config.as_str(), "hunming");
        AppPaths::from_config_dir(dir.as_str())
    }

    /// The Windows layout: `%APPDATA%/hunming`.
    pub fn from_windows_appdata(appdata_dir: &str) -> (r: AppPaths)
        ensures
            layout_under(r, join_path(appdata_dir@, "hunming"@)),
    {
        let dir = join(appdata_dir, "hunming");
        AppPaths::from_config_dir(dir.as_str())
    }

    /// The layout around a configuration file given by the user: its
    /// directory, with the file in place of `aliases.toml`.
    pub fn from_config_file(config_file: &str) -> (r: AppPaths)
        ensures
            r.config_file@ == config_file@,
            r.config_dir@ == parent_dir(config_file@),
            r.generated_dir@ == join_path(parent_dir(config_file@), "generated"@),
            r.bash_script@ == join_path(r.generated_dir@, "bash.sh"@),
            r.zsh_script@ == join_path(r.generated_dir@, "zsh.sh"@),
            r.powershell_script@ == join_path(r.generated_dir@, "powershell.ps1"@),
    {
        let dir = parent(config_file);
        let mut r = AppPaths::from_config_dir(dir.as_str());
        r.config_file = String::from_str(config_file);
        r
    }
}

/// Where the last `/` of `p` stands, or -1.
pub open spec fn last_slash(p: Seq<char>) -> int
    decreases p.len(),
{
    if p.len() == 0 {
        -1
    } else if p.last() == '/' {
        p.len() - 1
    } else {
        last_slash(p.drop_last())
    }
}

/// The directory part of `p`: what comes before its last `/`, `/` itself
/// for a file at the root, and nothing for a bare file name.
pub open spec fn parent_dir(p: Seq<char>) -> Seq<char> {
    let k = last_slash(p);
    if k < 0 {
        Seq::empty()
    } else if k == 0 {
        seq!['/']
    } else {
        p.subrange(0, k)
    }
}

/// The directory part of a path.
pub fn parent(path: &str) -> (r: String)
    ensures
        r@ == parent_dir(path@),
{
    let n = path.unicode_len();
    let mut k = n;
    assert(path@.subrange(0, n as int) =~= path@);
    while k > 0 && path.get_char(k - 1) != '/'
        invariant
            k <= n == path@.len(),
            last_slash(path@) == last_slash(path@.subrange(0, k as int)),
        decreases k,
    {
        assert(path@.subrange(0, k as int).drop_last() =~= path@.subrange(0, k - 1));
        k = k - 1;
    }
    proof {
        if k > 0 {
            assert(path@.subrange(0, k as int).last() == '/');
        }
        assert(last_slash(path@) == k - 1);
    }
    if k == 0 {
        String::new()
    } else if k == 1 {
        let r = String::from_str("/");
        proof {
            reveal_strlit("/");
        }
        assert(r@ =~= seq!['/']);
        r
    } else {
        String::from_str(path.substring_char(0, k - 1))
    }
}

/// The shell profiles that `init`, `backup` and `restore` work on.
#[derive(Clone, Debug, PartialEq, Eq)]
pub struct InitTargets {
    pub bash_profile: String,
    pub zsh_profile: String,
    pub powershell_profile: String,
}

/// The shell profiles that `doctor` inspects.
#[derive(Clone, Debug, PartialEq, Eq)]
pub struct DoctorTargets {
    pub bash_rc_profile: String,
    pub bash_login_profile: String,
    pub zsh_profile: String,
    pub powershell_profile: String,
}

/// Where PowerShell keeps the current user's profile under `home`.
pub open spec fn powershell_profile_under(home: Seq<char>, windows: bool) -> Seq<char> {
    let dir = if windows {
        join_path(join_path(home, "Documents"@), "PowerShell"@)
    } else {
        join_path(join_path(home, ".config"@), "powershell"@)
    };
    join_path(dir, "Microsoft.PowerShell_profile.ps1"@)
}

/// Where PowerShell keeps the current user's profile under `home`.
fn powershell_profile_path(home: &str, windows: bool) -> (r: String)
    ensures
        r@ == powershell_profile_under(home@, windows),
{
    let dir = if windows {
        let d = join(home, "Documents");
        join(d.as_str(), "PowerShell")
    } else {
        let d = join(home, ".config");
        join(d.as_str(), "powershell")
    };
    join(dir.as_str(), "Microsoft.PowerShell_profile.ps1")
}

impl InitTargets {
    /// `~/.bashrc`, `~/.zshrc` and the PowerShell profile of the platform.
    pub fn for_home(home: &str, windows: bool) -> (r: InitTargets)
        ensures
            r.bash_profile@ == join_path(home@, ".bashrc"@),
            r.zsh_profile@ == join_path(home@, ".zshrc"@),
            r.powershell_profile@ == powershell_profile_under(home@, windows),
    {
        InitTargets {
            bash_profile: join(home, ".bashrc"),
            zsh_profile: join(home, ".zshrc"),
            powershell_profile: powershell_profile_path(home, windows),
        }
    }
}

impl DoctorTargets {
    /// `~/.bashrc`, `~/.bash_profile`, `~/.zshrc` and the PowerShell profile
    /// of the platform.
    pub fn for_home(home: &str, windows: bool) -> (r: DoctorTargets)
        ensures
            r.bash_rc_profile@ == join_path(home@, ".bashrc"@),
            r.bash_login_profile@ == join_path(home@, ".bash_profile"@),
            r.zsh_profile@ == join_path(home@, ".zshrc"@),
            r.powershell_profile@ == powershell_profile_under(home@, windows),
    {
        DoctorTargets {
            bash_rc_profile: join(home, ".bashrc"),
            bash_login_profile: join(home, ".bash_profile"),
            zsh_profile: join(home, ".zshrc"),
            powershell_profile: powershell_profile_path(home, windows),
        }
    }
}

} // verus!
