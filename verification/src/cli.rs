//! The command line as parsed: the global options and one subcommand with
//! its arguments.
use vstd::prelude::*;
use crate::install::InitShell;
use crate::model::Profile;

verus! {

/// The parsed command line.
pub struct Cli {
    /// Path to aliases.toml.
    pub config: Option<String>,
    /// The profile aliases are rendered for.
    pub profile: Option<Profile>,
    pub command: Commands,
}

/// The subcommands.
pub enum Commands {
    /// Initialize the configuration file.
    Init(InitArgs),
    /// Add a new alias definition.
    Add(AddArgs),
    /// Remove an alias definition.
    Remove(RemoveArgs),
    /// List known aliases.
    List,
    /// Show an alias definition.
    Show(ShowArgs),
    /// Apply the generated scripts.
    Apply(ApplyArgs),
    /// Back up shell profiles before changes.
    Backup(BackupArgs),
    /// Restore shell profiles from the last backup.
    Restore(RestoreArgs),
    /// Generate shell completions.
    Completions(CompletionsArgs),
    /// Export an aliases.toml template.
    Template(TemplateArgs),
    /// Edit the configuration file.
    Edit,
    /// Check the current installation.
    Doctor(DoctorArgs),
}

/// Arguments of `init`.
pub struct InitArgs {
    /// Initialize only one shell profile.
    pub shell: Option<InitShell>,
}

/// Arguments of `add`.
pub struct AddArgs {
    /// Alias name to create.
    pub name: String,
    /// Overwrite an existing alias.
    pub force: bool,
    /// Bash command to run for this alias.
    pub bash: Option<String>,
    /// PowerShell command to run for this alias.
    pub powershell: Option<String>,
    /// Work or personal profile to assign to this alias.
    pub profile: Option<Profile>,
    /// Tags to assign to this alias.
    pub tags: Vec<String>,
    /// Command to run for this alias.
    pub command: Vec<String>,
}

/// Arguments of `apply`.
pub struct ApplyArgs {
    /// Generate only one shell script.
    pub shell: Option<InitShell>,
}

/// Arguments of `backup`.
pub struct BackupArgs {
    /// Back up only one shell profile.
    pub shell: Option<InitShell>,
}

/// Arguments of `restore`.
pub struct RestoreArgs {
    /// Restore only one shell profile.
    pub shell: Option<InitShell>,
}

/// Arguments of `completions`.
pub struct CompletionsArgs {
    /// Shell to generate completions for.
    pub shell: InitShell,
}

/// Arguments of `template`.
pub struct TemplateArgs {
    /// Write the template to a file instead of stdout.
    pub output: Option<String>,
}

/// Arguments of `show`.
pub struct ShowArgs {
    /// Alias name to display.
    pub name: String,
}

/// Arguments of `doctor`.
pub struct DoctorArgs {
    /// Attempt safe repairs.
    pub fix: bool,
}

/// Arguments of `remove`.
pub struct RemoveArgs {
    /// Alias name to remove.
    pub name: String,
}

} // verus!
