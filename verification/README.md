# HunMing

Cross-platform alias manager for Bash, Zsh and PowerShell. Aliases live in
`aliases.toml`; HunMing generates one shell function per alias and keeps a
managed block in each shell profile that sources the generated script.

## Layout

- `src/` is the library, written in Verus. Every function carries a
  `requires`/`ensures` contract that Verus proves, except two small
  wrappers around std whose contracts are taken on trust: one quotes a
  string as Rust's `Debug` does (`format!("{:?}")`), the other appends a
  character (`String::push`). The modules:
  - `model`: platforms, profiles, aliases and the configuration (aliases
    sorted by name, no name twice);
  - `validation`: the alias name pattern, the rule that an alias defines
    something to run, and the tag rules;
  - `render`: the Bash/Zsh and PowerShell scripts;
  - `block`: the managed block and its insertion into a profile;
  - `install`: what `apply`, `init`, `add`, `remove`, `backup` and
    `restore` write or copy, planned from plain values;
  - `listing`: the output of `list` and `show`;
  - `doctor`: the report of `doctor` over what was observed;
  - `config`: the default configuration, the template, and the merging of
    extra alias files;
  - `paths`: where the configuration, scripts and profiles live;
  - `tui`: the state of the interactive browser;
  - `cli`: the parsed command line;
  - `text`: character-level helpers (trimming, searching, joining).
- `app/` is the `hunming` program: argument parsing (clap), TOML (serde,
  toml), file access, the editor, completions (clap_complete) and the
  terminal (ratatui, crossterm). It reads, lets the library decide, and
  writes what the library planned.
- `tests/` exercises the library on concrete values.
