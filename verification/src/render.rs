//! The shell functions generated from a configuration.
use vstd::prelude::*;
use crate::model::{Alias, Config, Platform, Profile};
use crate::text::{is_blank, join, join_strings, lemma_join_push, trim, trim_string, views};

verus! {

/// The command line of an alias for one shell: the command words joined by
/// spaces when there are any, else the trimmed shell-specific body.
pub open spec fn body_for(a: Alias, powershell: bool) -> Seq<char> {
    if a.command@.len() > 0 {
        join(views(a.command@), " "@)
    } else {
        let own = if powershell {
            a.powershell
        } else {
            a.bash
        };
        match own {
            Some(b) => trim(b@),
            None => Seq::empty(),
        }
    }
}

/// The function that defines alias `name` in the given shell, if the alias
/// has a command line that is more than whitespace.
pub open spec fn function_for(name: Seq<char>, a: Alias, powershell: bool) -> Option<Seq<char>> {
    let body = body_for(a, powershell);
    if trim(body).len() == 0 {
        None
    } else if powershell {
        Some(
            "function "@ + name + " {\n    "@ + body + (if a.forward_args {
                " @args"@
            } else {
                Seq::empty()
            }) + "\n}\n"@,
        )
    } else {
        Some(
            name + "() {\n  "@ + body + (if a.forward_args {
                " \"$@\""@
            } else {
                Seq::empty()
            }) + "\n}\n"@,
        )
    }
}

/// The alias is active for the profile and the platform.
pub open spec fn selected(a: Alias, profile: Option<Profile>, current: Platform) -> bool {
    a.active_on(current) && a.active_for(profile)
}

/// The functions of the first `n` entries that are selected and render.
pub open spec fn functions(
    s: Seq<(String, Alias)>,
    n: int,
    powershell: bool,
    profile: Option<Profile>,
    current: Platform,
) -> Seq<Seq<char>>
    decreases n,
{
    if n <= 0 {
        Seq::empty()
    } else {
        let before = functions(s, n - 1, powershell, profile, current);
        let e = s[n - 1];
        if selected(e.1, profile, current) {
            match function_for(e.0@, e.1, powershell) {
                Some(f) => before.push(f),
                None => before,
            }
        } else {
            before
        }
    }
}

/// The script keeps exactly the aliases meant for this machine and profile:
/// the function of every alias that renders one, whose platform list is
/// empty or names the current platform, and that is unscoped or scoped to
/// the selected profile, is in it; and every function in it is such an
/// alias's function.
pub proof fn lemma_script_keeps_active_aliases(
    s: Seq<(String, Alias)>,
    n: int,
    powershell: bool,
    profile: Option<Profile>,
    current: Platform,
)
    requires
        0 <= n <= s.len(),
    ensures
        forall|i: int|
            0 <= i < n && (s[i].1.platforms@.len() == 0 || s[i].1.platforms@.contains(current))
                && s[i].1.active_for(profile) && (#[trigger] function_for(
                s[i].0@,
                s[i].1,
                powershell,
            )) is Some ==> functions(s, n, powershell, profile, current).contains(
                function_for(s[i].0@, s[i].1, powershell)->0,
            ),
        forall|k: int|
            #![trigger functions(s, n, powershell, profile, current)[k]]
            0 <= k < functions(s, n, powershell, profile, current).len() ==> exists|i: int|
                0 <= i < n && (s[i].1.platforms@.len() == 0 || s[i].1.platforms@.contains(current))
                    && s[i].1.active_for(profile) && #[trigger] function_for(
                    s[i].0@,
                    s[i].1,
                    powershell,
                ) == Some(functions(s, n, powershell, profile, current)[k]),
    decreases n,
{
    if n > 0 {
        lemma_script_keeps_active_aliases(s, n - 1, powershell, profile, current);
        let before = functions(s, n - 1, powershell, profile, current);
        let after = functions(s, n, powershell, profile, current);
        let e = s[n - 1];
        assert forall|i: int|
            0 <= i < n && (s[i].1.platforms@.len() == 0 || s[i].1.platforms@.contains(current))
                && s[i].1.active_for(profile) && (#[trigger] function_for(
                s[i].0@,
                s[i].1,
                powershell,
            )) is Some implies after.contains(function_for(s[i].0@, s[i].1, powershell)->0) by {
            let f = function_for(s[i].0@, s[i].1, powershell)->0;
            if i < n - 1 {
                let k = choose|k: int| 0 <= k < before.len() && before[k] == f;
                if after != before {
                    assert(after == before.push(function_for(e.0@, e.1, powershell)->0));
                    assert(after[k] == f);
                }
            } else {
                assert(selected(e.1, profile, current));
                assert(after == before.push(f));
                assert(after[before.len() as int] == f);
            }
        }
        assert forall|k: int| #![trigger after[k]] 0 <= k < after.len() implies exists|i: int|
            0 <= i < n && (s[i].1.platforms@.len() == 0 || s[i].1.platforms@.contains(current))
                && s[i].1.active_for(profile) && #[trigger] function_for(
                s[i].0@,
                s[i].1,
                powershell,
            ) == Some(after[k]) by {
            if k < before.len() {
                assert(after[k] == before[k]);
                let i = choose|i: int|
                    0 <= i < n - 1 && (s[i].1.platforms@.len() == 0 || s[i].1.platforms@.contains(
                        current,
                    )) && s[i].1.active_for(profile) && #[trigger] function_for(
                        s[i].0@,
                        s[i].1,
                        powershell,
                    ) == Some(before[k]);
                assert(0 <= i < n);
            } else {
                assert(selected(e.1, profile, current));
                assert(function_for(s[n - 1].0@, s[n - 1].1, powershell) == Some(after[k]));
            }
        }
    }
}

/// The whole script: the functions in name order, each pair separated by
/// two line breaks.
pub open spec fn script(
    s: Seq<(String, Alias)>,
    powershell: bool,
    profile: Option<Profile>,
    current: Platform,
) -> Seq<char> {
    join(functions(s, s.len() as int, powershell, profile, current), "\n\n"@)
}

/// The command line of `alias` for the given shell.
fn body_of(alias: &Alias, powershell: bool) -> (r: String)
    ensures
        r@ == body_for(*alias, powershell),
{
    if alias.command.len() > 0 {
        let r = join_strings(&alias.command, " ");
        r
    } else {
        let own = if powershell {
            &alias.powershell
        } else {
            &alias.bash
        };
        match own {
            Some(b) => trim_string(b.as_str()),
            None => String::new(),
        }
    }
}

/// The function for alias `name`, if it has a command line.
fn render_function(name: &str, alias: &Alias, powershell: bool) -> (r: Option<String>)
    ensures
        opt_seq(r) == function_for(name@, *alias, powershell),
{
    let body = body_of(alias, powershell);
    proof {
        crate::text::lemma_trim_empty_iff_all_ws(body@);
    }
    if is_blank(body.as_str()) {
        return None;
    }
    let mut out = String::new();
    if powershell {
        out.append("function ");
        out.append(name);
        out.append(" {\n    ");
        out.append(body.as_str());
        if alias.forward_args {
            out.append(" @args");
        }
        out.append("\n}\n");
    } else {
        out.append(name);
        out.append("() {\n  ");
        out.append(body.as_str());
        if alias.forward_args {
            out.append(" \"$@\"");
        }
        out.append("\n}\n");
    }
    proof {
        let f = function_for(name@, *alias, powershell);
        assert(f is Some);
        assert(out@ =~= f->0);
    }
    Some(out)
}

/// The view of an optional string.
pub open spec fn opt_seq(o: Option<String>) -> Option<Seq<char>> {
    match o {
        Some(s) => Some(s@),
        None => None,
    }
}

fn render_script(
    config: &Config,
    powershell: bool,
    profile: Option<Profile>,
    current: Platform,
) -> (r: String)
    ensures
        r@ == script(config@, powershell, profile, current),
{
    let entries = config.entries();
    let n = entries.len();
    let mut out = String::new();
    let mut any = false;
    let mut i: usize = 0;
    while i < n
        invariant
            n == config@.len(),
            entries@ == config@,
            i <= n,
            any == (functions(config@, i as int, powershell, profile, current).len() > 0),
            out@ == join(functions(config@, i as int, powershell, profile, current), "\n\n"@),
        decreases n - i,
    {
        let ghost before = functions(config@, i as int, powershell, profile, current);
        let name = entries[i].0.as_str();
        let alias = &entries[i].1;
        if alias.is_active_for_current_platform(current) && alias.is_active_for_profile(profile) {
            match render_function(name, alias, powershell) {
                Some(f) => {
                    proof {
                        lemma_join_push(before, "\n\n"@, f@);
                    }
                    if any {
                        out.append("\n\n");
                    }
                    out.append(f.as_str());
                    any = true;
                },
                None => {},
            }
        }
        i = i + 1;
    }
    out
}

/// The Bash script for the aliases of the profile that apply on `current`.
pub fn render_bash_with_profile(config: &Config, profile: Option<Profile>, current: Platform) -> (r:
    String)
    ensures
        r@ == script(config@, false, profile, current),
{
    render_script(config, false, profile, current)
}

/// The Bash script for every profile's aliases that apply on `current`.
pub fn render_bash(config: &Config, current: Platform) -> (r: String)
    ensures
        r@ == script(config@, false, None, current),
{
    render_script(config, false, None, current)
}

/// The PowerShell script for the aliases of the profile that apply on
/// `current`.
pub fn render_powershell_with_profile(
    config: &Config,
    profile: Option<Profile>,
    current: Platform,
) -> (r: String)
    ensures
        r@ == script(config@, true, profile, current),
{
    render_script(config, true, profile, current)
}

/// The PowerShell script for every profile's aliases that apply on
/// `current`.
pub fn render_powershell(config: &Config, current: Platform) -> (r: String)
    ensures
        r@ == script(config@, true, None, current),
{
    render_script(config, true, None, current)
}

} // verus!
