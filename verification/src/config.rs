//! The default configuration, the exported template, and the merging of
//! the extra alias files a configuration pulls in.
use vstd::prelude::*;
use crate::error::{ErrorView, HunmingError};
use crate::model::{Alias, Config};
use crate::paths::join_path;

verus! {

/// Version 1 without aliases.
pub fn default_config() -> (r: Config)
    ensures
        r.wf(),
        r.version_of() == 1,
        r@ == Seq::<(String, Alias)>::empty(),
{
    Config::new(1)
}

/// The text `template` exports: a commented aliases.toml with two example
/// aliases.
pub open spec fn template_text() -> Seq<char> {
    "# HunMing aliases: one table per alias under [aliases].\n# An alias runs `command`, or the `bash` / `powershell` body of the shell.\nversion = 1\n\n[aliases.gs]\ndescription = \"Short git status\"\ncommand = [\"git\", \"status\", \"--short\"]\ntags = [\"git\"]\n\n[aliases.ll]\ndescription = \"Long directory listing\"\nbash = \"ls -lah\"\npowershell = \"Get-ChildItem -Force\"\ntags = [\"files\"]\n"@
}

/// The aliases.toml template.
pub fn render_template() -> (r: String)
    ensures
        r@ == template_text(),
{
    String::from_str("# HunMing aliases: one table per alias under [aliases].\n# An alias runs `command`, or the `bash` / `powershell` body of the shell.\nversion = 1\n\n[aliases.gs]\ndescription = \"Short git status\"\ncommand = [\"git\", \"status\", \"--short\"]\ntags = [\"git\"]\n\n[aliases.ll]\ndescription = \"Long directory listing\"\nbash = \"ls -lah\"\npowershell = \"Get-ChildItem -Force\"\ntags = [\"files\"]\n")
}

/// Where an extra alias file lives: relative names are taken from the
/// configuration's directory, absolute ones as they are.
pub open spec fn extra_path_of(config_dir: Seq<char>, name: Seq<char>) -> Seq<char> {
    if name.len() > 0 && name[0] == '/' {
        name
    } else {
        join_path(config_dir, name)
    }
}

/// Where an extra alias file lives.
pub fn resolve_extra_path(config_dir: &str, name: &str) -> (r: String)
    ensures
        r@ == extra_path_of(config_dir@, name@),
{
    if name.unicode_len() > 0 && name.get_char(0) == '/' {
        String::from_str(name)
    } else {
        crate::paths::join(config_dir, name)
    }
}

/// The aliases of the first `n` extra files, one file after the other.
pub open spec fn flat_entries(extras: Seq<Config>, n: int) -> Seq<(String, Alias)>
    decreases n,
{
    if n <= 0 {
        Seq::empty()
    } else {
        flat_entries(extras, n - 1) + extras[n - 1]@
    }
}

/// The aliases after adding the first `n` entries of `flat` to `start`, or
/// the first name that is defined a second time.
pub open spec fn merged(start: Map<Seq<char>, Alias>, flat: Seq<(String, Alias)>, n: int) -> Result<
    Map<Seq<char>, Alias>,
    Seq<char>,
>
    decreases n,
{
    if n <= 0 {
        Ok(start)
    } else {
        match merged(start, flat, n - 1) {
            Err(name) => Err(name),
            Ok(m) => if m.contains_key(flat[n - 1].0@) {
                Err(flat[n - 1].0@)
            } else {
                Ok(m.insert(flat[n - 1].0@, flat[n - 1].1))
            },
        }
    }
}

proof fn lemma_merged_err_stays(start: Map<Seq<char>, Alias>, flat: Seq<(String, Alias)>, k: int, n: int)
    requires
        0 <= k <= n,
        merged(start, flat, k) is Err,
    ensures
        merged(start, flat, n) == merged(start, flat, k),
    decreases n - k,
{
    if n > k {
        lemma_merged_err_stays(start, flat, k, n - 1);
    }
}

/// A successful merge keeps every alias of the root as it was and holds
/// every alias of the extra files under its name.
pub proof fn lemma_merged_keeps_everything(
    start: Map<Seq<char>, Alias>,
    flat: Seq<(String, Alias)>,
    n: int,
    m: Map<Seq<char>, Alias>,
)
    requires
        0 <= n <= flat.len(),
        merged(start, flat, n) == Ok::<Map<Seq<char>, Alias>, Seq<char>>(m),
    ensures
        forall|k: Seq<char>| #[trigger] start.contains_key(k) ==> m.contains_key(k) && m[k] == start[k],
        forall|i: int|
            0 <= i < n ==> m.contains_key((#[trigger] flat[i]).0@) && m[flat[i].0@] == flat[i].1,
        forall|k: Seq<char>|
            #[trigger] m.contains_key(k) ==> start.contains_key(k) || exists|i: int|
                0 <= i < n && (#[trigger] flat[i]).0@ == k,
    decreases n,
{
    if n > 0 {
        match merged(start, flat, n - 1) {
            Ok(prev) => {
                lemma_merged_keeps_everything(start, flat, n - 1, prev);
                let key = flat[n - 1].0@;
                assert(!prev.contains_key(key));
                assert(m == prev.insert(key, flat[n - 1].1));
                assert forall|k: Seq<char>| #[trigger] m.contains_key(k) implies start.contains_key(k)
                    || exists|i: int| 0 <= i < n && (#[trigger] flat[i]).0@ == k by {
                    if k != key && !start.contains_key(k) {
                        assert(prev.contains_key(k));
                        let i = choose|i: int| 0 <= i < n - 1 && (#[trigger] flat[i]).0@ == k;
                        assert(0 <= i < n && flat[i].0@ == k);
                    } else if k == key {
                        assert(flat[n - 1].0@ == k);
                    }
                }
            },
            Err(_) => {},
        }
    } else {
        assert(m == start);
    }
}

/// The entries of the first `i` files open the entries of the first `n`.
proof fn lemma_flat_prefix(extras: Seq<Config>, i: int, n: int)
    requires
        0 <= i <= n <= extras.len(),
    ensures
        flat_entries(extras, i).len() <= flat_entries(extras, n).len(),
        forall|k: int|
            0 <= k < flat_entries(extras, i).len() ==> #[trigger] flat_entries(extras, n)[k]
                == flat_entries(extras, i)[k],
    decreases n - i,
{
    if i < n {
        lemma_flat_prefix(extras, i, n - 1);
    }
}

/// The root configuration with the aliases of the extra files added in
/// order; refuses the first name that is defined a second time, in the root
/// or in an earlier file.
pub fn merge_extra_files(root: Config, extras: Vec<Config>) -> (r: Result<Config, HunmingError>)
    requires
        root.wf(),
    ensures
        ({
            let flat = flat_entries(extras@, extras@.len() as int);
            match merged(root.to_map(), flat, flat.len() as int) {
                Ok(m) => r matches Ok(c) && c.wf() && c.to_map() == m && c.version_of()
                    == root.version_of(),
                Err(name) => r matches Err(e) && e@ == (ErrorView::DefinedMoreThanOnce { name }),
            }
        }),
{
    let mut result = root;
    let ghost start = result.to_map();
    let ghost all = extras@;
    let ghost version = result.version_of();
    let ghost total = flat_entries(all, all.len() as int);
    let mut rest = extras;
    let ghost mut i: int = 0;
    while rest.len() > 0
        invariant
            0 <= i <= all.len(),
            rest@ == all.subrange(i, all.len() as int),
            total == flat_entries(all, all.len() as int),
            all == extras@,
            start == root.to_map(),
            result.wf(),
            result.version_of() == version,
            flat_entries(all, i).len() <= total.len(),
            merged(start, total, flat_entries(all, i).len() as int) == Ok::<
                Map<Seq<char>, Alias>,
                Seq<char>,
            >(result.to_map()),
        decreases rest@.len(),
    {
        let file = rest.remove(0);
        let ghost off = flat_entries(all, i).len() as int;
        let ghost here = all[i]@;
        proof {
            assert(file == all[i]);
            lemma_flat_prefix(all, i + 1, all.len() as int);
            assert(flat_entries(all, i + 1) == flat_entries(all, i) + here);
            assert forall|k: int| 0 <= k < here.len() implies #[trigger] total[off + k] == here[k] by {
                assert(flat_entries(all, i + 1)[off + k] == here[k]);
            }
        }
        let mut entries = file.into_entries();
        let ghost mut j: int = 0;
        while entries.len() > 0
            invariant
                0 <= j <= here.len(),
                total == flat_entries(extras@, extras@.len() as int),
                start == root.to_map(),
                entries@ == here.subrange(j, here.len() as int),
                0 <= off,
                off + here.len() <= total.len(),
                forall|k: int| 0 <= k < here.len() ==> #[trigger] total[off + k] == here[k],
                result.wf(),
                result.version_of() == version,
                merged(start, total, off + j) == Ok::<Map<Seq<char>, Alias>, Seq<char>>(
                    result.to_map(),
                ),
            decreases entries@.len(),
        {
            let (name, alias) = entries.remove(0);
            assert(total[off + j] == here[j]);
            if result.contains_key(name.as_str()) {
                proof {
                    assert(merged(start, total, off + j + 1) == Err::<Map<Seq<char>, Alias>, Seq<char>>(
                        name@,
                    ));
                    lemma_merged_err_stays(start, total, off + j + 1, total.len() as int);
                }
                return Err(HunmingError::DefinedMoreThanOnce { name });
            }
            result.insert(name, alias);
            proof {
                j = j + 1;
            }
        }
        proof {
            i = i + 1;
        }
    }
    Ok(result)
}

} // verus!
