//! The rules an alias and a configuration must follow.
use vstd::prelude::*;
use crate::error::{ErrorView, HunmingError};
use crate::model::{Alias, Config};
use crate::text::{all_ws, is_blank, str_eq, trim, trim_string, views};

verus! {

/// An ASCII letter.
pub open spec fn is_ascii_letter(c: char) -> bool {
    ('A' <= c && c <= 'Z') || ('a' <= c && c <= 'z')
}

/// An ASCII digit.
pub open spec fn is_ascii_digit(c: char) -> bool {
    '0' <= c && c <= '9'
}

/// `name` matches `^[A-Za-z_][A-Za-z0-9_-]*$`.
pub open spec fn valid_name(name: Seq<char>) -> bool {
    &&& name.len() > 0
    &&& (is_ascii_letter(name[0]) || name[0] == '_')
    &&& forall|i: int|
        1 <= i < name.len() ==> {
            let c = #[trigger] name[i];
            is_ascii_letter(c) || is_ascii_digit(c) || c == '_' || c == '-'
        }
}

/// The value is present and holds more than whitespace.
pub open spec fn non_blank(o: Option<String>) -> bool {
    match o {
        Some(s) => !all_ws(s@),
        None => false,
    }
}

/// The alias defines something to run: a command, or a Bash or PowerShell body.
pub open spec fn defines_something(a: Alias) -> bool {
    a.command@.len() > 0 || non_blank(a.bash) || non_blank(a.powershell)
}

/// What is wrong with tag `i` of alias `name`, given that the tags before
/// it are fine.
pub open spec fn tag_issue(name: Seq<char>, tags: Seq<Seq<char>>, i: int) -> Option<ErrorView> {
    if trim(tags[i]).len() == 0 {
        Some(ErrorView::EmptyTag { name })
    } else if trim(tags[i]) != tags[i] {
        Some(ErrorView::TagWhitespace { name, tag: tags[i] })
    } else if exists|j: int| 0 <= j < i && tags[j] == tags[i] {
        Some(ErrorView::DuplicateTag { name, tag: tags[i] })
    } else {
        None
    }
}

/// The first problem among the first `n` tags.
pub open spec fn first_tag_issue(name: Seq<char>, tags: Seq<Seq<char>>, n: int) -> Option<
    ErrorView,
>
    decreases n,
{
    if n <= 0 {
        None
    } else {
        match first_tag_issue(name, tags, n - 1) {
            Some(e) => Some(e),
            None => tag_issue(name, tags, n - 1),
        }
    }
}

/// The first problem with alias `a` named `name`, checked in this order: the
/// name, that it defines something, then each tag in turn.
pub open spec fn alias_issue(name: Seq<char>, a: Alias) -> Option<ErrorView> {
    if !valid_name(name) {
        Some(ErrorView::InvalidAliasName { name })
    } else if !defines_something(a) {
        Some(ErrorView::EmptyAlias { name })
    } else {
        first_tag_issue(name, views(a.tags@), a.tags@.len() as int)
    }
}

/// The first problem among the first `n` entries of a configuration.
pub open spec fn first_entry_issue(s: Seq<(String, Alias)>, n: int) -> Option<ErrorView>
    decreases n,
{
    if n <= 0 {
        None
    } else {
        match first_entry_issue(s, n - 1) {
            Some(e) => Some(e),
            None => alias_issue(s[n - 1].0@, s[n - 1].1),
        }
    }
}

/// What a check returns: `Ok` without a problem, else the problem.
pub open spec fn outcome<T>(issue: Option<ErrorView>, r: Result<T, HunmingError>) -> bool {
    match issue {
        None => r is Ok,
        Some(e) => r matches Err(err) && err@ == e,
    }
}

/// A problem found among the first `i + 1` tags is the first problem of all
/// the tags.
pub proof fn lemma_tag_issue_stays(name: Seq<char>, tags: Seq<Seq<char>>, i: int, n: int)
    requires
        0 <= i < n,
        first_tag_issue(name, tags, i + 1) is Some,
    ensures
        first_tag_issue(name, tags, n) == first_tag_issue(name, tags, i + 1),
    decreases n - i,
{
    if n > i + 1 {
        lemma_tag_issue_stays(name, tags, i, n - 1);
    }
}

/// A problem found among the first `i + 1` entries is the first problem of
/// all the entries.
pub proof fn lemma_entry_issue_stays(s: Seq<(String, Alias)>, i: int, n: int)
    requires
        0 <= i < n,
        first_entry_issue(s, i + 1) is Some,
    ensures
        first_entry_issue(s, n) == first_entry_issue(s, i + 1),
    decreases n - i,
{
    if n > i + 1 {
        lemma_entry_issue_stays(s, i, n - 1);
    }
}

fn is_name_start(c: char) -> (r: bool)
    ensures
        r == (is_ascii_letter(c) || c == '_'),
{
    ('A' <= c && c <= 'Z') || ('a' <= c && c <= 'z') || c == '_'
}

fn is_name_rest(c: char) -> (r: bool)
    ensures
        r == (is_ascii_letter(c) || is_ascii_digit(c) || c == '_' || c == '-'),
{
    ('A' <= c && c <= 'Z') || ('a' <= c && c <= 'z') || ('0' <= c && c <= '9') || c == '_' || c
        == '-'
}

/// Accepts names that match `^[A-Za-z_][A-Za-z0-9_-]*$`.
pub fn validate_alias_name(name: &str) -> (r: Result<(), HunmingError>)
    ensures
        r is Ok <==> valid_name(name@),
        r matches Err(e) ==> e@ == (ErrorView::InvalidAliasName { name: name@ }),
{
    let n = name.unicode_len();
    let ok = if n == 0 {
        false
    } else if !is_name_start(name.get_char(0)) {
        false
    } else {
        let mut i: usize = 1;
        let mut good = true;
        while i < n
            invariant
                n == name@.len(),
                1 <= i <= n,
                good ==> forall|j: int|
                    1 <= j < i ==> {
                        let c = #[trigger] name@[j];
                        is_ascii_letter(c) || is_ascii_digit(c) || c == '_' || c == '-'
                    },
                !good ==> !valid_name(name@),
            decreases n - i,
        {
            let c = name.get_char(i);
            if !is_name_rest(c) {
                good = false;
                assert(!valid_name(name@)) by {
                    assert(name@[i as int] == c);
                }
            }
            i = i + 1;
        }
        good
    };
    if ok {
        Ok(())
    } else {
        Err(HunmingError::InvalidAliasName { name: String::from_str(name) })
    }
}

/// Whether an optional value holds more than whitespace.
fn has_text(o: &Option<String>) -> (r: bool)
    ensures
        r == non_blank(*o),
{
    match o {
        Some(s) => !is_blank(s.as_str()),
        None => false,
    }
}

/// Checks the name, that the alias defines something to run, and that its
/// tags are neither empty nor padded with whitespace nor repeated.
pub fn validate_alias(name: &str, alias: &Alias) -> (r: Result<(), HunmingError>)
    ensures
        outcome(alias_issue(name@, *alias), r),
{
    validate_alias_name(name)?;
    if alias.command.len() == 0 && !has_text(&alias.bash) && !has_text(&alias.powershell) {
        return Err(HunmingError::EmptyAlias { name: String::from_str(name) });
    }
    let ghost tags = views(alias.tags@);
    let n = alias.tags.len();
    let mut i: usize = 0;
    while i < n
        invariant
            n == alias.tags@.len(),
            tags == views(alias.tags@),
            i <= n,
            first_tag_issue(name@, tags, i as int) is None,
            valid_name(name@),
            defines_something(*alias),
        decreases n - i,
    {
        let tag = alias.tags[i].as_str();
        assert(tags[i as int] == tag@);
        let trimmed = trim_string(tag);
        if is_blank(tag) {
            proof {
                crate::text::lemma_trim_empty_iff_all_ws(tag@);
                lemma_tag_issue_stays(name@, tags, i as int, n as int);
            }
            return Err(HunmingError::EmptyTag { name: String::from_str(name) });
        }
        proof {
            crate::text::lemma_trim_empty_iff_all_ws(tag@);
        }
        if !str_eq(trimmed.as_str(), tag) {
            proof {
                lemma_tag_issue_stays(name@, tags, i as int, n as int);
            }
            return Err(
                HunmingError::TagWhitespace {
                    name: String::from_str(name),
                    tag: String::from_str(tag),
                },
            );
        }
        let mut j: usize = 0;
        while j < i
            invariant
                n == alias.tags@.len(),
                tags == views(alias.tags@),
                j <= i < n,
                tag@ == tags[i as int],
                forall|k: int| 0 <= k < j ==> tags[k] != tags[i as int],
                first_tag_issue(name@, tags, i as int) is None,
                valid_name(name@),
                defines_something(*alias),
                trim(tags[i as int]).len() != 0,
                trim(tags[i as int]) == tags[i as int],
            decreases i - j,
        {
            if str_eq(alias.tags[j].as_str(), tag) {
                assert(tags[j as int] == tags[i as int]);
                proof {
                    lemma_tag_issue_stays(name@, tags, i as int, n as int);
                }
                return Err(
                    HunmingError::DuplicateTag {
                        name: String::from_str(name),
                        tag: String::from_str(tag),
                    },
                );
            }
            j = j + 1;
        }
        i = i + 1;
    }
    Ok(())
}

/// Checks every alias of the configuration in name order and reports the
/// first problem.
pub fn validate_config(config: &Config) -> (r: Result<(), HunmingError>)
    ensures
        outcome(first_entry_issue(config@, config@.len() as int), r),
{
    let entries = config.entries();
    let n = entries.len();
    let mut i: usize = 0;
    while i < n
        invariant
            n == config@.len(),
            entries@ == config@,
            i <= n,
            first_entry_issue(config@, i as int) is None,
        decreases n - i,
    {
        let r = validate_alias(entries[i].0.as_str(), &entries[i].1);
        if r.is_err() {
            proof {
                lemma_entry_issue_stays(config@, i as int, n as int);
            }
            return r;
        }
        i = i + 1;
    }
    Ok(())
}

} // verus!
