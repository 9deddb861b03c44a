//! The errors of the library and the messages they are reported with.
use vstd::prelude::*;

verus! {

/// What went wrong, with the names that the message quotes.
#[derive(Clone, Debug, PartialEq, Eq)]
pub enum HunmingError {
    InvalidAliasName { name: String },
    EmptyAlias { name: String },
    EmptyTag { name: String },
    TagWhitespace { name: String, tag: String },
    DuplicateTag { name: String, tag: String },
    AliasExists { name: String },
    AliasMissing { name: String },
    DefinedMoreThanOnce { name: String },
    NoProfilesToBackUp,
    BackupMissing { profile: String, backup: String },
}

/// The mathematical value of a [`HunmingError`].
pub enum ErrorView {
    InvalidAliasName { name: Seq<char> },
    EmptyAlias { name: Seq<char> },
    EmptyTag { name: Seq<char> },
    TagWhitespace { name: Seq<char>, tag: Seq<char> },
    DuplicateTag { name: Seq<char>, tag: Seq<char> },
    AliasExists { name: Seq<char> },
    AliasMissing { name: Seq<char> },
    DefinedMoreThanOnce { name: Seq<char> },
    NoProfilesToBackUp,
    BackupMissing { profile: Seq<char>, backup: Seq<char> },
}

impl View for HunmingError {
    type V = ErrorView;

    open spec fn view(&self) -> ErrorView {
        match self {
            HunmingError::InvalidAliasName { name } => ErrorView::InvalidAliasName { name: name@ },
            HunmingError::EmptyAlias { name } => ErrorView::EmptyAlias { name: name@ },
            HunmingError::EmptyTag { name } => ErrorView::EmptyTag { name: name@ },
            HunmingError::TagWhitespace { name, tag } => ErrorView::TagWhitespace {
                name: name@,
                tag: tag@,
            },
            HunmingError::DuplicateTag { name, tag } => ErrorView::DuplicateTag {
                name: name@,
                tag: tag@,
            },
            HunmingError::AliasExists { name } => ErrorView::AliasExists { name: name@ },
            HunmingError::AliasMissing { name } => ErrorView::AliasMissing { name: name@ },
            HunmingError::DefinedMoreThanOnce { name } => ErrorView::DefinedMoreThanOnce {
                name: name@,
            },
            HunmingError::NoProfilesToBackUp => ErrorView::NoProfilesToBackUp,
            HunmingError::BackupMissing { profile, backup } => ErrorView::BackupMissing {
                profile: profile@,
                backup: backup@,
            },
        }
    }
}

/// `name` between backquotes.
pub open spec fn quoted(name: Seq<char>) -> Seq<char> {
    seq!['`'] + name + seq!['`']
}

/// The message that reports `e`.
pub open spec fn message_text(e: ErrorView) -> Seq<char> {
    match e {
        ErrorView::InvalidAliasName { name } => "invalid alias name "@ + quoted(name)
            + ": must match ^[A-Za-z_][A-Za-z0-9_-]*$"@,
        ErrorView::EmptyAlias { name } => "alias "@ + quoted(name)
            + " must define command, bash, or powershell"@,
        ErrorView::EmptyTag { name } => "alias "@ + quoted(name) + " has an empty tag"@,
        ErrorView::TagWhitespace { name, tag } => "alias "@ + quoted(name)
            + " has a tag with surrounding whitespace: "@ + quoted(tag),
        ErrorView::DuplicateTag { name, tag } => "alias "@ + quoted(name) + " has duplicate tag "@
            + quoted(tag),
        ErrorView::AliasExists { name } => "alias "@ + quoted(name)
            + " already exists; use --force to overwrite"@,
        ErrorView::AliasMissing { name } => "alias "@ + quoted(name) + " does not exist"@,
        ErrorView::DefinedMoreThanOnce { name } => "alias "@ + quoted(name)
            + " is defined more than once"@,
        ErrorView::NoProfilesToBackUp => "no shell profiles found to back up"@,
        ErrorView::BackupMissing { profile, backup } => "backup for "@ + profile
            + " is missing at "@ + backup,
    }
}

/// `prefix`, then `name` between backquotes, then `suffix`.
fn quote_between(prefix: &str, name: &str, suffix: &str) -> (r: String)
    ensures
        r@ == prefix@ + quoted(name@) + suffix@,
{
    let mut r = String::from_str(prefix);
    r.append("`");
    r.append(name);
    r.append("`");
    r.append(suffix);
    proof {
        reveal_strlit("`");
        assert(r@ =~= prefix@ + quoted(name@) + suffix@);
    }
    r
}

impl HunmingError {
    /// The message that reports the error.
    pub fn message(&self) -> (r: String)
        ensures
            r@ == message_text(self@),
    {
        match self {
            HunmingError::InvalidAliasName { name } => quote_between(
                "invalid alias name ",
                name.as_str(),
                ": must match ^[A-Za-z_][A-Za-z0-9_-]*$",
            ),
            HunmingError::EmptyAlias { name } => quote_between(
                "alias ",
                name.as_str(),
                " must define command, bash, or powershell",
            ),
            HunmingError::EmptyTag { name } => quote_between(
                "alias ",
                name.as_str(),
                " has an empty tag",
            ),
            HunmingError::TagWhitespace { name, tag } => {
                let mut r = quote_between(
                    "alias ",
                    name.as_str(),
                    " has a tag with surrounding whitespace: ",
                );
                let q = quote_between("", tag.as_str(), "");
                r.append(q.as_str());
                proof {
                    reveal_strlit("");
                    assert(r@ =~= message_text(self@));
                }
                r
            },
            HunmingError::DuplicateTag { name, tag } => {
                let mut r = quote_between("alias ", name.as_str(), " has duplicate tag ");
                let q = quote_between("", tag.as_str(), "");
                r.append(q.as_str());
                proof {
                    reveal_strlit("");
                    assert(r@ =~= message_text(self@));
                }
                r
            },
            HunmingError::AliasExists { name } => quote_between(
                "alias ",
                name.as_str(),
                " already exists; use --force to overwrite",
            ),
            HunmingError::AliasMissing { name } => quote_between(
                "alias ",
                name.as_str(),
                " does not exist",
            ),
            HunmingError::DefinedMoreThanOnce { name } => quote_between(
                "alias ",
                name.as_str(),
                " is defined more than once",
            ),
            HunmingError::NoProfilesToBackUp => String::from_str(
                "no shell profiles found to back up",
            ),
            HunmingError::BackupMissing { profile, backup } => {
                let mut r = String::from_str("backup for ");
                r.append(profile.as_str());
                r.append(" is missing at ");
                r.append(backup.as_str());
                proof {
                    assert(r@ =~= message_text(self@));
                }
                r
            },
        }
    }
}

} // verus!
