//! The text that `list` and `show` print about aliases.
use vstd::prelude::*;
use vstd::utf8::encode_utf8;
use crate::error::{ErrorView, HunmingError};
use crate::install::opt_view;
use crate::model::{Alias, Config, Platform, Profile};
use crate::text::{all_ws, join, join_strings, lemma_join_push, pad_right, spaces, views};
use crate::validation::{non_blank, valid_name, validate_alias_name};

verus! {

/// What `format!("{:?}", s)` gives for the string `s`: `s` between double
/// quotes, with the escapes of Rust's `Debug` for `str`.
pub uninterp spec fn debug_quoted(s: Seq<char>) -> Seq<char>;

/// The string quoted as Rust's `Debug` quotes it (std's `Debug for str`,
/// through `format!`), which `show` uses as a TOML string. Taken on trust:
/// the result is named `debug_quoted` of the input and depends on nothing
/// else; which characters are escaped, and how, is left unsaid.
#[verifier::external_body]
fn debug_quote(value: &str) -> (r: String)
    ensures
        r@ == debug_quoted(value@),
{
    format!("{value:?}")
}

/// The lowercase name of a profile.
pub open spec fn profile_name(p: Profile) -> Seq<char> {
    match p {
        Profile::Work => "work"@,
        Profile::Personal => "personal"@,
    }
}

/// The lowercase name of a platform.
pub open spec fn platform_name(p: Platform) -> Seq<char> {
    match p {
        Platform::Windows => "windows"@,
        Platform::Macos => "macos"@,
        Platform::Linux => "linux"@,
    }
}

/// The lowercase name of a profile.
pub fn format_profile(profile: Profile) -> (r: String)
    ensures
        r@ == profile_name(profile),
{
    match profile {
        Profile::Work => String::from_str("work"),
        Profile::Personal => String::from_str("personal"),
    }
}

/// The lowercase name of a platform.
pub fn format_platform(platform: Platform) -> (r: String)
    ensures
        r@ == platform_name(platform),
{
    match platform {
        Platform::Windows => String::from_str("windows"),
        Platform::Macos => String::from_str("macos"),
        Platform::Linux => String::from_str("linux"),
    }
}

/// The tags separated by commas, or `-` when there are none.
pub open spec fn tags_text(tags: Seq<String>) -> Seq<char> {
    if tags.len() == 0 {
        "-"@
    } else {
        join(views(tags), ", "@)
    }
}

/// The tags separated by commas, or `-` when there are none.
pub fn format_tags(tags: &Vec<String>) -> (r: String)
    ensures
        r@ == tags_text(tags@),
{
    if tags.len() == 0 {
        String::from_str("-")
    } else {
        join_strings(tags, ", ")
    }
}

/// The command words separated by spaces, or `-` when there are none.
pub open spec fn command_text(command: Seq<String>) -> Seq<char> {
    if command.len() == 0 {
        "-"@
    } else {
        join(views(command), " "@)
    }
}

/// The command words separated by spaces, or `-` when there are none.
pub fn format_command(command: &Vec<String>) -> (r: String)
    ensures
        r@ == command_text(command@),
{
    if command.len() == 0 {
        String::from_str("-")
    } else {
        join_strings(command, " ")
    }
}

/// The platform names separated by commas, or `all` when there are none.
pub open spec fn platforms_text(platforms: Seq<Platform>) -> Seq<char> {
    if platforms.len() == 0 {
        "all"@
    } else {
        join(platforms.map_values(|p: Platform| platform_name(p)), ", "@)
    }
}

/// The platform names separated by commas, or `all` when there are none.
pub fn format_platforms(platforms: &Vec<Platform>) -> (r: String)
    ensures
        r@ == platforms_text(platforms@),
{
    if platforms.len() == 0 {
        return String::from_str("all");
    }
    let ghost names = platforms@.map_values(|p: Platform| platform_name(p));
    let mut r = String::new();
    let n = platforms.len();
    let mut i: usize = 0;
    while i < n
        invariant
            n == platforms@.len(),
            names == platforms@.map_values(|p: Platform| platform_name(p)),
            i <= n,
            r@ == join(names.subrange(0, i as int), ", "@),
        decreases n - i,
    {
        let name = format_platform(platforms[i]);
        proof {
            assert(names.subrange(0, i + 1) =~= names.subrange(0, i as int).push(names[i as int]));
            lemma_join_push(names.subrange(0, i as int), ", "@, names[i as int]);
        }
        if i > 0 {
            r.append(", ");
        }
        r.append(name.as_str());
        i = i + 1;
    }
    assert(names.subrange(0, n as int) =~= names);
    r
}

/// The value of an optional string, or nothing.
pub open spec fn or_empty(o: Option<String>) -> Seq<char> {
    match o {
        Some(s) => s@,
        None => Seq::empty(),
    }
}

/// `profile: <name> | ` before a detail when the alias has a profile.
pub open spec fn profile_prefix(profile: Option<Profile>) -> Seq<char> {
    match profile {
        Some(p) => "profile: "@ + profile_name(p) + " | "@,
        None => Seq::empty(),
    }
}

/// A detail with the alias's profile in front of it.
pub open spec fn with_profile(detail: Seq<char>, profile: Option<Profile>) -> Seq<char> {
    match profile {
        Some(p) => if detail.len() == 0 {
            "profile: "@ + profile_name(p)
        } else {
            profile_prefix(profile) + detail
        },
        None => detail,
    }
}

/// The kind of an alias in the listing: `shell` with both shell bodies,
/// else `bash` or `powershell` with one, else `command`.
pub open spec fn kind_of(a: Alias) -> Seq<char> {
    if non_blank(a.bash) && non_blank(a.powershell) {
        "shell"@
    } else if non_blank(a.bash) {
        "bash"@
    } else if non_blank(a.powershell) {
        "powershell"@
    } else {
        "command"@
    }
}

/// The detail column of an alias in the listing.
pub open spec fn detail_of(a: Alias) -> Seq<char> {
    if non_blank(a.bash) && non_blank(a.powershell) {
        profile_prefix(a.profile) + "bash: "@ + or_empty(a.bash) + " | powershell: "@ + or_empty(
            a.powershell,
        )
    } else if non_blank(a.bash) {
        with_profile(or_empty(a.bash), a.profile)
    } else if non_blank(a.powershell) {
        with_profile(or_empty(a.powershell), a.profile)
    } else if a.command@.len() > 0 {
        profile_prefix(a.profile) + join(views(a.command@), " "@) + (if a.forward_args {
            Seq::empty()
        } else {
            " (no args)"@
        })
    } else {
        match a.profile {
            Some(p) => "profile: "@ + profile_name(p),
            None => Seq::empty(),
        }
    }
}

fn has_text(o: &Option<String>) -> (r: bool)
    ensures
        r == non_blank(*o),
{
    match o {
        Some(s) => !crate::text::is_blank(s.as_str()),
        None => false,
    }
}

fn value_or_empty(o: &Option<String>) -> (r: String)
    ensures
        r@ == or_empty(*o),
{
    match o {
        Some(s) => s.clone(),
        None => String::new(),
    }
}

fn profile_prefix_string(profile: Option<Profile>) -> (r: String)
    ensures
        r@ == profile_prefix(profile),
{
    match profile {
        Some(p) => {
            let mut r = String::from_str("profile: ");
            let name = format_profile(p);
            r.append(name.as_str());
            r.append(" | ");
            r
        },
        None => String::new(),
    }
}

fn describe_with_profile(detail: String, profile: Option<Profile>) -> (r: String)
    ensures
        r@ == with_profile(detail@, profile),
{
    match profile {
        Some(p) => {
            if detail.as_str().unicode_len() == 0 {
                let mut r = String::from_str("profile: ");
                let name = format_profile(p);
                r.append(name.as_str());
                r
            } else {
                let mut r = profile_prefix_string(profile);
                r.append(detail.as_str());
                r
            }
        },
        None => detail,
    }
}

/// The kind and the detail of an alias, as the listing shows them.
pub fn describe_alias(alias: &Alias) -> (r: (String, String))
    ensures
        r.0@ == kind_of(*alias),
        r.1@ == detail_of(*alias),
{
    let has_bash = has_text(&alias.bash);
    let has_powershell = has_text(&alias.powershell);
    if has_bash && has_powershell {
        let mut detail = profile_prefix_string(alias.profile);
        detail.append("bash: ");
        let b = value_or_empty(&alias.bash);
        detail.append(b.as_str());
        detail.append(" | powershell: ");
        let p = value_or_empty(&alias.powershell);
        detail.append(p.as_str());
        return (String::from_str("shell"), detail);
    }
    if has_bash {
        let d = describe_with_profile(value_or_empty(&alias.bash), alias.profile);
        return (String::from_str("bash"), d);
    }
    if has_powershell {
        let d = describe_with_profile(value_or_empty(&alias.powershell), alias.profile);
        return (String::from_str("powershell"), d);
    }
    if alias.command.len() > 0 {
        let mut detail = profile_prefix_string(alias.profile);
        let words = join_strings(&alias.command, " ");
        detail.append(words.as_str());
        if !alias.forward_args {
            detail.append(" (no args)");
        }
        return (String::from_str("command"), detail);
    }
    let detail = match alias.profile {
        Some(p) => {
            let mut r = String::from_str("profile: ");
            let name = format_profile(p);
            r.append(name.as_str());
            r
        },
        None => String::new(),
    };
    (String::from_str("command"), detail)
}

/// An alias with one shell body is listed by that body: its kind names the
/// shell, and its detail is the body itself, after `profile: <name> | ` when
/// the alias has a profile.
pub proof fn lemma_one_shell_detail(a: Alias)
    ensures
        non_blank(a.bash) && !non_blank(a.powershell) ==> {
            &&& kind_of(a) == "bash"@
            &&& detail_of(a) == match a.profile {
                Some(p) => "profile: "@ + profile_name(p) + " | "@ + a.bash->0@,
                None => a.bash->0@,
            }
        },
        !non_blank(a.bash) && non_blank(a.powershell) ==> {
            &&& kind_of(a) == "powershell"@
            &&& detail_of(a) == match a.profile {
                Some(p) => "profile: "@ + profile_name(p) + " | "@ + a.powershell->0@,
                None => a.powershell->0@,
            }
        },
{
    if non_blank(a.bash) {
        assert(a.bash->0@.len() > 0);
    }
    if non_blank(a.powershell) {
        assert(a.powershell->0@.len() > 0);
    }
}

/// The width of a text in a column: its length in UTF-8 bytes.
pub open spec fn byte_len(s: Seq<char>) -> nat {
    (encode_utf8(s).len() as usize) as nat
}

/// The widest of the first `n` names, in bytes.
pub open spec fn name_width(s: Seq<(String, Alias)>, n: int) -> nat
    decreases n,
{
    if n <= 0 {
        0
    } else {
        let w = name_width(s, n - 1);
        let here = byte_len(s[n - 1].0@);
        if here > w {
            here
        } else {
            w
        }
    }
}

/// The width of the kind column: the longest kind, `powershell`, and a
/// space to spare.
pub open spec fn kind_column() -> nat {
    11
}

/// One line of the listing.
pub open spec fn list_line(name: Seq<char>, a: Alias, nw: nat) -> Seq<char> {
    pad_right(name, nw) + "  "@ + pad_right(kind_of(a), kind_column()) + "  "@ + detail_of(a)
        + "\n"@
}

/// The lines of the first `n` entries.
pub open spec fn list_lines(s: Seq<(String, Alias)>, n: int, nw: nat) -> Seq<char>
    decreases n,
{
    if n <= 0 {
        Seq::empty()
    } else {
        list_lines(s, n - 1, nw) + list_line(s[n - 1].0@, s[n - 1].1, nw)
    }
}

/// The listing: a line per alias in name order, with the name column as
/// wide as the widest name, or a note when there is no alias.
pub open spec fn listing(s: Seq<(String, Alias)>) -> Seq<char> {
    if s.len() == 0 {
        "No aliases configured.\n"@
    } else {
        list_lines(s, s.len() as int, name_width(s, s.len() as int))
    }
}

/// Appends `text` to `out`, then spaces up to `width` characters.
fn append_padded(out: &mut String, text: &str, width: usize)
    ensures
        final(out)@ == old(out)@ + pad_right(text@, width as nat),
{
    let ghost orig = out@;
    out.append(text);
    let n = text.unicode_len();
    if n >= width {
        return;
    }
    let mut i = n;
    while i < width
        invariant
            n == text@.len(),
            n <= i <= width,
            out@ == orig + text@ + spaces((i - n) as nat),
        decreases width - i,
    {
        out.append(" ");
        proof {
            reveal_strlit(" ");
        }
        i = i + 1;
        assert(spaces((i - n) as nat) =~= spaces((i - 1 - n) as nat).push(' '));
    }
}

/// The aliases as a table of name, kind and detail.
pub fn list(config: &Config) -> (r: String)
    requires
        config.wf(),
    ensures
        r@ == listing(config@),
{
    let entries = config.entries();
    let n = entries.len();
    if n == 0 {
        return String::from_str("No aliases configured.\n");
    }
    let mut nw: usize = 0;
    let mut i: usize = 0;
    while i < n
        invariant
            n == config@.len(),
            entries@ == config@,
            i <= n,
            nw == name_width(config@, i as int),
        decreases n - i,
    {
        let a = entries[i].0.as_str().as_bytes().len();
        if a > nw {
            nw = a;
        }
        i = i + 1;
    }
    let mut out = String::new();
    let mut j: usize = 0;
    while j < n
        invariant
            n == config@.len(),
            entries@ == config@,
            j <= n,
            nw == name_width(config@, n as int),
            out@ == list_lines(config@, j as int, nw as nat),
        decreases n - j,
    {
        let (kind, detail) = describe_alias(&entries[j].1);
        let ghost before = out@;
        append_padded(&mut out, entries[j].0.as_str(), nw);
        out.append("  ");
        append_padded(&mut out, kind.as_str(), 11);
        out.append("  ");
        out.append(detail.as_str());
        out.append("\n");
        proof {
            let e = config@[j as int];
            assert(out@ =~= before + list_line(e.0@, e.1, nw as nat));
        }
        j = j + 1;
    }
    out
}

/// The string values of an alias, each quoted for TOML.
pub struct QuotedFields {
    pub description: Option<String>,
    pub command: Vec<String>,
    pub tags: Vec<String>,
    pub bash: Option<String>,
    pub powershell: Option<String>,
}

/// The quoted values as characters.
pub struct QuotedView {
    pub description: Option<Seq<char>>,
    pub command: Seq<Seq<char>>,
    pub tags: Seq<Seq<char>>,
    pub bash: Option<Seq<char>>,
    pub powershell: Option<Seq<char>>,
}

impl View for QuotedFields {
    type V = QuotedView;

    open spec fn view(&self) -> QuotedView {
        QuotedView {
            description: opt_view(self.description),
            command: views(self.command@),
            tags: views(self.tags@),
            bash: opt_view(self.bash),
            powershell: opt_view(self.powershell),
        }
    }
}

/// The value of an optional string, quoted.
pub open spec fn quote_opt(o: Option<String>) -> Option<Seq<char>> {
    match o {
        Some(s) => Some(debug_quoted(s@)),
        None => None,
    }
}

/// Each string, quoted.
pub open spec fn quote_all(values: Seq<String>) -> Seq<Seq<char>> {
    values.map_values(|v: String| debug_quoted(v@))
}

/// The string values of `a`, quoted as `show` prints them.
pub open spec fn quote_view(a: Alias) -> QuotedView {
    QuotedView {
        description: quote_opt(a.description),
        command: quote_all(a.command@),
        tags: quote_all(a.tags@),
        bash: quote_opt(a.bash),
        powershell: quote_opt(a.powershell),
    }
}

fn quote_optional(o: &Option<String>) -> (r: Option<String>)
    ensures
        opt_view(r) == quote_opt(*o),
{
    match o {
        Some(s) => Some(debug_quote(s.as_str())),
        None => None,
    }
}

fn quote_each(values: &Vec<String>) -> (r: Vec<String>)
    ensures
        views(r@) == quote_all(values@),
{
    let mut r: Vec<String> = Vec::new();
    let n = values.len();
    let mut i: usize = 0;
    while i < n
        invariant
            n == values@.len(),
            i <= n,
            views(r@) == quote_all(values@.subrange(0, i as int)),
        decreases n - i,
    {
        let ghost before = r@;
        let q = debug_quote(values[i].as_str());
        r.push(q);
        assert(views(r@) =~= views(before).push(debug_quoted(values@[i as int]@)));
        assert(quote_all(values@.subrange(0, i + 1)) =~= quote_all(values@.subrange(0, i as int)).push(
            debug_quoted(values@[i as int]@),
        ));
        i = i + 1;
    }
    assert(values@.subrange(0, n as int) =~= values@);
    r
}

/// The string values of an alias, quoted as `show` prints them.
pub fn quote_fields(alias: &Alias) -> (r: QuotedFields)
    ensures
        r@ == quote_view(*alias),
{
    QuotedFields {
        description: quote_optional(&alias.description),
        command: quote_each(&alias.command),
        tags: quote_each(&alias.tags),
        bash: quote_optional(&alias.bash),
        powershell: quote_optional(&alias.powershell),
    }
}

/// A TOML array of already quoted items.
pub open spec fn list_text(items: Seq<Seq<char>>) -> Seq<char> {
    "["@ + join(items, ", "@) + "]"@
}

fn list_string(items: &Vec<String>) -> (r: String)
    ensures
        r@ == list_text(views(items@)),
{
    let mut r = String::from_str("[");
    r.append(join_strings(items, ", ").as_str());
    r.append("]");
    r
}

/// A TOML array of quoted platform names.
pub open spec fn platform_list(platforms: Seq<Platform>) -> Seq<char> {
    "["@ + join(
        platforms.map_values(|p: Platform| seq!['"'] + platform_name(p) + seq!['"']),
        ", "@,
    ) + "]"@
}

/// The platforms line lists every platform in order: no platform gives
/// `[]`, and one more platform adds its quoted name after the others,
/// separated by `, `.
pub proof fn lemma_platform_list_grows(ps: Seq<Platform>, p: Platform)
    ensures
        platform_list(Seq::empty()) == "[]"@,
        platform_list(ps.push(p)) == if ps.len() == 0 {
            "[\""@ + platform_name(p) + "\"]"@
        } else {
            platform_list(ps).drop_last() + ", \""@ + platform_name(p) + "\"]"@
        },
{
    reveal_strlit("[]");
    reveal_strlit("[");
    reveal_strlit("]");
    reveal_strlit("[\"");
    reveal_strlit("\"]");
    reveal_strlit(", \"");
    reveal_strlit(", ");
    let f = |q: Platform| seq!['"'] + platform_name(q) + seq!['"'];
    assert(Seq::<Platform>::empty().map_values(f) =~= Seq::<Seq<char>>::empty());
    assert(platform_list(Seq::empty()) =~= "[]"@);
    let m = ps.map_values(f);
    assert(ps.push(p).map_values(f) =~= m.push(f(p)));
    lemma_join_push(m, ", "@, f(p));
    if ps.len() == 0 {
        assert(platform_list(ps.push(p)) =~= "[\""@ + platform_name(p) + "\"]"@);
    } else {
        let body = join(m, ", "@);
        assert(platform_list(ps) == "["@ + body + "]"@);
        assert(platform_list(ps).drop_last() =~= "["@ + body);
        assert(platform_list(ps.push(p)) =~= platform_list(ps).drop_last() + ", \""@
            + platform_name(p) + "\"]"@);
    }
}

fn toml_platforms(platforms: &Vec<Platform>) -> (r: String)
    ensures
        r@ == platform_list(platforms@),
{
    let ghost items = platforms@.map_values(|p: Platform| seq!['"'] + platform_name(p) + seq!['"']);
    let mut inner = String::new();
    let n = platforms.len();
    let mut i: usize = 0;
    while i < n
        invariant
            n == platforms@.len(),
            items == platforms@.map_values(|p: Platform| seq!['"'] + platform_name(p) + seq!['"']),
            i <= n,
            inner@ == join(items.subrange(0, i as int), ", "@),
        decreases n - i,
    {
        let mut q = String::from_str("\"");
        let name = format_platform(platforms[i]);
        q.append(name.as_str());
        q.append("\"");
        proof {
            reveal_strlit("\"");
            assert(q@ =~= items[i as int]);
            assert(items.subrange(0, i + 1) =~= items.subrange(0, i as int).push(items[i as int]));
            lemma_join_push(items.subrange(0, i as int), ", "@, items[i as int]);
        }
        if i > 0 {
            inner.append(", ");
        }
        inner.append(q.as_str());
        i = i + 1;
    }
    assert(items.subrange(0, n as int) =~= items);
    let mut r = String::from_str("[");
    r.append(inner.as_str());
    r.append("]");
    r
}

/// `key = value` and a line break when `present`, else nothing.
pub open spec fn field_line(present: bool, key: Seq<char>, value: Seq<char>) -> Seq<char> {
    if present {
        key + " = "@ + value + "\n"@
    } else {
        Seq::empty()
    }
}

/// `key = value` and a line break for a present value, else nothing.
pub open spec fn opt_line(key: Seq<char>, value: Option<Seq<char>>) -> Seq<char> {
    match value {
        Some(v) => field_line(true, key, v),
        None => Seq::empty(),
    }
}

/// The definition of alias `name` as a TOML table, with the fields that
/// differ from their defaults, given its string values already quoted.
pub open spec fn definition_with(name: Seq<char>, a: Alias, q: QuotedView) -> Seq<char> {
    "[aliases."@ + name + "]\n"@ + opt_line("description"@, q.description) + field_line(
        q.command.len() > 0,
        "command"@,
        list_text(q.command),
    ) + field_line(q.tags.len() > 0, "tags"@, list_text(q.tags)) + opt_line("bash"@, q.bash)
        + opt_line("powershell"@, q.powershell) + field_line(
        !a.forward_args,
        "forward_args"@,
        "false"@,
    ) + field_line(a.profile is Some, "profile"@, profile_value(a.profile)) + field_line(
        a.platforms@.len() > 0,
        "platforms"@,
        platform_list(a.platforms@),
    )
}

/// The definition of alias `name` as a TOML table, with the fields that
/// differ from their defaults.
pub open spec fn definition(name: Seq<char>, a: Alias) -> Seq<char> {
    definition_with(name, a, quote_view(a))
}

fn push_field(out: &mut String, key: &str, value: &str)
    ensures
        final(out)@ == old(out)@ + field_line(true, key@, value@),
{
    out.append(key);
    out.append(" = ");
    out.append(value);
    out.append("\n");
}

fn push_optional(out: &mut String, key: &str, value: &Option<String>)
    ensures
        final(out)@ == old(out)@ + opt_line(key@, opt_view(*value)),
{
    if let Some(v) = value {
        push_field(out, key, v.as_str());
    } else {
        assert(out@ =~= out@ + Seq::<char>::empty());
    }
}

fn push_list(out: &mut String, key: &str, items: &Vec<String>)
    ensures
        final(out)@ == old(out)@ + field_line(items@.len() > 0, key@, list_text(views(items@))),
{
    if items.len() > 0 {
        let q = list_string(items);
        push_field(out, key, q.as_str());
    } else {
        assert(out@ =~= out@ + Seq::<char>::empty());
    }
}

/// The quoted profile name, or nothing.
pub open spec fn profile_value(profile: Option<Profile>) -> Seq<char> {
    match profile {
        Some(p) => seq!['"'] + profile_name(p) + seq!['"'],
        None => Seq::empty(),
    }
}

fn push_profile(out: &mut String, profile: Option<Profile>)
    ensures
        final(out)@ == old(out)@ + field_line(profile is Some, "profile"@, profile_value(profile)),
{
    if let Some(p) = profile {
        let mut q = String::from_str("\"");
        let name = format_profile(p);
        q.append(name.as_str());
        q.append("\"");
        proof {
            reveal_strlit("\"");
            assert(q@ =~= profile_value(profile));
        }
        push_field(out, "profile", q.as_str());
    } else {
        assert(out@ =~= out@ + Seq::<char>::empty());
    }
}

fn push_platforms(out: &mut String, platforms: &Vec<Platform>)
    ensures
        final(out)@ == old(out)@ + field_line(
            platforms@.len() > 0,
            "platforms"@,
            platform_list(platforms@),
        ),
{
    if platforms.len() > 0 {
        let q = toml_platforms(platforms);
        push_field(out, "platforms", q.as_str());
    } else {
        assert(out@ =~= out@ + Seq::<char>::empty());
    }
}

fn push_forward_args(out: &mut String, forward_args: bool)
    ensures
        final(out)@ == old(out)@ + field_line(!forward_args, "forward_args"@, "false"@),
{
    if !forward_args {
        push_field(out, "forward_args", "false");
    } else {
        assert(out@ =~= out@ + Seq::<char>::empty());
    }
}

/// The definition of alias `name` as a TOML table, from its string values
/// already quoted.
pub fn assemble_definition(name: &str, alias: &Alias, quoted: &QuotedFields) -> (r: String)
    ensures
        r@ == definition_with(name@, *alias, quoted@),
{
    let mut out = String::from_str("[aliases.");
    out.append(name);
    out.append("]\n");
    push_optional(&mut out, "description", &quoted.description);
    push_list(&mut out, "command", &quoted.command);
    push_list(&mut out, "tags", &quoted.tags);
    push_optional(&mut out, "bash", &quoted.bash);
    push_optional(&mut out, "powershell", &quoted.powershell);
    push_forward_args(&mut out, alias.forward_args);
    push_profile(&mut out, alias.profile);
    push_platforms(&mut out, &alias.platforms);
    proof {
        assert(out@ =~= definition_with(name@, *alias, quoted@));
    }
    out
}

/// The definition of alias `name` as a TOML table.
pub fn render_alias_definition(name: &str, alias: &Alias) -> (r: String)
    ensures
        r@ == definition(name@, *alias),
{
    let quoted = quote_fields(alias);
    assemble_definition(name, alias, &quoted)
}

/// The definition of the alias named `name`; refuses an invalid name and a
/// name that no alias has.
pub fn show(config: &Config, name: &str) -> (r: Result<String, HunmingError>)
    requires
        config.wf(),
    ensures
        !valid_name(name@) ==> (r matches Err(e) && e@ == (ErrorView::InvalidAliasName {
            name: name@,
        })),
        valid_name(name@) && !config.to_map().contains_key(name@) ==> (r matches Err(e) && e@
            == (ErrorView::AliasMissing { name: name@ })),
        valid_name(name@) && config.to_map().contains_key(name@) ==> (r matches Ok(text)
            && text@ == definition(name@, config.to_map()[name@])),
{
    validate_alias_name(name)?;
    match config.get(name) {
        Some(alias) => Ok(render_alias_definition(name, alias)),
        None => Err(HunmingError::AliasMissing { name: String::from_str(name) }),
    }
}

} // verus!
