//! Character-level text helpers: whitespace trimming, substring search,
//! lexicographic order and joining, each specified over `Seq<char>`.
use vstd::prelude::*;

verus! {

/// Unicode `White_Space`, the set that `char::is_whitespace` tests.
pub open spec fn is_ws(c: char) -> bool {
    ||| ('\u{9}' <= c && c <= '\u{d}')
    ||| c == ' '
    ||| c == '\u{85}'
    ||| c == '\u{a0}'
    ||| c == '\u{1680}'
    ||| ('\u{2000}' <= c && c <= '\u{200a}')
    ||| c == '\u{2028}'
    ||| c == '\u{2029}'
    ||| c == '\u{202f}'
    ||| c == '\u{205f}'
    ||| c == '\u{3000}'
}

/// `s` without its leading whitespace.
pub open spec fn trim_start(s: Seq<char>) -> Seq<char>
    decreases s.len(),
{
    if s.len() > 0 && is_ws(s[0]) {
        trim_start(s.drop_first())
    } else {
        s
    }
}

/// `s` without its trailing whitespace.
pub open spec fn trim_end(s: Seq<char>) -> Seq<char>
    decreases s.len(),
{
    if s.len() > 0 && is_ws(s.last()) {
        trim_end(s.drop_last())
    } else {
        s
    }
}

/// `s` without leading and trailing whitespace, as `str::trim` gives it.
pub open spec fn trim(s: Seq<char>) -> Seq<char> {
    trim_end(trim_start(s))
}

/// Every character of `s` is whitespace.
pub open spec fn all_ws(s: Seq<char>) -> bool {
    forall|i: int| 0 <= i < s.len() ==> is_ws(#[trigger] s[i])
}

/// `needle` occurs in `hay` starting at index `i`.
pub open spec fn occurs_at(hay: Seq<char>, needle: Seq<char>, i: int) -> bool {
    0 <= i && i + needle.len() <= hay.len() && hay.subrange(i, i + needle.len()) == needle
}

/// `needle` occurs somewhere in `hay`.
pub open spec fn contains(hay: Seq<char>, needle: Seq<char>) -> bool {
    exists|i: int| occurs_at(hay, needle, i)
}

/// `prefix` is a prefix of `s`.
pub open spec fn starts_with(s: Seq<char>, prefix: Seq<char>) -> bool {
    occurs_at(s, prefix, 0)
}

/// `suffix` is a suffix of `s`.
pub open spec fn ends_with(s: Seq<char>, suffix: Seq<char>) -> bool {
    suffix.len() <= s.len() && occurs_at(s, suffix, s.len() - suffix.len())
}

/// Strict lexicographic order by code point, the order of `str` and `String`.
pub open spec fn seq_lt(a: Seq<char>, b: Seq<char>) -> bool
    decreases a.len(),
{
    if a.len() == 0 {
        b.len() > 0
    } else if b.len() == 0 {
        false
    } else if a[0] != b[0] {
        (a[0] as int) < (b[0] as int)
    } else {
        seq_lt(a.drop_first(), b.drop_first())
    }
}

/// The strings of `parts` with `sep` between each two of them.
pub open spec fn join(parts: Seq<Seq<char>>, sep: Seq<char>) -> Seq<char>
    decreases parts.len(),
{
    if parts.len() == 0 {
        Seq::empty()
    } else if parts.len() == 1 {
        parts[0]
    } else {
        join(parts.drop_last(), sep) + sep + parts.last()
    }
}

/// The views of a vector of strings.
pub open spec fn views(v: Seq<String>) -> Seq<Seq<char>> {
    v.map_values(|s: String| s@)
}

/// `n` spaces.
pub open spec fn spaces(n: nat) -> Seq<char> {
    Seq::new(n, |i: int| ' ')
}

/// `s` followed by spaces up to `width` characters, as `{:<width$}` pads.
pub open spec fn pad_right(s: Seq<char>, width: nat) -> Seq<char> {
    if s.len() >= width {
        s
    } else {
        s + spaces((width - s.len()) as nat)
    }
}

pub proof fn lemma_trim_start_prefix(s: Seq<char>, k: int)
    requires
        0 <= k <= s.len(),
        forall|j: int| 0 <= j < k ==> is_ws(#[trigger] s[j]),
    ensures
        trim_start(s) == trim_start(s.subrange(k, s.len() as int)),
    decreases k,
{
    if k > 0 {
        assert(is_ws(s[0]));
        let t = s.drop_first();
        assert forall|j: int| 0 <= j < k - 1 implies is_ws(#[trigger] t[j]) by {
            assert(is_ws(s[j + 1]));
        }
        lemma_trim_start_prefix(t, k - 1);
        assert(t.subrange(k - 1, t.len() as int) =~= s.subrange(k, s.len() as int));
    } else {
        assert(s.subrange(0, s.len() as int) =~= s);
    }
}

pub proof fn lemma_trim_end_suffix(s: Seq<char>, k: int)
    requires
        0 <= k <= s.len(),
        forall|j: int| k <= j < s.len() ==> is_ws(#[trigger] s[j]),
    ensures
        trim_end(s) == trim_end(s.subrange(0, k)),
    decreases s.len() - k,
{
    if k < s.len() {
        assert(is_ws(s[s.len() - 1]));
        let t = s.drop_last();
        assert forall|j: int| k <= j < t.len() implies is_ws(#[trigger] t[j]) by {
            assert(is_ws(s[j]));
        }
        lemma_trim_end_suffix(t, k);
        assert(t.subrange(0, k) =~= s.subrange(0, k));
    } else {
        assert(s.subrange(0, k) =~= s);
    }
}

/// Trimming removes exactly the maximal whitespace prefix and suffix.
pub proof fn lemma_trim_bounds(s: Seq<char>, a: int, b: int)
    requires
        0 <= a <= b <= s.len(),
        forall|j: int| 0 <= j < a ==> is_ws(#[trigger] s[j]),
        forall|j: int| b <= j < s.len() ==> is_ws(#[trigger] s[j]),
        a < b ==> !is_ws(s[a]) && !is_ws(s[b - 1]),
        a == b ==> b == s.len(),
    ensures
        trim(s) == s.subrange(a, b),
{
    lemma_trim_start_prefix(s, a);
    let t = s.subrange(a, s.len() as int);
    if a < b {
        assert(t[0] == s[a]);
        assert(trim_start(t) == t);
        assert forall|j: int| b - a <= j < t.len() implies is_ws(#[trigger] t[j]) by {
            assert(t[j] == s[j + a]);
        }
        lemma_trim_end_suffix(t, b - a);
        let u = t.subrange(0, b - a);
        assert(u =~= s.subrange(a, b));
        assert(u.last() == s[b - 1]);
        assert(trim_end(u) == u);
    } else {
        assert(t.len() == 0);
        assert(trim_start(t) == t);
        assert(t =~= s.subrange(a, b));
    }
}

/// Trimming leaves nothing exactly when every character is whitespace.
pub proof fn lemma_trim_empty_iff_all_ws(s: Seq<char>)
    ensures
        trim(s).len() == 0 <==> all_ws(s),
    decreases s.len(),
{
    if all_ws(s) {
        lemma_trim_start_prefix(s, s.len() as int);
        let t = s.subrange(s.len() as int, s.len() as int);
        assert(t.len() == 0);
        assert(trim_start(t) == t);
    } else {
        let i = choose|i: int| 0 <= i < s.len() && !is_ws(s[i]);
        lemma_first_non_ws(s, i);
    }
}

proof fn lemma_first_non_ws(s: Seq<char>, i: int)
    requires
        0 <= i < s.len(),
        !is_ws(s[i]),
    ensures
        trim(s).len() > 0,
    decreases i,
{
    if i > 0 && is_ws(s[0]) {
        lemma_first_non_ws(s.drop_first(), i - 1);
        assert(trim(s) == trim(s.drop_first()));
    } else if i > 0 {
        lemma_trim_end_keeps(s, s[0]);
    } else {
        lemma_trim_end_keeps(s, s[0]);
    }
}

proof fn lemma_trim_end_keeps(s: Seq<char>, c: char)
    requires
        s.len() > 0,
        s[0] == c,
        !is_ws(c),
    ensures
        trim(s).len() > 0,
        trim_start(s) == s,
    decreases s.len(),
{
    assert(trim_start(s) == s);
    lemma_trim_end_nonempty(s);
}

proof fn lemma_trim_end_nonempty(s: Seq<char>)
    requires
        s.len() > 0,
        !is_ws(s[0]),
    ensures
        trim_end(s).len() > 0,
    decreases s.len(),
{
    if is_ws(s.last()) {
        assert(s.len() > 1);
        assert(s.drop_last()[0] == s[0]);
        lemma_trim_end_nonempty(s.drop_last());
    }
}

proof fn lemma_trim_start_shape(s: Seq<char>)
    ensures
        trim_start(s).len() == 0 || !is_ws(trim_start(s)[0]),
    decreases s.len(),
{
    if s.len() > 0 && is_ws(s[0]) {
        lemma_trim_start_shape(s.drop_first());
    }
}

proof fn lemma_trim_end_shape(t: Seq<char>)
    ensures
        trim_end(t).len() <= t.len(),
        trim_end(t) == t.subrange(0, trim_end(t).len() as int),
        trim_end(t).len() == 0 || !is_ws(trim_end(t).last()),
    decreases t.len(),
{
    if t.len() > 0 && is_ws(t.last()) {
        lemma_trim_end_shape(t.drop_last());
        assert(t.drop_last().subrange(0, trim_end(t).len() as int) =~= t.subrange(
            0,
            trim_end(t).len() as int,
        ));
    } else {
        assert(t.subrange(0, t.len() as int) =~= t);
    }
}

/// A trimmed string that is not empty begins and ends with a character
/// other than whitespace.
pub proof fn lemma_trim_ends(s: Seq<char>)
    ensures
        trim(s).len() > 0 ==> !is_ws(trim(s)[0]) && !is_ws(trim(s).last()),
        all_ws(trim(s)) <==> trim(s).len() == 0,
{
    lemma_trim_start_shape(s);
    lemma_trim_end_shape(trim_start(s));
    let t = trim_start(s);
    if trim(s).len() > 0 {
        assert(trim(s)[0] == t.subrange(0, trim(s).len() as int)[0]);
        assert(!is_ws(trim(s)[0]));
    }
}

/// Trimming twice is trimming once.
pub proof fn lemma_trim_idempotent(s: Seq<char>)
    ensures
        trim(trim(s)) == trim(s),
{
    lemma_trim_ends(s);
    let t = trim(s);
    if t.len() > 0 {
        lemma_trim_bounds(t, 0, t.len() as int);
    } else {
        lemma_trim_bounds(t, 0, 0);
    }
    assert(t.subrange(0, t.len() as int) =~= t);
}

/// The characters of `s`, one by one.
pub fn chars_of(s: &str) -> (r: Vec<char>)
    ensures
        r@ == s@,
{
    let n = s.unicode_len();
    let mut r: Vec<char> = Vec::new();
    let mut i: usize = 0;
    while i < n
        invariant
            n == s@.len(),
            i <= n,
            r@ == s@.subrange(0, i as int),
        decreases n - i,
    {
        r.push(s.get_char(i));
        i = i + 1;
        assert(r@ =~= s@.subrange(0, i as int));
    }
    assert(r@ =~= s@);
    r
}

/// The trimmed copy of `s`, as `s.trim().to_string()`.
pub fn trim_string(s: &str) -> (r: String)
    ensures
        r@ == trim(s@),
{
    let cs = chars_of(s);
    let n = cs.len();
    let mut a: usize = 0;
    while a < n && is_ws_char(cs[a])
        invariant
            n == cs@.len(),
            cs@ == s@,
            a <= n,
            forall|j: int| 0 <= j < a ==> is_ws(#[trigger] cs@[j]),
        decreases n - a,
    {
        a = a + 1;
    }
    let mut b: usize = n;
    while b > a && is_ws_char(cs[b - 1])
        invariant
            n == cs@.len(),
            cs@ == s@,
            a <= b <= n,
            forall|j: int| b <= j < n ==> is_ws(#[trigger] cs@[j]),
        decreases b,
    {
        b = b - 1;
    }
    proof {
        if a == b && b < n {
            assert(false);
        }
        lemma_trim_bounds(s@, a as int, b as int);
    }
    let t = s.substring_char(a, b);
    String::from_str(t)
}

/// Whether `s` is empty once trimmed, as `s.trim().is_empty()`.
pub fn is_blank(s: &str) -> (r: bool)
    ensures
        r == (trim(s@).len() == 0),
        r == all_ws(s@),
{
    proof {
        lemma_trim_empty_iff_all_ws(s@);
    }
    let n = s.unicode_len();
    let mut i: usize = 0;
    while i < n
        invariant
            n == s@.len(),
            i <= n,
            forall|j: int| 0 <= j < i ==> is_ws(#[trigger] s@[j]),
        decreases n - i,
    {
        let c = s.get_char(i);
        if !is_ws_char(c) {
            assert(!all_ws(s@)) by {
                assert(!is_ws(s@[i as int]));
            }
            proof {
                lemma_trim_empty_iff_all_ws(s@);
            }
            return false;
        }
        i = i + 1;
    }
    true
}

/// `char::is_whitespace`.
pub fn is_ws_char(c: char) -> (r: bool)
    ensures
        r == is_ws(c),
{
    ('\u{9}' <= c && c <= '\u{d}') || c == ' ' || c == '\u{85}' || c == '\u{a0}' || c
        == '\u{1680}' || ('\u{2000}' <= c && c <= '\u{200a}') || c == '\u{2028}' || c
        == '\u{2029}' || c == '\u{202f}' || c == '\u{205f}' || c == '\u{3000}'
}

/// Equal prefixes of length `k` leave the order to the rest.
pub proof fn lemma_lt_skip(a: Seq<char>, b: Seq<char>, k: int)
    requires
        0 <= k <= a.len(),
        k <= b.len(),
        a.subrange(0, k) == b.subrange(0, k),
    ensures
        seq_lt(a, b) == seq_lt(a.skip(k), b.skip(k)),
    decreases k,
{
    if k > 0 {
        assert(a[0] == a.subrange(0, k)[0]);
        assert(b[0] == b.subrange(0, k)[0]);
        assert(a.drop_first().subrange(0, k - 1) =~= a.subrange(0, k).drop_first());
        assert(b.drop_first().subrange(0, k - 1) =~= b.subrange(0, k).drop_first());
        lemma_lt_skip(a.drop_first(), b.drop_first(), k - 1);
        assert(a.drop_first().skip(k - 1) =~= a.skip(k));
        assert(b.drop_first().skip(k - 1) =~= b.skip(k));
    } else {
        assert(a.skip(0) =~= a);
        assert(b.skip(0) =~= b);
    }
}

/// The order is irreflexive.
pub proof fn lemma_lt_irreflexive(a: Seq<char>)
    ensures
        !seq_lt(a, a),
    decreases a.len(),
{
    if a.len() > 0 {
        lemma_lt_irreflexive(a.drop_first());
    }
}

/// The order is transitive.
pub proof fn lemma_lt_transitive(a: Seq<char>, b: Seq<char>, c: Seq<char>)
    requires
        seq_lt(a, b),
        seq_lt(b, c),
    ensures
        seq_lt(a, c),
    decreases a.len(),
{
    if a.len() > 0 && b.len() > 0 && c.len() > 0 {
        if a[0] == b[0] && b[0] == c[0] {
            lemma_lt_transitive(a.drop_first(), b.drop_first(), c.drop_first());
        }
    }
}

/// Two different sequences are ordered one way or the other.
pub proof fn lemma_lt_total(a: Seq<char>, b: Seq<char>)
    ensures
        a == b || seq_lt(a, b) || seq_lt(b, a),
    decreases a.len(),
{
    if a.len() > 0 && b.len() > 0 {
        if a[0] == b[0] {
            lemma_lt_total(a.drop_first(), b.drop_first());
            if a.drop_first() == b.drop_first() {
                assert(a =~= seq![a[0]] + a.drop_first());
                assert(b =~= seq![b[0]] + b.drop_first());
            }
        } else {
            assert((a[0] as int) != (b[0] as int));
        }
    } else if a.len() == 0 && b.len() == 0 {
        assert(a =~= b);
    }
}

/// Whether `a` and `b` hold the same characters.
pub fn chars_eq(a: &Vec<char>, b: &Vec<char>) -> (r: bool)
    ensures
        r == (a@ == b@),
{
    if a.len() != b.len() {
        return false;
    }
    let n = a.len();
    let mut i: usize = 0;
    while i < n
        invariant
            n == a@.len(),
            n == b@.len(),
            i <= n,
            a@.subrange(0, i as int) == b@.subrange(0, i as int),
        decreases n - i,
    {
        if a[i] != b[i] {
            return false;
        }
        assert(a@.subrange(0, i + 1) =~= a@.subrange(0, i as int).push(a@[i as int]));
        assert(b@.subrange(0, i + 1) =~= b@.subrange(0, i as int).push(b@[i as int]));
        i = i + 1;
    }
    assert(a@ =~= a@.subrange(0, n as int));
    assert(b@ =~= b@.subrange(0, n as int));
    true
}

/// Whether `a` comes strictly before `b`.
pub fn chars_lt(a: &Vec<char>, b: &Vec<char>) -> (r: bool)
    ensures
        r == seq_lt(a@, b@),
{
    let na = a.len();
    let nb = b.len();
    let mut i: usize = 0;
    while i < na && i < nb && a[i] == b[i]
        invariant
            na == a@.len(),
            nb == b@.len(),
            i <= na,
            i <= nb,
            a@.subrange(0, i as int) == b@.subrange(0, i as int),
        decreases na - i,
    {
        assert(a@.subrange(0, i + 1) =~= a@.subrange(0, i as int).push(a@[i as int]));
        assert(b@.subrange(0, i + 1) =~= b@.subrange(0, i as int).push(b@[i as int]));
        i = i + 1;
    }
    proof {
        lemma_lt_skip(a@, b@, i as int);
    }
    if i == na {
        i < nb
    } else if i == nb {
        false
    } else {
        assert(a@.skip(i as int)[0] == a@[i as int]);
        assert(b@.skip(i as int)[0] == b@[i as int]);
        a[i] < b[i]
    }
}

/// Whether `a` and `b` are the same string.
pub fn str_eq(a: &str, b: &str) -> (r: bool)
    ensures
        r == (a@ == b@),
{
    chars_eq(&chars_of(a), &chars_of(b))
}

/// Whether `a` comes strictly before `b` in `str` order.
pub fn str_lt(a: &str, b: &str) -> (r: bool)
    ensures
        r == seq_lt(a@, b@),
{
    chars_lt(&chars_of(a), &chars_of(b))
}

/// Joining one more part adds the separator and the part.
pub proof fn lemma_join_push(parts: Seq<Seq<char>>, sep: Seq<char>, x: Seq<char>)
    ensures
        join(parts.push(x), sep) == if parts.len() == 0 {
            x
        } else {
            join(parts, sep) + sep + x
        },
{
    let p = parts.push(x);
    if parts.len() == 0 {
        assert(p.len() == 1);
    } else {
        assert(p.drop_last() =~= parts);
    }
}

/// The strings of `parts` with `sep` between each two, as `parts.join(sep)`.
pub fn join_strings(parts: &Vec<String>, sep: &str) -> (r: String)
    ensures
        r@ == join(views(parts@), sep@),
{
    let mut r = String::new();
    let n = parts.len();
    let mut i: usize = 0;
    while i < n
        invariant
            n == parts@.len(),
            i <= n,
            r@ == join(views(parts@).subrange(0, i as int), sep@),
        decreases n - i,
    {
        proof {
            assert(views(parts@).subrange(0, i + 1) =~= views(parts@).subrange(0, i as int).push(
                parts@[i as int]@,
            ));
            lemma_join_push(views(parts@).subrange(0, i as int), sep@, parts@[i as int]@);
        }
        if i > 0 {
            r.append(sep);
        }
        r.append(parts[i].as_str());
        i = i + 1;
    }
    assert(views(parts@).subrange(0, n as int) =~= views(parts@));
    r
}

/// The first index at or after `from` where `needle` occurs in `hay`.
#[verifier::opaque]
pub open spec fn find_from(hay: Seq<char>, needle: Seq<char>, from: int) -> Option<int> {
    if exists|i: int| from <= i && #[trigger] occurs_at(hay, needle, i) {
        Some(
            choose|i: int|
                from <= i && #[trigger] occurs_at(hay, needle, i) && forall|j: int|
                    from <= j < i ==> !occurs_at(hay, needle, j),
        )
    } else {
        None
    }
}

/// An index found by a left-to-right scan is the one `find_from` names.
pub proof fn lemma_find_from_is(hay: Seq<char>, needle: Seq<char>, from: int, i: int)
    requires
        from <= i,
        occurs_at(hay, needle, i),
        forall|j: int| from <= j < i ==> !occurs_at(hay, needle, j),
    ensures
        find_from(hay, needle, from) == Some(i),
{
    reveal(find_from);
    let k = choose|k: int|
        from <= k && #[trigger] occurs_at(hay, needle, k) && forall|j: int|
            from <= j < k ==> !occurs_at(hay, needle, j);
    assert(from <= k && occurs_at(hay, needle, k) && forall|j: int|
        from <= j < k ==> !occurs_at(hay, needle, j));
    if k < i {
        assert(!occurs_at(hay, needle, k));
    } else if i < k {
        assert(!occurs_at(hay, needle, i));
    }
}

/// What a found index means: the first occurrence at or after `from`.
#[verifier::spinoff_prover]
pub proof fn lemma_find_from_some(hay: Seq<char>, needle: Seq<char>, from: int, i: int)
    requires
        find_from(hay, needle, from) == Some(i),
    ensures
        from <= i,
        occurs_at(hay, needle, i),
        forall|j: int| from <= j < i ==> !#[trigger] occurs_at(hay, needle, j),
{
    reveal(find_from);
    let k = choose|k: int| from <= k && #[trigger] occurs_at(hay, needle, k);
    lemma_first_exists(hay, needle, from, k);
}

proof fn lemma_first_exists(hay: Seq<char>, needle: Seq<char>, from: int, k: int)
    requires
        from <= k,
        occurs_at(hay, needle, k),
    ensures
        exists|i: int|
            from <= i && #[trigger] occurs_at(hay, needle, i) && forall|j: int|
                from <= j < i ==> !occurs_at(hay, needle, j),
    decreases k - from,
{
    if exists|j: int| from <= j < k && #[trigger] occurs_at(hay, needle, j) {
        let j = choose|j: int| from <= j < k && #[trigger] occurs_at(hay, needle, j);
        lemma_first_exists(hay, needle, from, j);
    } else {
        assert(from <= k && occurs_at(hay, needle, k) && forall|j: int|
            from <= j < k ==> !occurs_at(hay, needle, j));
    }
}

/// Whether `needle` occurs in `hay` at index `i`.
pub fn occurs_at_exec(hay: &Vec<char>, needle: &Vec<char>, i: usize) -> (r: bool)
    ensures
        r == occurs_at(hay@, needle@, i as int),
{
    let n = needle.len();
    if i > hay.len() || n > hay.len() - i {
        return false;
    }
    let mut k: usize = 0;
    while k < n
        invariant
            n == needle@.len(),
            i + n <= hay@.len(),
            hay@.len() <= usize::MAX,
            k <= n,
            forall|j: int| 0 <= j < k ==> hay@[i + j] == needle@[j],
        decreases n - k,
    {
        if hay[i + k] != needle[k] {
            assert(hay@.subrange(i as int, i + n)[k as int] != needle@[k as int]);
            return false;
        }
        k = k + 1;
    }
    assert(hay@.subrange(i as int, i + n) =~= needle@);
    true
}

/// The first index at or after `from` where `needle` occurs in `hay`.
pub fn find_chars(hay: &Vec<char>, needle: &Vec<char>, from: usize) -> (r: Option<usize>)
    ensures
        match r {
            Some(i) => find_from(hay@, needle@, from as int) == Some(i as int),
            None => find_from(hay@, needle@, from as int) is None,
        },
{
    let h = hay.len();
    let mut i: usize = from;
    while i < h
        invariant
            h == hay@.len(),
            from <= i,
            forall|j: int| from <= j < i ==> !occurs_at(hay@, needle@, j),
        decreases h - i,
    {
        if occurs_at_exec(hay, needle, i) {
            proof {
                lemma_find_from_is(hay@, needle@, from as int, i as int);
            }
            return Some(i);
        }
        i = i + 1;
    }
    if from <= h && occurs_at_exec(hay, needle, h) {
        proof {
            lemma_find_from_is(hay@, needle@, from as int, h as int);
        }
        return Some(h);
    }
    proof {
        reveal(find_from);
        assert forall|j: int| from <= j implies !#[trigger] occurs_at(hay@, needle@, j) by {
            if j >= h && j >= i {
                if j > h {
                    assert(j + needle@.len() > hay@.len());
                }
            }
        }
    }
    None
}

/// `needle` occurs in `hay` exactly when a search from the start finds it.
pub proof fn lemma_find_from_start(hay: Seq<char>, needle: Seq<char>)
    ensures
        find_from(hay, needle, 0) is Some <==> contains(hay, needle),
{
    reveal(find_from);
    if contains(hay, needle) {
        let i = choose|i: int| occurs_at(hay, needle, i);
        assert(0 <= i && occurs_at(hay, needle, i));
    }
}

/// Whether `needle` occurs in `hay`, as `str::contains`.
pub fn contains_str(hay: &str, needle: &str) -> (r: bool)
    ensures
        r == contains(hay@, needle@),
{
    let h = chars_of(hay);
    let n = chars_of(needle);
    proof {
        lemma_find_from_start(hay@, needle@);
    }
    find_chars(&h, &n, 0).is_some()
}

/// The characters of `v` from `from` up to `to`, as a string.
pub fn range_string(v: &Vec<char>, from: usize, to: usize) -> (r: String)
    requires
        from <= to <= v@.len(),
    ensures
        r@ == v@.subrange(from as int, to as int),
{
    let mut r = String::new();
    let mut i = from;
    while i < to
        invariant
            from <= i <= to <= v@.len(),
            r@ == v@.subrange(from as int, i as int),
        decreases to - i,
    {
        push_char(&mut r, v[i]);
        i = i + 1;
        assert(r@ =~= v@.subrange(from as int, i as int));
    }
    r
}

/// Appends one character by calling std's `String::push`, which vstd gives
/// no contract; the contract here, taken on trust, is what its documentation
/// says: the string afterwards is the old one followed by `c`.
#[verifier::external_body]
pub(crate) fn push_char(s: &mut String, c: char)
    ensures
        final(s)@ == old(s)@.push(c),
{
    s.push(c);
}

/// Whether one of `v` is the string `s`.
pub fn contains_string(v: &Vec<String>, s: &str) -> (r: bool)
    ensures
        r == views(v@).contains(s@),
{
    let n = v.len();
    let mut j: usize = 0;
    while j < n
        invariant
            n == v@.len(),
            j <= n,
            forall|k: int| 0 <= k < j ==> #[trigger] views(v@)[k] != s@,
        decreases n - j,
    {
        if str_eq(v[j].as_str(), s) {
            assert(views(v@)[j as int] == s@);
            return true;
        }
        j = j + 1;
    }
    false
}

/// The decimal digit `d`.
pub open spec fn digit(d: int) -> char {
    if d == 0 {
        '0'
    } else if d == 1 {
        '1'
    } else if d == 2 {
        '2'
    } else if d == 3 {
        '3'
    } else if d == 4 {
        '4'
    } else if d == 5 {
        '5'
    } else if d == 6 {
        '6'
    } else if d == 7 {
        '7'
    } else if d == 8 {
        '8'
    } else {
        '9'
    }
}

/// `n` in decimal, as `n.to_string()` writes it.
pub open spec fn decimal(n: nat) -> Seq<char>
    decreases n,
{
    if n < 10 {
        seq![digit(n as int)]
    } else {
        decimal(n / 10) + seq![digit((n % 10) as int)]
    }
}

fn digit_char(d: usize) -> (r: char)
    requires
        d < 10,
    ensures
        r == digit(d as int),
{
    if d == 0 {
        '0'
    } else if d == 1 {
        '1'
    } else if d == 2 {
        '2'
    } else if d == 3 {
        '3'
    } else if d == 4 {
        '4'
    } else if d == 5 {
        '5'
    } else if d == 6 {
        '6'
    } else if d == 7 {
        '7'
    } else if d == 8 {
        '8'
    } else {
        '9'
    }
}

/// `n` in decimal.
pub fn decimal_string(n: usize) -> (r: String)
    ensures
        r@ == decimal(n as nat),
    decreases n,
{
    if n < 10 {
        let mut r = String::new();
        push_char(&mut r, digit_char(n));
        assert(r@ =~= decimal(n as nat));
        r
    } else {
        let mut r = decimal_string(n / 10);
        push_char(&mut r, digit_char(n % 10));
        r
    }
}

/// The separator of [`split_pieces`]: whitespace, or a semicolon.
pub open spec fn is_sep(on_ws: bool, c: char) -> bool {
    if on_ws {
        is_ws(c)
    } else {
        c == ';'
    }
}

/// Scanning the first `n` characters of `s`: the pieces completed so far,
/// and the piece being read.
pub open spec fn scan_pieces(s: Seq<char>, on_ws: bool, n: int) -> (Seq<Seq<char>>, Seq<char>)
    decreases n,
{
    if n <= 0 {
        (Seq::empty(), Seq::empty())
    } else {
        let (done, cur) = scan_pieces(s, on_ws, n - 1);
        if is_sep(on_ws, s[n - 1]) {
            if cur.len() > 0 {
                (done.push(cur), Seq::empty())
            } else {
                (done, cur)
            }
        } else {
            (done, cur.push(s[n - 1]))
        }
    }
}

/// The non-empty runs of `s` between separators, in order: the words of
/// `str::split_whitespace`, or the non-empty parts of a split on `;`.
pub open spec fn pieces(s: Seq<char>, on_ws: bool) -> Seq<Seq<char>> {
    let (done, cur) = scan_pieces(s, on_ws, s.len() as int);
    if cur.len() > 0 {
        done.push(cur)
    } else {
        done
    }
}

/// The non-empty runs of `s` between whitespace (`on_ws`) or between
/// semicolons.
pub fn split_pieces(s: &str, on_ws: bool) -> (r: Vec<String>)
    ensures
        views(r@) == pieces(s@, on_ws),
{
    let cs = chars_of(s);
    let n = cs.len();
    let mut done: Vec<String> = Vec::new();
    let mut cur = String::new();
    let mut i: usize = 0;
    assert(views(done@) =~= Seq::<Seq<char>>::empty());
    assert(cur@ =~= Seq::<char>::empty());
    while i < n
        invariant
            n == cs@.len(),
            cs@ == s@,
            i <= n,
            (views(done@), cur@) == scan_pieces(s@, on_ws, i as int),
        decreases n - i,
    {
        let c = cs[i];
        let sep = if on_ws {
            is_ws_char(c)
        } else {
            c == ';'
        };
        if sep {
            if cur.unicode_len() > 0 {
                let ghost before = done@;
                done.push(cur);
                cur = String::new();
                assert(views(done@) =~= views(before).push(scan_pieces(s@, on_ws, i as int).1));
                assert(cur@ =~= Seq::<char>::empty());
            }
        } else {
            push_char(&mut cur, c);
        }
        i = i + 1;
    }
    if cur.unicode_len() > 0 {
        let ghost before = done@;
        done.push(cur);
        assert(views(done@) =~= views(before).push(scan_pieces(s@, on_ws, n as int).1));
    }
    done
}

} // verus!
