//! The managed block that a shell profile sources the generated script
//! through, and its insertion into a profile's existing content.
use vstd::prelude::*;
use crate::text::{chars_of, ends_with, find_chars, find_from, occurs_at, occurs_at_exec, range_string, starts_with};

verus! {

/// The line that opens the managed block.
pub const MANAGED_BLOCK_START: &'static str = "# >>> hunming init >>>";

/// The line that closes the managed block.
pub const MANAGED_BLOCK_END: &'static str = "# <<< hunming init <<<";

/// The opening marker as characters.
pub open spec fn start_marker() -> Seq<char> {
    MANAGED_BLOCK_START@
}

/// The closing marker as characters.
pub open spec fn end_marker() -> Seq<char> {
    MANAGED_BLOCK_END@
}

/// The block that sources the Bash or Zsh script at `path`.
pub open spec fn bash_block(path: Seq<char>) -> Seq<char> {
    start_marker() + "\nif [ -f \""@ + path + "\" ]; then\n  . \""@ + path + "\"\nfi\n"@
        + end_marker() + "\n"@
}

/// The block that sources the PowerShell script at `path`.
pub open spec fn powershell_block(path: Seq<char>) -> Seq<char> {
    start_marker() + "\n$hunmingProfile = \""@ + path
        + "\"\nif (Test-Path $hunmingProfile) {\n    . $hunmingProfile\n}\n"@ + end_marker()
        + "\n"@
}

/// Where the existing managed block of `c` starts and ends: from the first
/// opening marker through the first closing marker after it, with the line
/// break that follows the closing marker.
pub open spec fn block_range(c: Seq<char>) -> Option<(int, int)> {
    match find_from(c, start_marker(), 0) {
        None => None,
        Some(s) => match find_from(c, end_marker(), s) {
            None => None,
            Some(m) => {
                let e = m + end_marker().len();
                Some(
                    (
                        s,
                        if occurs_at(c, "\r\n"@, e) {
                            e + 2
                        } else if occurs_at(c, "\n"@, e) {
                            e + 1
                        } else {
                            e
                        },
                    ),
                )
            },
        },
    }
}

/// `c` ending with a blank line, as the block is appended after it.
pub open spec fn with_blank_line(c: Seq<char>) -> Seq<char> {
    let one = if ends_with(c, "\n"@) {
        c
    } else {
        c.push('\n')
    };
    if ends_with(one, "\n\n"@) {
        one
    } else {
        one.push('\n')
    }
}

/// The content with `block` in place of its managed block, or with `block`
/// appended after a blank line when it has none.
pub open spec fn inserted(existing: Seq<char>, block: Seq<char>) -> Seq<char> {
    match block_range(existing) {
        Some((s, e)) => existing.subrange(0, s) + block + existing.subrange(e, existing.len() as int),
        None => if existing.len() == 0 {
            block
        } else {
            with_blank_line(existing) + block
        },
    }
}

/// The managed block that sources the Bash or Zsh script at `script_path`.
pub fn bash_managed_block(script_path: &str) -> (r: String)
    ensures
        r@ == bash_block(script_path@),
{
    let mut r = String::from_str(MANAGED_BLOCK_START);
    r.append("\nif [ -f \"");
    r.append(script_path);
    r.append("\" ]; then\n  . \"");
    r.append(script_path);
    r.append("\"\nfi\n");
    r.append(MANAGED_BLOCK_END);
    r.append("\n");
    proof {
        assert(r@ =~= bash_block(script_path@));
    }
    r
}

/// The managed block that sources the PowerShell script at `script_path`.
pub fn powershell_managed_block(script_path: &str) -> (r: String)
    ensures
        r@ == powershell_block(script_path@),
{
    let mut r = String::from_str(MANAGED_BLOCK_START);
    r.append("\n$hunmingProfile = \"");
    r.append(script_path);
    r.append("\"\nif (Test-Path $hunmingProfile) {\n    . $hunmingProfile\n}\n");
    r.append(MANAGED_BLOCK_END);
    r.append("\n");
    proof {
        assert(r@ =~= powershell_block(script_path@));
    }
    r
}

/// Where the managed block of `content` starts and ends, if it has one.
fn managed_block_range(content: &Vec<char>) -> (r: Option<(usize, usize)>)
    ensures
        match r {
            Some((s, e)) => block_range(content@) == Some((s as int, e as int)) && s <= e
                <= content@.len(),
            None => block_range(content@) is None,
        },
{
    let start = chars_of(MANAGED_BLOCK_START);
    let end = chars_of(MANAGED_BLOCK_END);
    let s = match find_chars(content, &start, 0) {
        Some(s) => s,
        None => return None,
    };
    let m = match find_chars(content, &end, s) {
        Some(m) => m,
        None => return None,
    };
    proof {
        crate::text::lemma_find_from_some(content@, end@, s as int, m as int);
        crate::text::lemma_find_from_some(content@, start@, 0, s as int);
    }
    let clen = content.len();
    assert(end@ == end_marker());
    let e = m + end.len();
    let crlf = chars_of("\r\n");
    let lf = chars_of("\n");
    proof {
        reveal_strlit("\r\n");
        reveal_strlit("\n");
    }
    if occurs_at_exec(content, &crlf, e) {
        Some((s, e + 2))
    } else if occurs_at_exec(content, &lf, e) {
        Some((s, e + 1))
    } else {
        Some((s, e))
    }
}

/// Whether `s` ends with `suffix`, as `str::ends_with`.
fn ends_with_str(s: &String, suffix: &str) -> (r: bool)
    ensures
        r == ends_with(s@, suffix@),
{
    let cs = chars_of(s.as_str());
    let xs = chars_of(suffix);
    if xs.len() > cs.len() {
        return false;
    }
    occurs_at_exec(&cs, &xs, cs.len() - xs.len())
}

/// `existing` with `block` in place of its managed block; with no managed
/// block, `block` itself for empty content, else the content, a blank line
/// and `block`.
pub fn insert_managed_block(existing: &str, block: &str) -> (r: String)
    ensures
        r@ == inserted(existing@, block@),
{
    let content = chars_of(existing);
    match managed_block_range(&content) {
        Some((s, e)) => {
            let mut out = range_string(&content, 0, s);
            out.append(block);
            let tail = range_string(&content, e, content.len());
            out.append(tail.as_str());
            return out;
        },
        None => {},
    }
    if content.len() == 0 {
        return String::from_str(block);
    }
    let mut out = String::from_str(existing);
    if !ends_with_str(&out, "\n") {
        crate::text::push_char(&mut out, '\n');
    }
    if !ends_with_str(&out, "\n\n") {
        crate::text::push_char(&mut out, '\n');
    }
    proof {
        reveal_strlit("\n");
    }
    out.append(block);
    out
}

/// The new content of a profile, or nothing when inserting the block leaves
/// the content as it is (the profile is then neither backed up nor
/// written).
pub fn profile_update(existing: &str, block: &str) -> (r: Option<String>)
    ensures
        r is None <==> inserted(existing@, block@) == existing@,
        r matches Some(u) ==> u@ == inserted(existing@, block@),
{
    let updated = insert_managed_block(existing, block);
    if crate::text::str_eq(updated.as_str(), existing) {
        None
    } else {
        Some(updated)
    }
}

/// Inserting a block never touches what the user wrote: without a managed
/// block the content is kept in front and the block comes last; with one,
/// the text before and after it is kept around the new block.
pub proof fn lemma_insert_keeps_user_content(existing: Seq<char>, block: Seq<char>)
    ensures
        block_range(existing) is None ==> starts_with(inserted(existing, block), existing)
            && ends_with(inserted(existing, block), block),
        block_range(existing) matches Some((s, e)) ==> {
            &&& starts_with(inserted(existing, block), existing.subrange(0, s))
            &&& ends_with(inserted(existing, block), existing.subrange(e, existing.len() as int))
            &&& occurs_at(inserted(existing, block), block, s)
        },
{
    let r = inserted(existing, block);
    match block_range(existing) {
        None => {
            if existing.len() > 0 {
                let w = with_blank_line(existing);
                assert(w.subrange(0, existing.len() as int) =~= existing);
                assert(r.subrange(0, existing.len() as int) =~= existing);
                assert(r.subrange(r.len() - block.len(), r.len() as int) =~= block);
            } else {
                assert(r.subrange(0, 0) =~= existing);
                assert(r.subrange(r.len() - block.len(), r.len() as int) =~= block);
            }
        },
        Some((s, e)) => {
            let sm = find_from(existing, start_marker(), 0)->0;
            crate::text::lemma_find_from_some(existing, start_marker(), 0, sm);
            let m = find_from(existing, end_marker(), sm)->0;
            crate::text::lemma_find_from_some(existing, end_marker(), sm, m);
            reveal_strlit("\r\n");
            reveal_strlit("\n");
            assert(0 <= s <= e <= existing.len());
            let pre = existing.subrange(0, s);
            let post = existing.subrange(e, existing.len() as int);
            assert(r == pre + block + post);
            assert(r.subrange(0, s) =~= pre);
            assert(r.subrange(s, s + block.len()) =~= block);
            assert(r.subrange(r.len() - post.len(), r.len() as int) =~= post);
        },
    }
}

/// A managed block: the opening marker, then lines in which the closing
/// marker does not occur, then the closing marker and a line break.
pub open spec fn is_managed_block(b: Seq<char>) -> bool {
    let n = start_marker().len();
    let m = end_marker().len();
    &&& b.len() >= n + m + 1
    &&& b.subrange(0, n as int) == start_marker()
    &&& b.subrange(b.len() - m - 1, b.len() - 1) == end_marker()
    &&& b.last() == '\n'
    &&& forall|j: int| 0 <= j < b.len() - m - 1 ==> !#[trigger] occurs_at(b, end_marker(), j)
}

/// The facts about the two markers that the proofs use: both are 22
/// characters long, begin with their only `#`, differ, and hold no line
/// break.
pub proof fn lemma_markers()
    ensures
        start_marker().len() == 22,
        end_marker().len() == 22,
        start_marker()[0] == '#',
        end_marker()[0] == '#',
        forall|i: int| 0 < i < 22 ==> #[trigger] start_marker()[i] != '#',
        forall|i: int| 0 < i < 22 ==> #[trigger] end_marker()[i] != '#',
        forall|i: int| 0 <= i < 22 ==> #[trigger] start_marker()[i] != '\n',
        forall|i: int| 0 <= i < 22 ==> #[trigger] end_marker()[i] != '"',
        start_marker()[2] != end_marker()[2],
{
    reveal_strlit("# >>> hunming init >>>");
    reveal_strlit("# <<< hunming init <<<");
    assert(start_marker() =~= seq![
        '#', ' ', '>', '>', '>', ' ', 'h', 'u', 'n', 'm', 'i', 'n', 'g', ' ', 'i', 'n', 'i', 't',
        ' ', '>', '>', '>',
    ]);
    assert(end_marker() =~= seq![
        '#', ' ', '<', '<', '<', ' ', 'h', 'u', 'n', 'm', 'i', 'n', 'g', ' ', 'i', 'n', 'i', 't',
        ' ', '<', '<', '<',
    ]);
}

/// A managed block placed after content without an opening marker is the
/// block that is found again.
pub proof fn lemma_range_of_placed_block(p: Seq<char>, b: Seq<char>, t: Seq<char>)
    requires
        is_managed_block(b),
        forall|j: int| !#[trigger] occurs_at(p, start_marker(), j),
    ensures
        block_range(p + b + t) == Some((p.len() as int, (p.len() + b.len()) as int)),
{
    lemma_markers();
    let r = p + b + t;
    let st = start_marker();
    let en = end_marker();
    let s = p.len() as int;
    // The opening marker is found where the block starts.
    assert(r.subrange(s, s + 22) =~= b.subrange(0, 22));
    assert(occurs_at(r, st, s));
    assert forall|j: int| 0 <= j < s implies !#[trigger] occurs_at(r, st, j) by {
        if occurs_at(r, st, j) {
            if j + 22 <= s {
                assert(p.subrange(j, j + 22) =~= r.subrange(j, j + 22));
                assert(occurs_at(p, st, j));
            } else {
                let k = s - j;
                assert(r.subrange(j, j + 22)[k] == r[s]);
                assert(r[s] == b[0]);
                assert(b[0] == b.subrange(0, 22)[0]);
                assert(st[k] != '#');
            }
        }
    }
    crate::text::lemma_find_from_is(r, st, 0, s);
    // The closing marker is found at the end of the block.
    let m = s + b.len() - 23;
    assert(r.subrange(m, m + 22) =~= b.subrange(b.len() - 23, b.len() - 1));
    assert(occurs_at(r, en, m));
    assert forall|j: int| s <= j < m implies !#[trigger] occurs_at(r, en, j) by {
        if occurs_at(r, en, j) {
            assert(b.subrange(j - s, j - s + 22) =~= r.subrange(j, j + 22));
            assert(occurs_at(b, en, j - s));
        }
    }
    crate::text::lemma_find_from_is(r, en, s, m);
    // The line break after the closing marker is taken with the block.
    let e = m + 22;
    reveal_strlit("\r\n");
    reveal_strlit("\n");
    assert(r[e] == b.last());
    if occurs_at(r, "\r\n"@, e) {
        assert(r.subrange(e, e + 2)[0] == r[e]);
    }
    assert(r.subrange(e, e + 1) =~= "\n"@);
}

/// Inserting a managed block a second time changes nothing, provided the
/// content had no opening marker or a complete managed block.
pub proof fn lemma_insert_idempotent(existing: Seq<char>, b: Seq<char>)
    requires
        is_managed_block(b),
        block_range(existing) is Some || !crate::text::contains(existing, start_marker()),
    ensures
        inserted(inserted(existing, b), b) == inserted(existing, b),
{
    lemma_markers();
    let once = inserted(existing, b);
    match block_range(existing) {
        Some((s, e)) => {
            let p = existing.subrange(0, s);
            let t = existing.subrange(e, existing.len() as int);
            crate::text::lemma_find_from_some(existing, start_marker(), 0, s);
            assert forall|j: int| !#[trigger] occurs_at(p, start_marker(), j) by {
                if occurs_at(p, start_marker(), j) {
                    assert(existing.subrange(j, j + 22) =~= p.subrange(j, j + 22));
                    assert(occurs_at(existing, start_marker(), j));
                }
            }
            lemma_range_of_placed_block(p, b, t);
            assert(once.subrange(0, s) =~= p);
            assert(once.subrange(s + b.len(), once.len() as int) =~= t);
        },
        None => {
            if existing.len() == 0 {
                let e: Seq<char> = Seq::empty();
                assert(forall|j: int| !#[trigger] occurs_at(e, start_marker(), j));
                lemma_range_of_placed_block(e, b, e);
                assert(e + b + e =~= b);
                assert(b.subrange(0, 0) + b + b.subrange(b.len() as int, b.len() as int) =~= b);
            } else {
                let w = with_blank_line(existing);
                reveal_strlit("\n");
                reveal_strlit("\n\n");
                assert forall|k: int| existing.len() <= k < w.len() implies #[trigger] w[k] == '\n' by {
                }
                assert forall|k: int| 0 <= k < existing.len() implies #[trigger] w[k] == existing[k] by {
                }
                assert forall|j: int| !#[trigger] occurs_at(w, start_marker(), j) by {
                    if occurs_at(w, start_marker(), j) {
                        if j + 22 <= existing.len() {
                            assert(existing.subrange(j, j + 22) =~= w.subrange(j, j + 22));
                            assert(occurs_at(existing, start_marker(), j));
                        } else {
                            let k = existing.len() - j;
                            assert(w.subrange(j, j + 22)[k] == w[j + k]);
                        }
                    }
                }
                let e: Seq<char> = Seq::empty();
                lemma_range_of_placed_block(w, b, e);
                assert(w + b + e =~= once);
                assert(once.subrange(0, w.len() as int) =~= w);
                assert(once.subrange((w.len() + b.len()) as int, once.len() as int) =~= e);
            }
        },
    }
}

/// `s` holds no `#`.
pub open spec fn hash_free(s: Seq<char>) -> bool {
    forall|i: int| 0 <= i < s.len() ==> #[trigger] s[i] != '#'
}

/// The closing marker does not start inside a piece of `b` that holds no
/// `#`.
proof fn lemma_no_end_in_hash_free(b: Seq<char>, o: int, piece: Seq<char>)
    requires
        0 <= o,
        o + piece.len() <= b.len(),
        b.subrange(o, o + piece.len()) == piece,
        hash_free(piece),
    ensures
        forall|j: int| o <= j < o + piece.len() ==> !#[trigger] occurs_at(b, end_marker(), j),
{
    lemma_markers();
    assert forall|j: int| o <= j < o + piece.len() implies !#[trigger] occurs_at(
        b,
        end_marker(),
        j,
    ) by {
        if occurs_at(b, end_marker(), j) {
            assert(b.subrange(j, j + 22)[0] == b[j]);
            assert(b[j] == piece[j - o]);
        }
    }
}

/// The closing marker does not start inside a piece of `b` that does not
/// hold it and is followed by a double quote.
proof fn lemma_no_end_in_quoted(b: Seq<char>, o: int, piece: Seq<char>)
    requires
        0 <= o,
        o + piece.len() < b.len(),
        b.subrange(o, o + piece.len()) == piece,
        b[o + piece.len()] == '"',
        !crate::text::contains(piece, end_marker()),
    ensures
        forall|j: int| o <= j < o + piece.len() ==> !#[trigger] occurs_at(b, end_marker(), j),
{
    lemma_markers();
    assert forall|j: int| o <= j < o + piece.len() implies !#[trigger] occurs_at(
        b,
        end_marker(),
        j,
    ) by {
        if occurs_at(b, end_marker(), j) {
            if j + 22 <= o + piece.len() {
                assert(piece.subrange(j - o, j - o + 22) =~= b.subrange(j, j + 22));
                assert(occurs_at(piece, end_marker(), j - o));
            } else {
                let k = o + piece.len() - j;
                assert(b.subrange(j, j + 22)[k] == b[o + piece.len()]);
            }
        }
    }
}

/// A block of the markers around lines in which the closing marker does not
/// start is a managed block.
proof fn lemma_block_shape(mid: Seq<char>)
    requires
        forall|j: int|
            22 <= j < 22 + mid.len() ==> !#[trigger] occurs_at(
                start_marker() + mid + end_marker() + "\n"@,
                end_marker(),
                j,
            ),
    ensures
        is_managed_block(start_marker() + mid + end_marker() + "\n"@),
{
    lemma_markers();
    reveal_strlit("\n");
    let b = start_marker() + mid + end_marker() + "\n"@;
    assert(b.subrange(0, 22) =~= start_marker());
    assert(b.subrange(b.len() - 23, b.len() - 1) =~= end_marker());
    assert forall|j: int| 0 <= j < b.len() - 23 implies !#[trigger] occurs_at(b, end_marker(), j) by {
        if j < 22 && occurs_at(b, end_marker(), j) {
            assert(b.subrange(j, j + 22)[0] == b[j]);
            assert(b[j] == start_marker()[j]);
            if j == 0 {
                assert(b.subrange(j, j + 22)[2] == b[2]);
                assert(b[2] == start_marker()[2]);
            }
        }
    }
}

/// For a script path in which the closing marker does not occur, the Bash
/// and the PowerShell blocks are managed blocks, so inserting either twice
/// changes nothing.
pub proof fn lemma_blocks_are_managed(path: Seq<char>)
    requires
        !crate::text::contains(path, end_marker()),
    ensures
        is_managed_block(bash_block(path)),
        is_managed_block(powershell_block(path)),
{
    lemma_markers();
    reveal_strlit("\n");
    reveal_strlit("\nif [ -f \"");
    reveal_strlit("\" ]; then\n  . \"");
    reveal_strlit("\"\nfi\n");
    reveal_strlit("\n$hunmingProfile = \"");
    reveal_strlit("\"\nif (Test-Path $hunmingProfile) {\n    . $hunmingProfile\n}\n");
    let st = start_marker();
    let en = end_marker();
    let nl = "\n"@;
    let a1 = "\nif [ -f \""@;
    let a2 = "\" ]; then\n  . \""@;
    let a3 = "\"\nfi\n"@;
    assert(hash_free(a1));
    assert(hash_free(a2));
    assert(hash_free(a3));
    let mid = a1 + path + a2 + path + a3;
    let b = st + mid + en + nl;
    let o1: int = 22 + a1.len() as int;
    let o2: int = o1 + path.len();
    let o3: int = o2 + a2.len();
    let o4: int = o3 + path.len();
    assert(b.subrange(22, o1) =~= a1);
    assert(b.subrange(o1, o2) =~= path);
    assert(b.subrange(o2, o3) =~= a2);
    assert(b.subrange(o3, o4) =~= path);
    assert(b.subrange(o4, o4 + a3.len() as int) =~= a3);
    assert(b[o2] == a2[0]);
    assert(b[o4] == a3[0]);
    lemma_no_end_in_hash_free(b, 22, a1);
    lemma_no_end_in_quoted(b, o1, path);
    lemma_no_end_in_hash_free(b, o2, a2);
    lemma_no_end_in_quoted(b, o3, path);
    lemma_no_end_in_hash_free(b, o4, a3);
    lemma_block_shape(mid);
    assert(bash_block(path) =~= b);
    let p1 = "\n$hunmingProfile = \""@;
    let p2 = "\"\nif (Test-Path $hunmingProfile) {\n    . $hunmingProfile\n}\n"@;
    assert(hash_free(p1));
    assert(hash_free(p2));
    let pmid = p1 + path + p2;
    let c = st + pmid + en + nl;
    let q1: int = 22 + p1.len() as int;
    let q2: int = q1 + path.len();
    assert(c.subrange(22, q1) =~= p1);
    assert(c.subrange(q1, q2) =~= path);
    assert(c.subrange(q2, q2 + p2.len() as int) =~= p2);
    assert(c[q2] == p2[0]);
    lemma_no_end_in_hash_free(c, 22, p1);
    lemma_no_end_in_quoted(c, q1, path);
    lemma_no_end_in_hash_free(c, q2, p2);
    lemma_block_shape(pmid);
    assert(powershell_block(path) =~= c);
}

} // verus!
