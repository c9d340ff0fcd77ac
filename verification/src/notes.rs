//! The comment block at the top of the rules file that lists this machine's
//! Chrome profiles, so that rules can be written without `--list-profiles`.
//! Refreshing it replaces an earlier block and keeps the rest of the file.

use vstd::prelude::*;
use vstd::string::StrSliceExecFns;
use vstd::string::StringExecFns;
use crate::chrome::Profile;
use crate::cli::{listing_row, listing_row_text, pad_right};
use crate::text::{push_char, seq_ends_with, seq_starts_with, starts_with, str_eq};

verus! {

/// The block's first line.
pub open spec fn begin_line() -> Seq<char> {
    "# --- Chrome profiles on this machine (refreshed by --config) ---"@
}

/// The block's last line.
pub open spec fn end_line() -> Seq<char> {
    "# --- end of Chrome profiles ---"@
}

/// A line break.
pub open spec fn nl() -> Seq<char> {
    seq!['\n']
}

/// The characters TOML refuses in a comment: control characters other than
/// tab.
pub open spec fn is_toml_control(c: char) -> bool {
    ((c as u32) < 0x20 && c != '\t') || (c as u32) == 0x7f
}

/// `s` with every character TOML refuses in a comment replaced by a space.
pub open spec fn comment_safe(s: Seq<char>) -> Seq<char> {
    s.map_values(|c: char| if is_toml_control(c) { ' ' } else { c })
}

/// The block's line for one profile.
pub open spec fn note_row(dir: Seq<char>, name: Seq<char>) -> Seq<char> {
    "#"@ + listing_row(comment_safe(dir), comment_safe(name))
}

/// The block's lines: a first line, a header, one row per profile, a last
/// line.
pub open spec fn note_lines(list: Seq<(Seq<char>, Seq<char>)>) -> Seq<Seq<char>> {
    seq![begin_line(), "#"@ + listing_row("DIRECTORY"@, "DISPLAY NAME"@)] + list.map_values(
        |p: (Seq<char>, Seq<char>)| note_row(p.0, p.1),
    ) + seq![end_line()]
}

/// Lines, each followed by a line break.
pub open spec fn join_lines(lines: Seq<Seq<char>>) -> Seq<char>
    decreases lines.len(),
{
    if lines.len() == 0 {
        Seq::empty()
    } else {
        join_lines(lines.drop_last()) + lines.last() + nl()
    }
}

/// The comment block for the given profiles.
pub open spec fn profile_note(list: Seq<(Seq<char>, Seq<char>)>) -> Seq<char> {
    join_lines(note_lines(list))
}

/// `pat` occurs in `text` at index `i`.
pub open spec fn occurs_at(text: Seq<char>, pat: Seq<char>, i: int) -> bool {
    0 <= i && i + pat.len() <= text.len() && text.subrange(i, i + pat.len()) == pat
}

/// The first index at or after `i` where `pat` occurs in `text`.
pub open spec fn find_from(text: Seq<char>, pat: Seq<char>, i: int) -> Option<int>
    decreases text.len() + 1 - i,
{
    if i < 0 || i + pat.len() > text.len() {
        None
    } else if occurs_at(text, pat, i) {
        Some(i)
    } else {
        find_from(text, pat, i + 1)
    }
}

/// The part of a rules file that is not the profile block: all of it when it
/// does not open with the block, else what follows the block's last line.
pub open spec fn user_text(text: Seq<char>) -> Seq<char> {
    if seq_starts_with(text, begin_line() + nl()) {
        match find_from(text, end_line() + nl(), 0) {
            Some(k) => text.skip(k + end_line().len() + 1),
            None => text,
        }
    } else {
        text
    }
}

/// The rules file with its profile block brought up to date.
pub open spec fn refreshed(text: Seq<char>, list: Seq<(Seq<char>, Seq<char>)>) -> Seq<char> {
    profile_note(list) + user_text(text)
}

fn comment_safe_text(s: &str) -> (r: String)
    ensures
        r@ == comment_safe(s@),
{
    let n = s.unicode_len();
    let mut out = String::new();
    let mut i: usize = 0;
    while i < n
        invariant
            n == s@.len(),
            i <= n,
            out@ == comment_safe(s@.subrange(0, i as int)),
        decreases n - i,
    {
        let c = s.get_char(i);
        let u = c as u32;
        if (u < 0x20 && c != '\t') || u == 0x7f {
            push_char(&mut out, ' ');
        } else {
            push_char(&mut out, c);
        }
        assert(s@.subrange(0, i + 1) == s@.subrange(0, i as int).push(c));
        assert(comment_safe(s@.subrange(0, i + 1)) == comment_safe(s@.subrange(0, i as int)).push(
            if is_toml_control(c) {
                ' '
            } else {
                c
            },
        ));
        i = i + 1;
    }
    assert(s@.subrange(0, n as int) == s@);
    out
}

fn push_line(out: &mut String, line: &str)
    ensures
        final(out)@ == old(out)@ + line@ + nl(),
{
    out.append(line);
    push_char(out, '\n');
}

/// The comment block listing `profiles`.
pub fn profile_note_text(profiles: &Vec<Profile>) -> (r: String)
    ensures
        r@ == profile_note(profiles.deep_view()),
{
    let ghost lines = note_lines(profiles.deep_view());
    let mut out = String::new();
    push_line(&mut out, "# --- Chrome profiles on this machine (refreshed by --config) ---");
    let mut header = String::from_str("#");
    header.append(listing_row_text("DIRECTORY", "DISPLAY NAME").as_str());
    push_line(&mut out, header.as_str());
    proof {
        assert(lines.take(2) == seq![begin_line(), header@]);
        assert(join_lines(lines.take(2)) == join_lines(lines.take(2).drop_last()) + header@ + nl());
        assert(lines.take(2).drop_last() == seq![begin_line()]);
        assert(join_lines(seq![begin_line()]) == join_lines(Seq::<Seq<char>>::empty()) + begin_line()
            + nl()) by {
            assert(seq![begin_line()].drop_last() == Seq::<Seq<char>>::empty());
        }
    }
    let n = profiles.len();
    let mut i: usize = 0;
    while i < n
        invariant
            n == profiles@.len(),
            lines == note_lines(profiles.deep_view()),
            i <= n,
            out@ == join_lines(lines.take(i + 2)),
        decreases n - i,
    {
        let mut row = String::from_str("#");
        let dir = comment_safe_text(profiles[i].0.as_str());
        let name = comment_safe_text(profiles[i].1.as_str());
        row.append(listing_row_text(dir.as_str(), name.as_str()).as_str());
        push_line(&mut out, row.as_str());
        proof {
            assert(lines[i + 2] == row@);
            assert(lines.take(i + 3).drop_last() == lines.take(i + 2));
        }
        i = i + 1;
    }
    push_line(&mut out, "# --- end of Chrome profiles ---");
    proof {
        assert(lines.take(n + 3).drop_last() == lines.take(n + 2));
        assert(lines.take(n + 3) == lines);
    }
    out
}


/// What `find_from` finds is an occurrence.
pub proof fn lemma_find_from_occurs(text: Seq<char>, pat: Seq<char>, i: int)
    ensures
        find_from(text, pat, i) matches Some(k) ==> i <= k && occurs_at(text, pat, k),
    decreases text.len() + 1 - i,
{
    if 0 <= i && i + pat.len() <= text.len() && !occurs_at(text, pat, i) {
        lemma_find_from_occurs(text, pat, i + 1);
    }
}

/// The first index at or after which `pat` occurs in `text`.
fn find_text(text: &str, pat: &str) -> (r: Option<usize>)
    ensures
        match r {
            Some(k) => find_from(text@, pat@, 0) == Some(k as int),
            None => find_from(text@, pat@, 0) is None,
        },
{
    let n = text.unicode_len();
    let m = pat.unicode_len();
    if m == 0 {
        assert(occurs_at(text@, pat@, 0)) by {
            assert(text@.subrange(0, 0) == pat@);
        }
        return Some(0);
    }
    let mut i: usize = 0;
    while m <= n && i <= n - m
        invariant
            n == text@.len(),
            m == pat@.len(),
            m >= 1,
            find_from(text@, pat@, 0) == find_from(text@, pat@, i as int),
        decreases n + 1 - i,
    {
        if str_eq(text.substring_char(i, i + m), pat) {
            return Some(i);
        }
        i = i + 1;
    }
    None
}

/// The part of the rules file `text` that is not the profile block.
pub fn user_part(text: &str) -> (r: &str)
    ensures
        r@ == user_text(text@),
{
    let mut begin = String::from_str("# --- Chrome profiles on this machine (refreshed by --config) ---");
    push_char(&mut begin, '\n');
    assert(begin@ == begin_line() + nl());
    if !starts_with(text, begin.as_str()) {
        return text;
    }
    let mut end = String::from_str("# --- end of Chrome profiles ---");
    push_char(&mut end, '\n');
    assert(end@ == end_line() + nl());
    match find_text(text, end.as_str()) {
        Some(k) => {
            proof {
                lemma_find_from_occurs(text@, end@, 0);
            }
            let n = text.unicode_len();
            let skip = k + end.unicode_len();
            text.substring_char(skip, n)
        },
        None => text,
    }
}

/// The rules file `text` with its profile block, listing `profiles`, brought
/// up to date: the block first, then the rest of the file as it was.
pub fn refresh_profile_note(text: &str, profiles: &Vec<Profile>) -> (r: String)
    ensures
        r@ == refreshed(text@, profiles.deep_view()),
{
    let mut out = profile_note_text(profiles);
    out.append(user_part(text));
    out
}


/// `s` holds no line break.
pub open spec fn single_line(s: Seq<char>) -> bool {
    forall|k: int| 0 <= k < s.len() ==> s[k] != '\n'
}

proof fn lemma_end_pattern()
    ensures
        (end_line() + nl()).len() == end_line().len() + 1,
        (end_line() + nl())[end_line().len() as int] == '\n',
        single_line(end_line()),
        end_line().len() == 32,
        begin_line().len() == 65,
        single_line(begin_line()),
        !seq_ends_with(begin_line(), end_line()),
{
    reveal_strlit("# --- end of Chrome profiles ---");
    reveal_strlit("# --- Chrome profiles on this machine (refreshed by --config) ---");
    let b = begin_line();
    let e = end_line();
    assert(b.subrange(b.len() - e.len(), b.len() as int)[26] != e[26]);
}

proof fn lemma_join_push(lines: Seq<Seq<char>>, l: Seq<char>)
    ensures
        join_lines(lines.push(l)) == join_lines(lines) + l + nl(),
{
    assert(lines.push(l).drop_last() == lines);
}

/// Joining two runs of lines joins their texts.
proof fn lemma_join_concat(a: Seq<Seq<char>>, b: Seq<Seq<char>>)
    ensures
        join_lines(a + b) == join_lines(a) + join_lines(b),
    decreases b.len(),
{
    if b.len() == 0 {
        assert(a + b == a);
    } else {
        lemma_join_concat(a, b.drop_last());
        assert((a + b).drop_last() == a + b.drop_last());
        assert(join_lines(a) + (join_lines(b.drop_last()) + b.last() + nl()) == (join_lines(a)
            + join_lines(b.drop_last())) + b.last() + nl());
    }
}

/// Where lines hold no line break and none ends with the block's last line,
/// the block's last line (with its line break) starts nowhere in their text,
/// whatever follows it.
proof fn lemma_no_end_in_lines(lines: Seq<Seq<char>>, rest: Seq<char>)
    requires
        forall|k: int| 0 <= k < lines.len() ==> single_line(#[trigger] lines[k]),
        forall|k: int| 0 <= k < lines.len() ==> !seq_ends_with(#[trigger] lines[k], end_line()),
    ensures
        forall|i: int|
            0 <= i < join_lines(lines).len() ==> !#[trigger] occurs_at(
                join_lines(lines) + rest,
                end_line() + nl(),
                i,
            ),
    decreases lines.len(),
{
    lemma_end_pattern();
    if lines.len() > 0 {
        let init = lines.drop_last();
        let l = lines.last();
        let j0 = join_lines(init);
        let tail = l + nl() + rest;
        assert(forall|k: int| 0 <= k < init.len() ==> init[k] == lines[k]);
        lemma_no_end_in_lines(init, tail);
        let text = join_lines(lines) + rest;
        assert(text == j0 + tail);
        let p = end_line() + nl();
        let len = p.len() as int;
        assert forall|i: int| 0 <= i < join_lines(lines).len() implies !#[trigger] occurs_at(
            text,
            p,
            i,
        ) by {
            if i < j0.len() {
                assert(!occurs_at(j0 + tail, p, i));
            } else if occurs_at(text, p, i) {
                let o = i - j0.len();
                assert(text.subrange(i, i + len) == p);
                if o + len - 1 < l.len() {
                    assert(text[i + len - 1] == p[len - 1]);
                    assert(l[o + len - 1] == '\n');
                } else if o + len - 1 == l.len() {
                    assert(l.subrange(l.len() - end_line().len(), l.len() as int) == end_line()) by {
                        assert forall|k: int| 0 <= k < end_line().len() implies l.subrange(
                            l.len() - end_line().len(),
                            l.len() as int,
                        )[k] == end_line()[k] by {
                            assert(text[i + k] == p[k]);
                        }
                    }
                } else {
                    let q = l.len() - o;
                    assert(text[i + q] == p[q]);
                    assert(text[j0.len() + l.len() as int] == '\n');
                    assert(p[q] == end_line()[q]);
                }
            }
        }
    }
}

/// The first occurrence of `pat` from `i` on is at `k` when it occurs at `k`
/// and nowhere from `i` to before `k`.
proof fn lemma_find_first(text: Seq<char>, pat: Seq<char>, i: int, k: int)
    requires
        0 <= i <= k,
        occurs_at(text, pat, k),
        forall|j: int| i <= j < k ==> !#[trigger] occurs_at(text, pat, j),
    ensures
        find_from(text, pat, i) == Some(k),
    decreases k - i,
{
    if i < k {
        lemma_find_first(text, pat, i + 1, k);
    }
}

proof fn lemma_rows_single_line(list: Seq<(Seq<char>, Seq<char>)>)
    ensures
        forall|i: int| 0 <= i < list.len() ==> single_line(#[trigger] note_row(list[i].0, list[i].1)),
{
    reveal_strlit("#");
    reveal_strlit("  ");
    reveal_strlit(" ");
    assert forall|i: int| 0 <= i < list.len() implies single_line(
        #[trigger] note_row(list[i].0, list[i].1),
    ) by {
        let d = comment_safe(list[i].0);
        let n = comment_safe(list[i].1);
        assert(single_line(d));
        assert(single_line(n));
        let pd = pad_right(d, 14);
        assert(single_line(pd));
        let row = note_row(list[i].0, list[i].1);
        assert(row == "#"@ + ("  "@ + pd + " "@ + n));
    }
}

/// Refreshing the profile block keeps the rest of the rules file as it was,
/// so refreshing twice gives what refreshing once gives. This holds unless
/// some profile's row in the block ends with the block's last line.
pub proof fn lemma_refresh_keeps_user_text(text: Seq<char>, list: Seq<(Seq<char>, Seq<char>)>)
    requires
        forall|i: int|
            0 <= i < list.len() ==> !seq_ends_with(
                #[trigger] note_row(list[i].0, list[i].1),
                end_line(),
            ),
    ensures
        user_text(refreshed(text, list)) == user_text(text),
        refreshed(refreshed(text, list), list) == refreshed(text, list),
{
    lemma_end_pattern();
    lemma_rows_single_line(list);
    reveal_strlit("#");
    reveal_strlit("  ");
    reveal_strlit(" ");
    reveal_strlit("DIRECTORY");
    reveal_strlit("DISPLAY NAME");
    let u = user_text(text);
    let lines = note_lines(list);
    let header = "#"@ + listing_row("DIRECTORY"@, "DISPLAY NAME"@);
    let rows = list.map_values(|p: (Seq<char>, Seq<char>)| note_row(p.0, p.1));
    let init = seq![begin_line(), header] + rows;
    assert(lines == init.push(end_line()));
    assert(header.len() == 30);
    assert forall|k: int| 0 <= k < init.len() implies single_line(#[trigger] init[k]) && !seq_ends_with(
        init[k],
        end_line(),
    ) by {
        if k >= 2 {
            assert(init[k] == note_row(list[k - 2].0, list[k - 2].1));
        } else if k == 1 {
            assert(init[k] == header);
        }
    }
    let j0 = join_lines(init);
    lemma_join_push(init, end_line());
    let note = profile_note(list);
    assert(note == j0 + end_line() + nl());
    let t = note + u;
    let p = end_line() + nl();
    lemma_no_end_in_lines(init, end_line() + nl() + u);
    assert(t == j0 + (end_line() + nl() + u));
    assert(t.subrange(j0.len() as int, j0.len() + p.len() as int) == p);
    lemma_find_first(t, p, 0, j0.len() as int);
    // The refreshed text opens with the block's first line.
    lemma_join_concat(seq![begin_line()], seq![header] + rows + seq![end_line()]);
    assert(seq![begin_line()] + (seq![header] + rows + seq![end_line()]) == lines);
    lemma_join_push(Seq::<Seq<char>>::empty(), begin_line());
    assert(Seq::<Seq<char>>::empty().push(begin_line()) == seq![begin_line()]);
    let first = begin_line() + nl();
    assert(t.subrange(0, first.len() as int) == first);
    assert(t.skip(j0.len() + end_line().len() + 1 as int) == u);
}


/// A line TOML reads as a comment: it opens with `#` and holds no character
/// that TOML refuses in a comment.
pub open spec fn toml_comment(line: Seq<char>) -> bool {
    &&& line.len() > 0
    &&& line[0] == '#'
    &&& forall|k: int| 0 <= k < line.len() ==> !is_toml_control(#[trigger] line[k])
}

/// Every line of the profile block is a TOML comment, so the block leaves
/// the rules file's settings as they are.
pub proof fn lemma_note_is_comments(list: Seq<(Seq<char>, Seq<char>)>)
    ensures
        forall|k: int| 0 <= k < note_lines(list).len() ==> toml_comment(#[trigger] note_lines(list)[k]),
{
    reveal_strlit("# --- end of Chrome profiles ---");
    reveal_strlit("# --- Chrome profiles on this machine (refreshed by --config) ---");
    reveal_strlit("#");
    reveal_strlit("  ");
    reveal_strlit(" ");
    reveal_strlit("DIRECTORY");
    reveal_strlit("DISPLAY NAME");
    let lines = note_lines(list);
    assert forall|k: int| 0 <= k < lines.len() implies toml_comment(#[trigger] lines[k]) by {
        if 2 <= k < lines.len() - 1 {
            let i = k - 2;
            let d = comment_safe(list[i].0);
            let n = comment_safe(list[i].1);
            let pd = pad_right(d, 14);
            assert(lines[k] == note_row(list[i].0, list[i].1));
            assert(lines[k] == "#"@ + ("  "@ + pd + " "@ + n));
            assert(forall|j: int| 0 <= j < pd.len() ==> !is_toml_control(#[trigger] pd[j]));
        } else if k == 1 {
            let pd = pad_right("DIRECTORY"@, 14);
            assert(forall|j: int| 0 <= j < pd.len() ==> !is_toml_control(#[trigger] pd[j]));
            assert(lines[k] == "#"@ + ("  "@ + pd + " "@ + "DISPLAY NAME"@));
        }
    }
}


proof fn lemma_find_from_none(text: Seq<char>, pat: Seq<char>, i: int)
    requires
        0 <= i,
        forall|j: int| i <= j ==> !#[trigger] occurs_at(text, pat, j),
    ensures
        find_from(text, pat, i) is None,
    decreases text.len() + 1 - i,
{
    if i + pat.len() <= text.len() {
        lemma_find_from_none(text, pat, i + 1);
    }
}

/// Only a profile block at the very top of the rules file is ever replaced:
/// a file that does not open with the block's first line, or that holds no
/// block's last line, is the user's text in full, and refreshing it puts the
/// block in front of all of it.
pub proof fn lemma_only_a_leading_block_is_replaced(text: Seq<char>, list: Seq<(Seq<char>, Seq<char>)>)
    ensures
        !seq_starts_with(text, begin_line() + nl()) ==> user_text(text) == text,
        (forall|i: int| !#[trigger] occurs_at(text, end_line() + nl(), i)) ==> user_text(text) == text,
        user_text(text) == text ==> refreshed(text, list) == profile_note(list) + text,
        text.len() >= user_text(text).len(),
        user_text(text) == text.subrange(text.len() - user_text(text).len(), text.len() as int),
{
    if forall|i: int| !#[trigger] occurs_at(text, end_line() + nl(), i) {
        lemma_find_from_none(text, end_line() + nl(), 0);
    }
    lemma_find_from_occurs(text, end_line() + nl(), 0);
    if seq_starts_with(text, begin_line() + nl()) {
        if let Some(k) = find_from(text, end_line() + nl(), 0) {
            assert(text.skip(k + end_line().len() + 1) == text.subrange(
                k + end_line().len() + 1,
                text.len() as int,
            ));
        }
    }
    assert(text.subrange(0, text.len() as int) == text);
}

} // verus!
