use vstd::prelude::*;

use crate::text::{chars_of, string_push};

verus! {

broadcast use vstd::string::group_string_axioms;

/// The marker that asks for an `input` port to be turned into an `inout`.
pub const INOUT_MARKER: &'static str = "_INOUT_RENAME";

/// Unicode `White_Space`, the characters that `char::is_whitespace` accepts.
pub open spec fn is_whitespace(c: char) -> bool {
    let u = c as u32;
    ||| 0x09 <= u <= 0x0d
    ||| u == 0x20
    ||| u == 0x85
    ||| u == 0xa0
    ||| u == 0x1680
    ||| 0x2000 <= u <= 0x200a
    ||| u == 0x2028
    ||| u == 0x2029
    ||| u == 0x202f
    ||| u == 0x205f
    ||| u == 0x3000
}

/// `s` without its leading whitespace.
pub open spec fn trim_start(s: Seq<char>) -> Seq<char>
    decreases s.len(),
{
    if s.len() > 0 && is_whitespace(s[0]) {
        trim_start(s.drop_first())
    } else {
        s
    }
}

/// `p` occurs in `s` at position `i`.
pub open spec fn matches_at(s: Seq<char>, p: Seq<char>, i: int) -> bool {
    0 <= i && i + p.len() <= s.len() && s.subrange(i, i + p.len()) == p
}

/// The first position at or after `i` where `p` occurs in `s`.
pub open spec fn first_match_from(s: Seq<char>, p: Seq<char>, i: int) -> Option<int>
    decreases s.len() + 1 - i,
{
    if i < 0 || i + p.len() > s.len() {
        None
    } else if matches_at(s, p, i) {
        Some(i)
    } else {
        first_match_from(s, p, i + 1)
    }
}

/// `s` with its first occurrence of `from` replaced by `to`.
pub open spec fn replace_first(s: Seq<char>, from: Seq<char>, to: Seq<char>) -> Seq<char> {
    match first_match_from(s, from, 0) {
        Some(i) => s.take(i) + to + s.skip(i + from.len()),
        None => s,
    }
}

/// `s` with every occurrence of a non-empty `p` removed, scanning left to right.
pub open spec fn remove_all(s: Seq<char>, p: Seq<char>) -> Seq<char>
    decreases s.len(),
{
    if p.len() > 0 && matches_at(s, p, 0) {
        remove_all(s.skip(p.len() as int), p)
    } else if s.len() == 0 {
        Seq::empty()
    } else {
        seq![s[0]] + remove_all(s.drop_first(), p)
    }
}

/// One line after renaming: a line holding the marker loses every marker,
/// and if it is an `input` declaration (after leading whitespace), its
/// first `input` becomes `inout`. Other lines are unchanged.
pub open spec fn rename_line(line: Seq<char>) -> Seq<char> {
    if first_match_from(line, INOUT_MARKER@, 0) is None {
        line
    } else {
        let renamed = if matches_at(trim_start(line), "input"@, 0) {
            replace_first(line, "input"@, "inout"@)
        } else {
            line
        };
        remove_all(renamed, INOUT_MARKER@)
    }
}

/// The lines of `t` as split at each `'\n'`; there is always at least one.
pub open spec fn split_lines(t: Seq<char>) -> Seq<Seq<char>>
    decreases t.len(),
{
    if t.len() == 0 {
        seq![Seq::empty()]
    } else {
        let prev = split_lines(t.drop_last());
        if t.last() == '\n' {
            prev.push(Seq::empty())
        } else {
            prev.update(prev.len() - 1, prev.last().push(t.last()))
        }
    }
}

/// Each of `lines`, renamed and followed by a newline.
pub open spec fn renamed_lines(lines: Seq<Seq<char>>) -> Seq<char>
    decreases lines.len(),
{
    if lines.len() == 0 {
        Seq::empty()
    } else {
        renamed_lines(lines.drop_last()) + rename_line(lines.last()) + seq!['\n']
    }
}

/// The text with every line renamed and the newlines kept.
pub open spec fn rename_text(t: Seq<char>) -> Seq<char> {
    let lines = split_lines(t);
    renamed_lines(lines.drop_last()) + rename_line(lines.last())
}

/// Whether `c` is Unicode whitespace.
pub(crate) fn is_whitespace_char(c: char) -> (r: bool)
    ensures
        r == is_whitespace(c),
{
    let u = c as u32;
    (0x09 <= u && u <= 0x0d) || u == 0x20 || u == 0x85 || u == 0xa0 || u == 0x1680 || (0x2000
        <= u && u <= 0x200a) || u == 0x2028 || u == 0x2029 || u == 0x202f || u == 0x205f || u
        == 0x3000
}

/// Whether `p` occurs in `s` at position `i`.
pub(crate) fn matches_at_exec(s: &Vec<char>, p: &Vec<char>, i: usize) -> (r: bool)
    ensures
        r == matches_at(s@, p@, i as int),
{
    if i > s.len() || p.len() > s.len() - i {
        return false;
    }
    let n = p.len();
    for k in 0..n
        invariant
            n == p@.len(),
            i + n <= s.len(),
            forall|j: int| 0 <= j < k ==> s@[i + j] == p@[j],
    {
        if s[i + k] != p[k] {
            assert(s@.subrange(i as int, i + n)[k as int] != p@[k as int]);
            return false;
        }
    }
    assert(s@.subrange(i as int, i + n) =~= p@);
    true
}

/// The first position where `p` occurs in `s`.
pub(crate) fn find_first(s: &Vec<char>, p: &Vec<char>) -> (r: Option<usize>)
    ensures
        match first_match_from(s@, p@, 0) {
            Some(i) => r == Some(i as usize),
            None => r is None,
        },
        r matches Some(i) ==> i <= s@.len() && first_match_from(s@, p@, 0) == Some(i as int),
{
    if p.len() > s.len() {
        return None;
    }
    let last = s.len() - p.len();
    let mut i: usize = 0;
    while i < last
        invariant
            last == s@.len() - p@.len(),
            i <= last,
            first_match_from(s@, p@, 0) == first_match_from(s@, p@, i as int),
        decreases last - i,
    {
        if matches_at_exec(s, p, i) {
            return Some(i);
        }
        i += 1;
    }
    if matches_at_exec(s, p, last) {
        Some(last)
    } else {
        assert(first_match_from(s@, p@, last + 1) is None);
        None
    }
}

/// A match found from `j` is a real occurrence at or after `j`.
proof fn lemma_first_match_sound(s: Seq<char>, p: Seq<char>, j: int)
    requires
        first_match_from(s, p, j) is Some,
    ensures
        matches_at(s, p, first_match_from(s, p, j)->0),
        j <= first_match_from(s, p, j)->0,
    decreases s.len() + 1 - j,
{
    if !(j < 0 || j + p.len() > s.len()) && !matches_at(s, p, j) {
        lemma_first_match_sound(s, p, j + 1);
    }
}

/// The position of the first non-whitespace character of `s`.
pub(crate) fn trim_start_index(s: &Vec<char>) -> (r: usize)
    ensures
        r <= s@.len(),
        trim_start(s@) == s@.skip(r as int),
{
    let mut i: usize = 0;
    assert(s@.skip(0) =~= s@);
    while i < s.len() && is_whitespace_char(s[i])
        invariant
            i <= s@.len(),
            trim_start(s@) == trim_start(s@.skip(i as int)),
        decreases s@.len() - i,
    {
        assert(s@.skip(i as int).drop_first() =~= s@.skip(i + 1));
        i += 1;
    }
    i
}

/// Appends `s` with every occurrence of `p` removed.
fn push_removing_all(out: &mut String, s: &Vec<char>, p: &Vec<char>)
    ensures
        final(out)@ == old(out)@ + remove_all(s@, p@),
{
    let ghost start = out@;
    let mut i: usize = 0;
    assert(s@.skip(0) =~= s@);
    while i < s.len()
        invariant
            i <= s@.len(),
            start + remove_all(s@, p@) == out@ + remove_all(s@.skip(i as int), p@),
        decreases s@.len() - i,
    {
        let ghost rest = s@.skip(i as int);
        if p.len() > 0 && matches_at_exec(s, p, i) {
            assert(matches_at(rest, p@, 0)) by {
                assert(rest.subrange(0, p@.len() as int) =~= s@.subrange(i as int, i + p@.len()));
            }
            assert(rest.skip(p@.len() as int) =~= s@.skip(i + p@.len()));
            i = i + p.len();
        } else {
            assert(!(p@.len() > 0 && matches_at(rest, p@, 0))) by {
                if p@.len() > 0 && matches_at(rest, p@, 0) {
                    assert(rest.subrange(0, p@.len() as int) =~= s@.subrange(i as int, i + p@.len()));
                }
            }
            assert(rest.drop_first() =~= s@.skip(i + 1));
            string_push(out, s[i]);
            assert(seq![rest[0]] + remove_all(rest.drop_first(), p@) == remove_all(rest, p@));
            assert(out@ + remove_all(s@.skip(i + 1), p@) =~= start + remove_all(s@, p@));
            i += 1;
        }
    }
    assert(s@.skip(i as int) =~= Seq::<char>::empty());
    assert(out@ =~= start + remove_all(s@, p@));
}

/// Appends `line` after renaming it.
fn push_renamed_line(out: &mut String, line: &Vec<char>, marker: &Vec<char>, input: &Vec<char>, inout: &Vec<char>)
    requires
        marker@ == INOUT_MARKER@,
        input@ == "input"@,
        inout@ == "inout"@,
    ensures
        final(out)@ == old(out)@ + rename_line(line@),
{
    if find_first(line, marker).is_none() {
        let n = line.len();
        let ghost start = out@;
        for k in 0..n
            invariant
                n == line@.len(),
                out@ == start + line@.take(k as int),
        {
            string_push(out, line[k]);
            assert(line@.take(k + 1) =~= line@.take(k as int).push(line@[k as int]));
        }
        assert(line@.take(n as int) =~= line@);
        return;
    }
    let t = trim_start_index(line);
    let is_input = matches_at_exec(line, input, t);
    proof {
        reveal_strlit("input");
        let tr = line@.skip(t as int);
        if matches_at(tr, "input"@, 0) {
            assert(tr.subrange(0, 5) =~= line@.subrange(t as int, t + 5));
        }
        if matches_at(line@, "input"@, t as int) {
            assert(tr.subrange(0, 5) =~= line@.subrange(t as int, t + 5));
        }
    }
    if is_input {
        let mut renamed: Vec<char> = Vec::new();
        match find_first(line, input) {
            Some(i) => {
                proof {
                    reveal_strlit("input");
                    reveal_strlit("inout");
                    lemma_first_match_sound(line@, input@, 0);
                }
                for k in 0..i
                    invariant
                        i + 5 <= line@.len(),
                        renamed@ == line@.take(k as int),
                {
                    renamed.push(line[k]);
                    assert(line@.take(k + 1) =~= line@.take(k as int).push(line@[k as int]));
                }
                for k in 0..5
                    invariant
                        inout@ == "inout"@,
                        renamed@ == line@.take(i as int) + inout@.take(k as int),
                {
                    proof { reveal_strlit("inout"); }
                    renamed.push(inout[k]);
                    assert(inout@.take(k + 1) =~= inout@.take(k as int).push(inout@[k as int]));
                }
                assert(inout@.take(5) =~= inout@);
                let n = line.len();
                for k in i + 5..n
                    invariant
                        i + 5 <= n,
                        n == line@.len(),
                        renamed@ == line@.take(i as int) + inout@ + line@.subrange(i + 5, k as int),
                {
                    renamed.push(line[k]);
                    assert(line@.subrange(i + 5, k + 1) =~= line@.subrange(i + 5, k as int).push(line@[k as int]));
                }
                proof { reveal_strlit("input"); }
                assert(renamed@ =~= replace_first(line@, "input"@, "inout"@));
            },
            None => {
                proof { reveal_strlit("input"); }
                assert(first_match_from(line@, "input"@, 0) is Some) by {
                    lemma_match_found(line@, "input"@, 0, t as int);
                }
            },
        }
        push_removing_all(out, &renamed, marker);
    } else {
        push_removing_all(out, line, marker);
    }
}

/// If `p` occurs at `j >= i`, a match is found from `i`, no later than `j`.
proof fn lemma_match_found(s: Seq<char>, p: Seq<char>, i: int, j: int)
    requires
        0 <= i <= j,
        matches_at(s, p, j),
    ensures
        first_match_from(s, p, i) matches Some(k) && i <= k <= j,
    decreases j - i,
{
    if !matches_at(s, p, i) {
        lemma_match_found(s, p, i + 1, j);
    }
}

/// Rewrites `input` declarations of lines that carry the marker into `inout`
/// declarations, and removes the marker from every line.
pub fn rename_inout(text: String) -> (r: String)
    ensures
        r@ == rename_text(text@),
{
    let marker = chars_of(INOUT_MARKER);
    let input = chars_of("input");
    let inout = chars_of("inout");
    let chars = chars_of(text.as_str());
    let mut out = String::new();
    let mut cur: Vec<char> = Vec::new();
    let n = chars.len();
    for k in 0..n
        invariant
            n == chars@.len(),
            chars@ == text@,
            marker@ == INOUT_MARKER@,
            input@ == "input"@,
            inout@ == "inout"@,
            split_lines(text@.take(k as int)).len() >= 1,
            out@ == renamed_lines(split_lines(text@.take(k as int)).drop_last()),
            cur@ == split_lines(text@.take(k as int)).last(),
    {
        let c = chars[k];
        let ghost t1 = text@.take(k + 1);
        proof {
            assert(t1.drop_last() =~= text@.take(k as int));
            assert(t1.last() == c);
        }
        if c == '\n' {
            push_renamed_line(&mut out, &cur, &marker, &input, &inout);
            string_push(&mut out, '\n');
            cur = Vec::new();
            proof {
                let prev = split_lines(text@.take(k as int));
                assert(split_lines(t1) == prev.push(Seq::empty()));
                assert(split_lines(t1).drop_last() =~= prev);
            }
        } else {
            cur.push(c);
            proof {
                let prev = split_lines(text@.take(k as int));
                assert(split_lines(t1) == prev.update(prev.len() - 1, prev.last().push(c)));
                assert(split_lines(t1).drop_last() =~= prev.drop_last());
            }
        }
    }
    assert(text@.take(n as int) =~= text@);
    push_renamed_line(&mut out, &cur, &marker, &input, &inout);
    out
}

} // verus!
