use regex::Regex;
use vstd::prelude::*;

use crate::inout::{
    find_first, first_match_from, is_whitespace, is_whitespace_char,
    matches_at, matches_at_exec, split_lines, trim_start, trim_start_index,
};
use crate::lefmacros::{line_tokens, string_views, tokens_of};
use crate::text::{chars_of, push_str, string_of, string_push};

verus! {

broadcast use vstd::string::group_string_axioms;

/// `s` without its trailing whitespace.
pub open spec fn trim_end(s: Seq<char>) -> Seq<char>
    decreases s.len(),
{
    if s.len() > 0 && is_whitespace(s.last()) {
        trim_end(s.drop_last())
    } else {
        s
    }
}

/// `s` without whitespace at either end, as `str::trim` gives it.
pub open spec fn trim(s: Seq<char>) -> Seq<char> {
    trim_end(trim_start(s))
}

/// `s` ends with `p`.
pub open spec fn ends_with(s: Seq<char>, p: Seq<char>) -> bool {
    matches_at(s, p, s.len() - p.len())
}

/// The part of `s` before its first `(` (all of `s` if it has none).
pub open spec fn before_paren(s: Seq<char>) -> Seq<char> {
    match first_match_from(s, seq!['('], 0) {
        Some(i) => s.take(i),
        None => s,
    }
}

/// `s` without its leading dots.
pub open spec fn trim_dots(s: Seq<char>) -> Seq<char>
    decreases s.len(),
{
    if s.len() > 0 && s[0] == '.' {
        trim_dots(s.drop_first())
    } else {
        s
    }
}

/// The first position at or after `i` of an entry of `s` with key `k`.
pub open spec fn key_index<V>(s: Seq<(String, V)>, k: Seq<char>, i: int) -> Option<int>
    decreases s.len() - i,
{
    if i < 0 || i >= s.len() {
        None
    } else if s[i].0@ == k {
        Some(i)
    } else {
        key_index(s, k, i + 1)
    }
}

/// For each module, for each of its instances, the enum type to cast each
/// named port connection to.
pub type EnumRemapping = Vec<(String, Vec<(String, Vec<(String, String)>)>)>;

/// No key occurs twice among the entries `s`.
pub open spec fn keys_distinct<V>(s: Seq<(String, V)>) -> bool {
    forall|i: int, j: int| 0 <= i < j < s.len() ==> (#[trigger] s[i]).0@ != (#[trigger] s[j]).0@
}

/// A remapping is keyed like nested maps: module names, the instance names
/// of each module and the port names of each instance are each distinct.
pub open spec fn remapping_wf(m: Seq<(String, Vec<(String, Vec<(String, String)>)>)>) -> bool {
    &&& keys_distinct(m)
    &&& forall|i: int| 0 <= i < m.len() ==> keys_distinct((#[trigger] m[i]).1@)
    &&& forall|i: int, j: int|
        0 <= i < m.len() && 0 <= j < m[i].1@.len() ==> keys_distinct((#[trigger] m[i].1@[j]).1@)
}

/// The module and instance that the lines read so far are inside.
pub struct RemapState {
    pub module: Option<Seq<char>>,
    pub instance: Option<Seq<char>>,
}

/// What `Regex::replace` makes of `line` with the pattern
/// `\.(\w+)\(([\w\[\]:]+)\)`, replacing its first match `.port(expr)` by
/// `.port(enum_name'(expr))`.
pub uninterp spec fn enum_cast_rewrite(line: Seq<char>, enum_name: Seq<char>) -> Seq<char>;

/// One line: `module` and `endmodule` lines open and close a module; inside
/// a module with remapped instances, a line ending in `(` opens the
/// instance named by its second word and one ending in `);` closes it;
/// inside a remapped instance, a `.port(...)` line whose port has an enum
/// type gets its connection cast to that type.
pub open spec fn remap_line(st: RemapState, line: Seq<char>, m: Seq<(String, Vec<(String, Vec<(String, String)>)>)>) -> (RemapState, Seq<char>) {
    let t = trim(line);
    let toks = tokens_of(t);
    if matches_at(t, "endmodule"@, 0) {
        (RemapState { module: None, instance: None }, line)
    } else if matches_at(t, "module"@, 0) {
        (
            RemapState {
                module: if toks.len() > 1 {
                    Some(before_paren(toks[1]))
                } else {
                    st.module
                },
                instance: None,
            },
            line,
        )
    } else {
        match st.module {
            None => (st, line),
            Some(d) => match key_index(m, d, 0) {
                None => (st, line),
                Some(di) => {
                    let insts = m[di].1@;
                    if ends_with(t, ");"@) {
                        (RemapState { module: st.module, instance: None }, line)
                    } else if ends_with(t, "("@) {
                        if toks.len() > 1 {
                            (RemapState { module: st.module, instance: Some(toks[1]) }, line)
                        } else {
                            (st, line)
                        }
                    } else {
                        match st.instance {
                            None => (st, line),
                            Some(i) => match key_index(insts, i, 0) {
                                None => (st, line),
                                Some(ii) => {
                                    let ports = insts[ii].1@;
                                    if matches_at(t, "."@, 0) {
                                        match key_index(ports, trim_dots(before_paren(t)), 0) {
                                            Some(pi) => (st, enum_cast_rewrite(line, ports[pi].1@)),
                                            None => (st, line),
                                        }
                                    } else {
                                        (st, line)
                                    }
                                },
                            },
                        }
                    }
                },
            },
        }
    }
}

/// The state after `lines` and the lines as rewritten.
pub open spec fn remap_lines(lines: Seq<Seq<char>>, m: Seq<(String, Vec<(String, Vec<(String, String)>)>)>) -> (RemapState, Seq<Seq<char>>)
    decreases lines.len(),
{
    if lines.len() == 0 {
        (RemapState { module: None, instance: None }, Seq::empty())
    } else {
        let (st, out) = remap_lines(lines.drop_last(), m);
        let (st2, l) = remap_line(st, lines.last(), m);
        (st2, out.push(l))
    }
}

/// Each of `ls` followed by a newline.
pub open spec fn with_newlines(ls: Seq<Seq<char>>) -> Seq<char>
    decreases ls.len(),
{
    if ls.len() == 0 {
        Seq::empty()
    } else {
        with_newlines(ls.drop_last()) + ls.last() + seq!['\n']
    }
}

/// The text with every line rewritten, joined by newlines again.
pub open spec fn spec_remap_enum_types(text: Seq<char>, m: Seq<(String, Vec<(String, Vec<(String, String)>)>)>) -> Seq<char> {
    let outs = remap_lines(split_lines(text), m).1;
    with_newlines(outs.drop_last()) + outs.last()
}

/// `.port(enum_name'(expr))`: the connection of `port` to `expr`, cast to
/// `enum_name`.
pub fn cast_connection(port: &str, enum_name: &str, expr: &str) -> (r: String)
    ensures
        r@ == "."@ + port@ + "("@ + enum_name@ + "'("@ + expr@ + "))"@,
{
    let mut s = String::new();
    push_str(&mut s, ".");
    push_str(&mut s, port);
    push_str(&mut s, "(");
    push_str(&mut s, enum_name);
    push_str(&mut s, "'(");
    push_str(&mut s, expr);
    push_str(&mut s, "))");
    s
}

/// `regex::Regex::new` on the pattern `\.(\w+)\(([\w\[\]:]+)\)` and
/// `Regex::replace`: the first match in `line` becomes the connection of
/// the captured port to the captured expression cast to `enum_name`. The
/// result is named, as the pattern's word characters are Unicode's.
#[verifier::external_body]
fn rewrite_port_connection(line: &str, enum_name: &str) -> (r: String)
    ensures
        r@ == enum_cast_rewrite(line@, enum_name@),
{
    let re = Regex::new(r"\.(\w+)\(([\w\[\]:]+)\)").unwrap();
    re.replace(line, |caps: &regex::Captures| cast_connection(&caps[1], enum_name, &caps[2])).into_owned()
}

/// The end of `s` without its trailing whitespace.
fn trim_end_index(s: &Vec<char>, start: usize) -> (r: usize)
    requires
        start <= s@.len(),
    ensures
        start <= r <= s@.len(),
        trim_end(s@.skip(start as int)) == s@.subrange(start as int, r as int),
{
    let mut e = s.len();
    assert(s@.skip(start as int) =~= s@.subrange(start as int, e as int));
    while e > start && is_whitespace_char(s[e - 1])
        invariant
            start <= e <= s@.len(),
            trim_end(s@.skip(start as int)) == trim_end(s@.subrange(start as int, e as int)),
        decreases e,
    {
        assert(s@.subrange(start as int, e as int).drop_last() =~= s@.subrange(start as int, e - 1));
        e -= 1;
    }
    e
}

/// The characters of `s` from `a` to `b`.
fn chars_between(s: &Vec<char>, a: usize, b: usize) -> (r: Vec<char>)
    requires
        a <= b <= s@.len(),
    ensures
        r@ == s@.subrange(a as int, b as int),
{
    let mut r: Vec<char> = Vec::new();
    for k in a..b
        invariant
            a <= b <= s@.len(),
            r@ == s@.subrange(a as int, k as int),
    {
        r.push(s[k]);
        assert(s@.subrange(a as int, k + 1) =~= s@.subrange(a as int, k as int).push(s@[k as int]));
    }
    r
}

/// `line` without whitespace at either end.
fn trimmed(line: &Vec<char>) -> (r: Vec<char>)
    ensures
        r@ == trim(line@),
{
    let a = trim_start_index(line);
    let b = trim_end_index(line, a);
    chars_between(line, a, b)
}

/// Whether `t` starts with `p`.
fn starts_with_chars(t: &Vec<char>, p: &str) -> (r: bool)
    ensures
        r == matches_at(t@, p@, 0),
{
    let pc = chars_of(p);
    matches_at_exec(t, &pc, 0)
}

/// Whether `t` ends with `p`.
fn ends_with_chars(t: &Vec<char>, p: &str) -> (r: bool)
    ensures
        r == ends_with(t@, p@),
{
    let pc = chars_of(p);
    if pc.len() > t.len() {
        return false;
    }
    matches_at_exec(t, &pc, t.len() - pc.len())
}

/// The part of `s` before its first `(`.
fn before_paren_of(s: &Vec<char>) -> (r: Vec<char>)
    ensures
        r@ == before_paren(s@),
{
    let mut p: Vec<char> = Vec::new();
    p.push('(');
    assert(p@ =~= seq!['(']);
    match find_first(s, &p) {
        Some(i) => {
            assert(first_match_from(s@, seq!['('], 0) == Some(i as int));
            let r = chars_between(s, 0, i);
            assert(r@ =~= s@.take(i as int));
            r
        },
        None => {
            let r = chars_between(s, 0, s.len());
            assert(r@ =~= s@);
            r
        },
    }
}

/// `s` without its leading dots.
fn trim_dots_of(s: &Vec<char>) -> (r: String)
    ensures
        r@ == trim_dots(s@),
{
    let mut i: usize = 0;
    assert(s@.skip(0) =~= s@);
    while i < s.len() && s[i] == '.'
        invariant
            i <= s@.len(),
            trim_dots(s@) == trim_dots(s@.skip(i as int)),
        decreases s@.len() - i,
    {
        assert(s@.skip(i as int).drop_first() =~= s@.skip(i + 1));
        i += 1;
    }
    let r = string_of(s, i, s.len());
    assert(s@.subrange(i as int, s@.len() as int) =~= s@.skip(i as int));
    r
}

/// The position of the first entry of `v` with key `k`.
fn find_key<V>(v: &Vec<(String, V)>, k: &String) -> (r: Option<usize>)
    ensures
        match key_index(v@, k@, 0) {
            Some(i) => r == Some(i as usize),
            None => r is None,
        },
        r matches Some(i) ==> i < v@.len() && key_index(v@, k@, 0) == Some(i as int),
{
    let n = v.len();
    let mut i: usize = 0;
    while i < n
        invariant
            n == v@.len(),
            i <= n,
            key_index(v@, k@, 0) == key_index(v@, k@, i as int),
        decreases n - i,
    {
        if v[i].0 == *k {
            return Some(i);
        }
        i += 1;
    }
    None
}

/// The view of an optional string.
pub open spec fn opt_text(o: Option<String>) -> Option<Seq<char>> {
    match o {
        Some(s) => Some(s@),
        None => None,
    }
}

/// One line rewritten, with the module and instance it leaves the reader
/// in.
fn remap_one(
    module: &mut Option<String>,
    instance: &mut Option<String>,
    line: &Vec<char>,
    m: &EnumRemapping,
) -> (r: String)
    ensures
        ((RemapState { module: opt_text(*final(module)), instance: opt_text(*final(instance)) }), r@)
            == remap_line(
            RemapState { module: opt_text(*old(module)), instance: opt_text(*old(instance)) },
            line@,
            m@,
        ),
{
    let ghost st = RemapState { module: opt_text(*module), instance: opt_text(*instance) };
    let t = trimmed(line);
    let toks = line_tokens(&t, 0, t.len());
    assert(t@.subrange(0, t@.len() as int) =~= t@);
    let text = string_of(line, 0, line.len());
    assert(line@.subrange(0, line@.len() as int) =~= line@);
    if starts_with_chars(&t, "endmodule") {
        *module = None;
        *instance = None;
        return text;
    }
    if starts_with_chars(&t, "module") {
        if toks.len() > 1 {
            assert(string_views(toks@)[1] == toks@[1]@);
            let name = chars_of(toks[1].as_str());
            let base = before_paren_of(&name);
            *module = Some(string_of(&base, 0, base.len()));
            assert(base@.subrange(0, base@.len() as int) =~= base@);
        }
        *instance = None;
        return text;
    }
    let d = match module {
        Some(d) => d.clone(),
        None => {
            return text;
        },
    };
    let di = match find_key(m, &d) {
        Some(di) => di,
        None => {
            return text;
        },
    };
    let insts = &m[di].1;
    if ends_with_chars(&t, ");") {
        *instance = None;
        return text;
    }
    if ends_with_chars(&t, "(") {
        if toks.len() > 1 {
            assert(string_views(toks@)[1] == toks@[1]@);
            *instance = Some(toks[1].clone());
        }
        return text;
    }
    let i = match instance {
        Some(i) => i.clone(),
        None => {
            return text;
        },
    };
    let ii = match find_key(insts, &i) {
        Some(ii) => ii,
        None => {
            return text;
        },
    };
    let ports = &insts[ii].1;
    if !starts_with_chars(&t, ".") {
        return text;
    }
    let port = trim_dots_of(&before_paren_of(&t));
    match find_key(ports, &port) {
        Some(pi) => rewrite_port_connection(text.as_str(), ports[pi].1.as_str()),
        None => text,
    }
}

/// The rewrite of non-empty `lines` is that of all but the last, then the
/// last line read in the state they leave.
proof fn lemma_remap_lines_last(lines: Seq<Seq<char>>, m: Seq<(String, Vec<(String, Vec<(String, String)>)>)>)
    requires
        lines.len() >= 1,
    ensures
        remap_lines(lines, m) == ({
            let (st, out) = remap_lines(lines.drop_last(), m);
            let (st2, l) = remap_line(st, lines.last(), m);
            (st2, out.push(l))
        }),
{
}

/// Casts the connections of the listed instance ports to their enum types.
/// Reading line by line, a `module` line opens the module named by its
/// second word and `endmodule` closes it; in a module that `enum_remapping`
/// lists, a line ending in `(` opens the instance named by its second word
/// and one ending in `);` closes it; in an instance that the module lists,
/// the connection `.port(expr)` of each listed port becomes
/// `.port(Enum'(expr))`. Every other line is kept as it is.
pub fn remap_enum_types(text: String, enum_remapping: &EnumRemapping) -> (r: String)
    requires
        remapping_wf(enum_remapping@),
    ensures
        r@ == spec_remap_enum_types(text@, enum_remapping@),
{
    let chars = chars_of(text.as_str());
    let n = chars.len();
    let mut out = String::new();
    let mut module: Option<String> = None;
    let mut instance: Option<String> = None;
    let mut cur: Vec<char> = Vec::new();
    assert(text@.take(0) =~= Seq::<char>::empty());
    for k in 0..n
        invariant
            n == chars@.len(),
            chars@ == text@,
            split_lines(text@.take(k as int)).len() >= 1,
            cur@ == split_lines(text@.take(k as int)).last(),
            ({
                let (st, outs) = remap_lines(split_lines(text@.take(k as int)).drop_last(), enum_remapping@);
                &&& out@ == with_newlines(outs)
                &&& st == (RemapState { module: opt_text(module), instance: opt_text(instance) })
            }),
    {
        let c = chars[k];
        let ghost t1 = text@.take(k + 1);
        let ghost prev = split_lines(text@.take(k as int));
        proof {
            assert(t1.drop_last() =~= text@.take(k as int));
            assert(t1.last() == c);
        }
        if c == '\n' {
            let ghost outs = remap_lines(prev.drop_last(), enum_remapping@).1;
            let line = remap_one(&mut module, &mut instance, &cur, enum_remapping);
            push_str(&mut out, line.as_str());
            string_push(&mut out, '\n');
            cur = Vec::new();
            proof {
                assert(split_lines(t1) == prev.push(Seq::empty()));
                assert(split_lines(t1).drop_last() =~= prev);
                lemma_remap_lines_last(prev, enum_remapping@);
                assert(outs.push(line@).drop_last() =~= outs);
                assert(out@ =~= with_newlines(outs.push(line@)));
            }
        } else {
            cur.push(c);
            proof {
                assert(split_lines(t1) == prev.update(prev.len() - 1, prev.last().push(c)));
                assert(split_lines(t1).drop_last() =~= prev.drop_last());
            }
        }
    }
    assert(text@.take(n as int) =~= text@);
    let ghost lines = split_lines(text@);
    let ghost outs = remap_lines(lines.drop_last(), enum_remapping@).1;
    let line = remap_one(&mut module, &mut instance, &cur, enum_remapping);
    push_str(&mut out, line.as_str());
    proof {
        lemma_remap_lines_last(lines, enum_remapping@);
        assert(outs.push(line@).drop_last() =~= outs);
    }
    out
}

/// In entries with distinct keys, the search from `i` finds the entry at
/// `j >= i` whose key is `k`, wherever `j` lies.
proof fn lemma_key_index_finds<V>(s: Seq<(String, V)>, k: Seq<char>, i: int, j: int)
    requires
        keys_distinct(s),
        0 <= i <= j < s.len(),
        s[j].0@ == k,
    ensures
        key_index(s, k, i) == Some(j),
    decreases j - i,
{
    if i < j {
        assert(s[i].0@ != s[j].0@);
        lemma_key_index_finds(s, k, i + 1, j);
    }
}

/// The search finds nothing when no entry has key `k`.
proof fn lemma_key_index_absent<V>(s: Seq<(String, V)>, k: Seq<char>, i: int)
    requires
        forall|j: int| 0 <= j < s.len() ==> (#[trigger] s[j]).0@ != k,
    ensures
        key_index(s, k, i) == None::<int>,
    decreases s.len() - i,
{
    if 0 <= i < s.len() {
        lemma_key_index_absent(s, k, i + 1);
    }
}

/// A trimmed line that starts with `.` opens or closes no module.
proof fn lemma_dot_line_is_no_module_line(t: Seq<char>)
    requires
        matches_at(t, "."@, 0),
    ensures
        !matches_at(t, "module"@, 0),
        !matches_at(t, "endmodule"@, 0),
{
    reveal_strlit(".");
    reveal_strlit("module");
    reveal_strlit("endmodule");
    assert(t.subrange(0, 1)[0] == t[0]);
    if matches_at(t, "module"@, 0) {
        assert(t.subrange(0, 6)[0] == t[0]);
    }
    if matches_at(t, "endmodule"@, 0) {
        assert(t.subrange(0, 9)[0] == t[0]);
    }
}

/// Inside instance `ii` of module `di` of a well-formed remapping, a
/// connection line `.p(...)` (one that neither opens nor closes an
/// instance) is cast to the enum type listed for port `p` of that
/// instance, whatever `p`'s position among the instance's ports; a port
/// listed nowhere among them leaves the line as it is. The state is kept.
pub proof fn lemma_remap_casts_listed_port(
    st: RemapState,
    line: Seq<char>,
    m: Seq<(String, Vec<(String, Vec<(String, String)>)>)>,
    di: int,
    ii: int,
)
    requires
        remapping_wf(m),
        0 <= di < m.len(),
        0 <= ii < m[di].1@.len(),
        st.module == Some(m[di].0@),
        st.instance == Some(m[di].1@[ii].0@),
        matches_at(trim(line), "."@, 0),
        !ends_with(trim(line), ");"@),
        !ends_with(trim(line), "("@),
    ensures
        forall|pj: int|
            0 <= pj < m[di].1@[ii].1@.len() && (#[trigger] m[di].1@[ii].1@[pj]).0@ == trim_dots(
                before_paren(trim(line)),
            ) ==> remap_line(st, line, m) == (st, enum_cast_rewrite(line, m[di].1@[ii].1@[pj].1@)),
        (forall|pj: int|
            0 <= pj < m[di].1@[ii].1@.len() ==> (#[trigger] m[di].1@[ii].1@[pj]).0@ != trim_dots(
                before_paren(trim(line)),
            )) ==> remap_line(st, line, m) == (st, line),
{
    let t = trim(line);
    let ports = m[di].1@[ii].1@;
    let k = trim_dots(before_paren(t));
    lemma_dot_line_is_no_module_line(t);
    lemma_key_index_finds(m, m[di].0@, 0, di);
    assert(keys_distinct(m[di].1@));
    lemma_key_index_finds(m[di].1@, m[di].1@[ii].0@, 0, ii);
    assert(keys_distinct(m[di].1@[ii].1@));
    assert forall|pj: int|
        0 <= pj < ports.len() && (#[trigger] ports[pj]).0@ == k implies remap_line(st, line, m) == (
        st,
        enum_cast_rewrite(line, ports[pj].1@),
    ) by {
        lemma_key_index_finds(ports, k, 0, pj);
    }
    if forall|pj: int| 0 <= pj < ports.len() ==> (#[trigger] ports[pj]).0@ != k {
        lemma_key_index_absent(ports, k, 0);
    }
}

/// How each line moves the reader, for a well-formed remapping: an
/// `endmodule` line leaves every module; a `module` line with a name enters
/// that module (up to its `(`) and no instance; inside listed module `di`,
/// a line ending in `);` leaves the instance, and another ending in `(`
/// enters the instance named by its second word. No line other than a
/// `.port(...)` line inside an instance is ever rewritten.
pub proof fn lemma_remap_state_moves(
    st: RemapState,
    line: Seq<char>,
    m: Seq<(String, Vec<(String, Vec<(String, String)>)>)>,
    di: int,
)
    requires
        remapping_wf(m),
        0 <= di < m.len(),
    ensures
        matches_at(trim(line), "endmodule"@, 0) ==> remap_line(st, line, m) == (
            RemapState { module: None, instance: None },
            line,
        ),
        !matches_at(trim(line), "endmodule"@, 0) && matches_at(trim(line), "module"@, 0)
            && tokens_of(trim(line)).len() > 1 ==> remap_line(st, line, m) == (
            RemapState { module: Some(before_paren(tokens_of(trim(line))[1])), instance: None },
            line,
        ),
        st.module == Some(m[di].0@) && !matches_at(trim(line), "endmodule"@, 0) && !matches_at(
            trim(line),
            "module"@,
            0,
        ) && ends_with(trim(line), ");"@) ==> remap_line(st, line, m) == (
            RemapState { module: st.module, instance: None },
            line,
        ),
        st.module == Some(m[di].0@) && !matches_at(trim(line), "endmodule"@, 0) && !matches_at(
            trim(line),
            "module"@,
            0,
        ) && !ends_with(trim(line), ");"@) && ends_with(trim(line), "("@) && tokens_of(trim(line)).len()
            > 1 ==> remap_line(st, line, m) == (
            RemapState { module: st.module, instance: Some(tokens_of(trim(line))[1]) },
            line,
        ),
        remap_line(st, line, m).1 != line ==> st.module is Some && st.instance is Some && matches_at(
            trim(line),
            "."@,
            0,
        ),
{
    lemma_key_index_finds(m, m[di].0@, 0, di);
}

} // verus!
