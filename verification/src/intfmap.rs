use vstd::prelude::*;

use crate::inout::{matches_at, matches_at_exec};
use crate::text::{chars_of, push_str, string_of};

verus! {

broadcast use vstd::string::group_string_axioms;

/// An interface definition: for each function name, in order, the port and
/// the bits (`msb`, `lsb`) that provide it.
pub type IntfMapping = Vec<(String, (String, usize, usize))>;

/// The view of an interface definition.
pub open spec fn mapping_view(m: Seq<(String, (String, usize, usize))>) -> Seq<(Seq<char>, (Seq<char>, usize, usize))> {
    m.map_values(|e: (String, (String, usize, usize))| (e.0@, (e.1.0@, e.1.1, e.1.2)))
}

/// Why no interface could be defined.
#[derive(Clone, Copy, Debug, PartialEq, Eq, Structural)]
pub enum IntfError {
    /// No port matched.
    EmptyInterface,
}

/// The position of the first entry of `m` with function name `k`.
pub open spec fn entry_index(m: Seq<(Seq<char>, (Seq<char>, usize, usize))>, k: Seq<char>, i: int) -> Option<int>
    decreases m.len() - i,
{
    if i < 0 || i >= m.len() {
        None
    } else if m[i].0 == k {
        Some(i)
    } else {
        entry_index(m, k, i + 1)
    }
}

/// `m` with function `k` provided by `v`: an existing function keeps its
/// place and takes the new port slice, a new one is appended.
pub open spec fn insert_entry(
    m: Seq<(Seq<char>, (Seq<char>, usize, usize))>,
    k: Seq<char>,
    v: (Seq<char>, usize, usize),
) -> Seq<(Seq<char>, (Seq<char>, usize, usize))> {
    match entry_index(m, k, 0) {
        Some(i) => m.update(i, (k, v)),
        None => m.push((k, v)),
    }
}

/// The position of the first of `prefixes`, from `i` on, that `name`
/// starts with.
pub open spec fn first_prefix(prefixes: Seq<Seq<char>>, name: Seq<char>, i: int) -> Option<int>
    decreases prefixes.len() - i,
{
    if i < 0 || i >= prefixes.len() {
        None
    } else if matches_at(name, prefixes[i], 0) {
        Some(i)
    } else {
        first_prefix(prefixes, name, i + 1)
    }
}

/// The definition built from `ports` (each a name and a width), in order:
/// a port that starts with one of `prefixes` provides all its bits to the
/// function named by the port, or by the port without the first such
/// prefix when `strip` is set.
pub open spec fn prefix_mapping(ports: Seq<(Seq<char>, usize)>, prefixes: Seq<Seq<char>>, strip: bool) -> Seq<
    (Seq<char>, (Seq<char>, usize, usize)),
>
    decreases ports.len(),
{
    if ports.len() == 0 {
        Seq::empty()
    } else {
        let prev = prefix_mapping(ports.drop_last(), prefixes, strip);
        let (name, width) = ports.last();
        match first_prefix(prefixes, name, 0) {
            Some(p) => insert_entry(
                prev,
                if strip {
                    name.skip(prefixes[p].len() as int)
                } else {
                    name
                },
                (name, (width - 1) as usize, 0),
            ),
            None => prev,
        }
    }
}

/// The views of ports.
pub open spec fn ports_view(ports: Seq<(String, usize)>) -> Seq<(Seq<char>, usize)> {
    ports.map_values(|p: (String, usize)| (p.0@, p.1))
}

/// The views of strings.
pub open spec fn names_view(v: Seq<String>) -> Seq<Seq<char>> {
    v.map_values(|s: String| s@)
}

/// Every port that a prefix selects has at least one bit.
pub open spec fn selected_ports_have_bits(ports: Seq<(Seq<char>, usize)>, prefixes: Seq<Seq<char>>) -> bool {
    forall|j: int|
        0 <= j < ports.len() && first_prefix(prefixes, ports[j].0, 0) is Some ==> #[trigger] ports[j].1
            >= 1
}

/// The position of the first entry of `m` with function name `k`.
fn find_entry(m: &IntfMapping, k: &String) -> (r: Option<usize>)
    ensures
        match entry_index(mapping_view(m@), k@, 0) {
            Some(i) => r == Some(i as usize),
            None => r is None,
        },
        r matches Some(i) ==> i < m@.len() && entry_index(mapping_view(m@), k@, 0) == Some(i as int),
{
    let ghost mv = mapping_view(m@);
    let n = m.len();
    let mut i: usize = 0;
    while i < n
        invariant
            n == m@.len(),
            mv == mapping_view(m@),
            i <= n,
            entry_index(mv, k@, 0) == entry_index(mv, k@, i as int),
        decreases n - i,
    {
        assert(mv[i as int].0 == m@[i as int].0@);
        if m[i].0 == *k {
            return Some(i);
        }
        i += 1;
    }
    None
}

/// Sets function `k` of `m` to be provided by `v`.
fn insert_entry_exec(m: &mut IntfMapping, k: String, v: (String, usize, usize))
    ensures
        mapping_view(final(m)@) == insert_entry(mapping_view(old(m)@), k@, (v.0@, v.1, v.2)),
{
    let ghost before = mapping_view(m@);
    match find_entry(m, &k) {
        Some(i) => {
            m.set(i, (k, v));
            assert(mapping_view(m@) =~= before.update(i as int, (k@, (v.0@, v.1, v.2))));
        },
        None => {
            m.push((k, v));
            assert(mapping_view(m@) =~= before.push((k@, (v.0@, v.1, v.2))));
        },
    }
}

/// The first of `prefixes` that `name` starts with.
fn find_prefix(prefixes: &Vec<String>, name: &Vec<char>) -> (r: Option<usize>)
    ensures
        match first_prefix(names_view(prefixes@), name@, 0) {
            Some(i) => r == Some(i as usize),
            None => r is None,
        },
        r matches Some(i) ==> i < prefixes@.len() && first_prefix(names_view(prefixes@), name@, 0)
            == Some(i as int),
{
    let ghost pv = names_view(prefixes@);
    let n = prefixes.len();
    let mut i: usize = 0;
    while i < n
        invariant
            n == prefixes@.len(),
            pv == names_view(prefixes@),
            i <= n,
            first_prefix(pv, name@, 0) == first_prefix(pv, name@, i as int),
        decreases n - i,
    {
        let p = chars_of(prefixes[i].as_str());
        if matches_at_exec(name, &p, 0) {
            return Some(i);
        }
        i += 1;
    }
    None
}

/// Where `first_prefix` finds a prefix, `name` starts with it.
proof fn lemma_first_prefix_found(prefixes: Seq<Seq<char>>, name: Seq<char>, i: int)
    ensures
        first_prefix(prefixes, name, i) matches Some(p) ==> i <= p < prefixes.len() && matches_at(
            name,
            prefixes[p],
            0,
        ),
    decreases prefixes.len() - i,
{
    if 0 <= i < prefixes.len() && !matches_at(name, prefixes[i], 0) {
        lemma_first_prefix_found(prefixes, name, i + 1);
    }
}

/// Defines an interface from the ports of a module (each a name and a
/// width, in order) that start with one of `prefixes`: each such port
/// provides all its bits to a function named by the port, or by the port
/// without the first prefix it starts with when `strip_prefix` is set. A
/// later port with the same function name takes the function over. It is
/// an error for no port to match.
pub fn intf_mapping_from_prefixes(
    ports: &Vec<(String, usize)>,
    prefixes: &Vec<String>,
    strip_prefix: bool,
) -> (r: Result<IntfMapping, IntfError>)
    requires
        selected_ports_have_bits(ports_view(ports@), names_view(prefixes@)),
    ensures
        match r {
            Ok(m) => mapping_view(m@) == prefix_mapping(
                ports_view(ports@),
                names_view(prefixes@),
                strip_prefix,
            ) && m@.len() > 0,
            Err(e) => e == IntfError::EmptyInterface && prefix_mapping(
                ports_view(ports@),
                names_view(prefixes@),
                strip_prefix,
            ).len() == 0,
        },
{
    let ghost pv = ports_view(ports@);
    let ghost xv = names_view(prefixes@);
    let mut m: IntfMapping = Vec::new();
    assert(pv.take(0) =~= Seq::<(Seq<char>, usize)>::empty());
    assert(mapping_view(m@) =~= Seq::<(Seq<char>, (Seq<char>, usize, usize))>::empty());
    for j in 0..ports.len()
        invariant
            pv == ports_view(ports@),
            xv == names_view(prefixes@),
            selected_ports_have_bits(pv, xv),
            mapping_view(m@) == prefix_mapping(pv.take(j as int), xv, strip_prefix),
    {
        assert(pv.take(j + 1).drop_last() =~= pv.take(j as int));
        assert(pv.take(j + 1).last() == pv[j as int]);
        let name = chars_of(ports[j].0.as_str());
        match find_prefix(prefixes, &name) {
            Some(p) => {
                let width = ports[j].1;
                assert(pv[j as int].1 >= 1);
                let func = if strip_prefix {
                    let plen = chars_of(prefixes[p].as_str()).len();
                    proof {
                        lemma_first_prefix_found(xv, name@, 0);
                    }
                    assert(matches_at(name@, xv[p as int], 0));
                    let f = string_of(&name, plen, name.len());
                    assert(name@.subrange(plen as int, name@.len() as int) =~= name@.skip(plen as int));
                    f
                } else {
                    ports[j].0.clone()
                };
                insert_entry_exec(&mut m, func, (ports[j].0.clone(), width - 1, 0));
            },
            None => {},
        }
    }
    assert(pv.take(ports@.len() as int) =~= pv);
    if m.len() == 0 {
        Err(IntfError::EmptyInterface)
    } else {
        Ok(m)
    }
}

/// Defines the interface named `name` from the ports that start with
/// `name_`, each providing the function named by the rest of the port name.
pub fn intf_mapping_from_name_underscore(ports: &Vec<(String, usize)>, name: &str) -> (r: Result<
    IntfMapping,
    IntfError,
>)
    requires
        selected_ports_have_bits(ports_view(ports@), seq![name@ + "_"@]),
    ensures
        match r {
            Ok(m) => mapping_view(m@) == prefix_mapping(ports_view(ports@), seq![name@ + "_"@], true)
                && m@.len() > 0,
            Err(e) => e == IntfError::EmptyInterface && prefix_mapping(
                ports_view(ports@),
                seq![name@ + "_"@],
                true,
            ).len() == 0,
        },
{
    let mut prefix = String::new();
    push_str(&mut prefix, name);
    push_str(&mut prefix, "_");
    let mut prefixes: Vec<String> = Vec::new();
    prefixes.push(prefix);
    assert(names_view(prefixes@) =~= seq![name@ + "_"@]);
    intf_mapping_from_prefixes(ports, &prefixes, true)
}

} // verus!
