use vstd::prelude::*;

use crate::io::IO;
use crate::validation::Usage;

verus! {

/// The direction of a port as the Verilog front end reports it.
#[derive(Clone, Copy, Debug, PartialEq, Eq, Structural)]
pub enum PortDir {
    Input,
    Output,
    InOut,
}

/// What the Verilog front end reports of a port: its name, direction and
/// width, and the enum type it has where it is a scalar of an enum type
/// (no packed or unpacked dimensions).
pub struct ParserPort {
    pub name: String,
    pub dir: PortDir,
    pub width: usize,
    pub scalar_enum: Option<String>,
}

/// A module definition built from the ports of a parsed Verilog module:
/// its ports and, for each scalar enum input, the enum type, each in the
/// order of first mention. It is emitted as nothing: its definition comes
/// from the Verilog sources.
pub struct ParsedModDef {
    pub name: String,
    pub ports: Vec<(String, IO)>,
    pub enum_ports: Vec<(String, String)>,
    pub usage: Usage,
}

/// The direction and width of a port.
pub open spec fn spec_port_io(p: ParserPort) -> IO {
    match p.dir {
        PortDir::Input => IO::Input(p.width),
        PortDir::Output => IO::Output(p.width),
        PortDir::InOut => IO::InOut(p.width),
    }
}

/// The first position at or after `i` of an entry of `s` with key `k`.
pub open spec fn first_key<V>(s: Seq<(Seq<char>, V)>, k: Seq<char>, i: int) -> Option<int>
    decreases s.len() - i,
{
    if i < 0 || i >= s.len() {
        None
    } else if s[i].0 == k {
        Some(i)
    } else {
        first_key(s, k, i + 1)
    }
}

/// Inserting into a map that keeps its keys in order of first insertion:
/// a new key goes last, a known key keeps its place and takes the value.
pub open spec fn ordered_insert<V>(s: Seq<(Seq<char>, V)>, k: Seq<char>, v: V) -> Seq<(Seq<char>, V)> {
    match first_key(s, k, 0) {
        Some(i) => s.update(i, (k, v)),
        None => s.push((k, v)),
    }
}

/// The ports and enum inputs that the parser ports `ps` give, read in
/// order.
pub open spec fn spec_parsed_ports(ps: Seq<ParserPort>) -> (Seq<(Seq<char>, IO)>, Seq<(Seq<char>, Seq<char>)>)
    decreases ps.len(),
{
    if ps.len() == 0 {
        (Seq::empty(), Seq::empty())
    } else {
        let prev = spec_parsed_ports(ps.drop_last());
        let p = ps.last();
        (
            ordered_insert(prev.0, p.name@, spec_port_io(p)),
            match p.scalar_enum {
                Some(e) => if p.dir is Input {
                    ordered_insert(prev.1, p.name@, e@)
                } else {
                    prev.1
                },
                None => prev.1,
            },
        )
    }
}

/// The entries of a map with text keys, as plain text.
pub open spec fn entries_view<V>(v: Seq<(String, V)>) -> Seq<(Seq<char>, V)> {
    v.map_values(|e: (String, V)| (e.0@, e.1))
}

/// The entries of a map with text keys and values, as plain text.
pub open spec fn text_entries_view(v: Seq<(String, String)>) -> Seq<(Seq<char>, Seq<char>)> {
    v.map_values(|e: (String, String)| (e.0@, e.1@))
}

/// The position of the first entry of `v` with key `k`.
pub(crate) fn find_entry<V>(v: &Vec<(String, V)>, k: &String) -> (r: Option<usize>)
    ensures
        match first_key(entries_view(v@), k@, 0) {
            Some(i) => r == Some(i as usize),
            None => r is None,
        },
        r matches Some(i) ==> i < v@.len() && first_key(entries_view(v@), k@, 0) == Some(i as int),
{
    let n = v.len();
    let mut i: usize = 0;
    while i < n
        invariant
            n == v@.len(),
            i <= n,
            first_key(entries_view(v@), k@, 0) == first_key(entries_view(v@), k@, i as int),
        decreases n - i,
    {
        assert(entries_view(v@)[i as int].0 == v@[i as int].0@);
        if v[i].0 == *k {
            return Some(i);
        }
        i += 1;
    }
    None
}

/// Inserts `(k, val)` into `v`, keeping keys in order of first insertion.
fn insert_entry<V>(v: &mut Vec<(String, V)>, k: &String, val: V)
    ensures
        entries_view(final(v)@) == ordered_insert(entries_view(old(v)@), k@, val),
{
    let ghost before = entries_view(v@);
    match find_entry(v, k) {
        Some(i) => {
            let key = k.clone();
            v.set(i, (key, val));
            assert(entries_view(v@) =~= before.update(i as int, (k@, val)));
            assert(first_key(before, k@, 0) == Some(i as int));
            assert(ordered_insert(before, k@, val) == before.update(i as int, (k@, val)));
        },
        None => {
            v.push((k.clone(), val));
            assert(entries_view(v@) =~= before.push((k@, val)));
        },
    }
}

/// Inserts `(k, val)` into `v`, keeping keys in order of first insertion.
fn insert_text_entry(v: &mut Vec<(String, String)>, k: &String, val: &String)
    ensures
        text_entries_view(final(v)@) == ordered_insert(text_entries_view(old(v)@), k@, val@),
{
    let ghost before = text_entries_view(v@);
    let n = v.len();
    let mut i: usize = 0;
    while i < n
        invariant
            n == v@.len(),
            i <= n,
            before == text_entries_view(v@),
            before == text_entries_view(old(v)@),
            first_key(before, k@, 0) == first_key(before, k@, i as int),
        decreases n - i,
    {
        assert(before[i as int].0 == v@[i as int].0@);
        if v[i].0 == *k {
            assert(first_key(before, k@, i as int) == Some(i as int));
            v.set(i, (k.clone(), val.clone()));
            assert(text_entries_view(v@) =~= before.update(i as int, (k@, val@)));
            assert(first_key(before, k@, 0) == Some(i as int));
            assert(ordered_insert(before, k@, val@) == before.update(i as int, (k@, val@)));
            return;
        }
        i += 1;
    }
    v.push((k.clone(), val.clone()));
    assert(text_entries_view(v@) =~= before.push((k@, val@)));
}

/// Builds the definition of module `mod_def_name` from the ports the
/// Verilog front end reports: each port with its direction and width, and
/// each scalar enum input with its enum type, in order of first mention (a
/// port named again takes the later direction and width in its first
/// place). The definition is not emitted.
pub fn mod_def_from_parser_ports(mod_def_name: &str, parser_ports: &Vec<ParserPort>) -> (r: ParsedModDef)
    ensures
        r.name@ == mod_def_name@,
        entries_view(r.ports@) == spec_parsed_ports(parser_ports@).0,
        text_entries_view(r.enum_ports@) == spec_parsed_ports(parser_ports@).1,
        r.usage == Usage::EmitNothingAndStop,
{
    let mut ports: Vec<(String, IO)> = Vec::new();
    let mut enum_ports: Vec<(String, String)> = Vec::new();
    assert(parser_ports@.take(0) =~= Seq::<ParserPort>::empty());
    for k in 0..parser_ports.len()
        invariant
            entries_view(ports@) == spec_parsed_ports(parser_ports@.take(k as int)).0,
            text_entries_view(enum_ports@) == spec_parsed_ports(parser_ports@.take(k as int)).1,
    {
        assert(parser_ports@.take(k + 1).drop_last() =~= parser_ports@.take(k as int));
        assert(parser_ports@.take(k + 1).last() == parser_ports@[k as int]);
        let p = &parser_ports[k];
        let io = match p.dir {
            PortDir::Input => IO::Input(p.width),
            PortDir::Output => IO::Output(p.width),
            PortDir::InOut => IO::InOut(p.width),
        };
        insert_entry(&mut ports, &p.name, io);
        match &p.scalar_enum {
            Some(e) => {
                if p.dir == PortDir::Input {
                    insert_text_entry(&mut enum_ports, &p.name, e);
                }
            },
            None => {},
        }
    }
    assert(parser_ports@.take(parser_ports@.len() as int) =~= parser_ports@);
    ParsedModDef {
        name: String::from_str(mod_def_name),
        ports,
        enum_ports,
        usage: Usage::EmitNothingAndStop,
    }
}

} // verus!
