use indexmap::IndexMap;
use vstd::prelude::*;
use vstd::set_lib::{lemma_int_range, lemma_len_subset, set_int_range};

use crate::inout::{is_whitespace, is_whitespace_char, split_lines};
use crate::io::IO;
use crate::lefparse::{
    clean_lef_token, parse_pin_name, spec_clean_token, spec_parse_pin_name, spec_pin_direction,
    PinDirection,
};
use crate::text::{chars_of, string_of, string_push};

verus! {

broadcast use vstd::string::group_string_axioms;

/// The whitespace-separated words of `s`, as `str::split_whitespace`
/// gives them.
pub open spec fn tokens_of(s: Seq<char>) -> Seq<Seq<char>>
    decreases s.len(),
{
    if s.len() == 0 {
        Seq::empty()
    } else if is_whitespace(s.last()) {
        tokens_of(s.drop_last())
    } else if s.len() >= 2 && !is_whitespace(s[s.len() - 2]) {
        let t = tokens_of(s.drop_last());
        t.update(t.len() - 1, t.last().push(s.last()))
    } else {
        tokens_of(s.drop_last()).push(seq![s.last()])
    }
}

/// The views of a sequence of strings.
pub open spec fn string_views(v: Seq<String>) -> Seq<Seq<char>> {
    v.map_values(|s: String| s@)
}

/// An ASCII lower-case letter in upper case; any other character as it is.
pub open spec fn upper_char(c: char) -> char {
    if 'a' <= c <= 'z' {
        ((c as u32) - 32) as char
    } else {
        c
    }
}

/// `s` with its ASCII letters in upper case, as `str::to_ascii_uppercase`
/// gives it.
pub open spec fn upper(s: Seq<char>) -> Seq<char> {
    s.map_values(|c: char| upper_char(c))
}

/// The words of `chars[start..end]`.
pub(crate) fn line_tokens(chars: &Vec<char>, start: usize, end: usize) -> (r: Vec<String>)
    requires
        start <= end <= chars@.len(),
    ensures
        string_views(r@) == tokens_of(chars@.subrange(start as int, end as int)),
{
    let mut toks: Vec<String> = Vec::new();
    let mut cur: usize = start;
    let mut in_tok = false;
    assert(chars@.subrange(start as int, start as int) =~= Seq::<char>::empty());
    for k in start..end
        invariant
            start <= end <= chars@.len(),
            in_tok ==> start <= cur < k,
            in_tok ==> !is_whitespace(chars@[k - 1]),
            in_tok ==> string_views(toks@).push(chars@.subrange(cur as int, k as int)) == tokens_of(
                chars@.subrange(start as int, k as int),
            ),
            in_tok ==> (cur == start || is_whitespace(chars@[cur - 1])),
            !in_tok ==> string_views(toks@) == tokens_of(chars@.subrange(start as int, k as int)),
            !in_tok ==> (k == start || is_whitespace(chars@[k - 1])),
    {
        let c = chars[k];
        let ghost pre = chars@.subrange(start as int, k as int);
        let ghost post = chars@.subrange(start as int, k + 1);
        assert(post.drop_last() =~= pre);
        assert(post.last() == c);
        if is_whitespace_char(c) {
            if in_tok {
                let t = string_of(chars, cur, k);
                let ghost before = toks@;
                toks.push(t);
                in_tok = false;
                assert(string_views(toks@) =~= string_views(before).push(t@));
            }
        } else {
            if !in_tok {
                cur = k;
                in_tok = true;
                assert(chars@.subrange(cur as int, k + 1) =~= seq![c]);
            } else {
                assert(chars@.subrange(cur as int, k + 1) =~= chars@.subrange(cur as int, k as int).push(c));
            }
        }
    }
    if in_tok {
        let t = string_of(chars, cur, end);
        let ghost before = toks@;
        toks.push(t);
        assert(string_views(toks@) =~= string_views(before).push(t@));
    }
    toks
}

/// `c` with an ASCII lower-case letter put in upper case.
fn upper_char_exec(c: char) -> (r: char)
    ensures
        r == upper_char(c),
{
    if 'a' <= c && c <= 'z' {
        let b = (c as u32 - 32) as u8;
        b as char
    } else {
        c
    }
}

/// `s` with its ASCII letters in upper case.
fn upper_string(s: &str) -> (r: String)
    ensures
        r@ == upper(s@),
{
    let chars = chars_of(s);
    let mut out = String::new();
    for k in 0..chars.len()
        invariant
            chars@ == s@,
            out@ == upper(s@.take(k as int)),
    {
        let ghost before = out@;
        string_push(&mut out, upper_char_exec(chars[k]));
        assert(upper(s@.take(k + 1)) =~= before.push(upper_char(chars@[k as int])));
    }
    assert(s@.take(s@.len() as int) =~= s@);
    out
}

/// What went wrong on a line of LEF text.
#[derive(Clone, Copy, Debug, PartialEq, Eq, Structural)]
pub enum LefErrorKind {
    /// A `MACRO` line without a name.
    MissingMacroName,
    /// A `PIN` line without a name.
    MissingPinName,
    /// A `PIN` outside of any `MACRO`.
    PinOutsideMacro,
    /// A `PIN` that names a bit of its port a second time.
    RepeatedBit,
    /// A `DIRECTION` outside of any `MACRO`.
    DirectionOutsideMacro,
    /// A `DIRECTION` outside of any `PIN`.
    DirectionOutsidePin,
    /// A `DIRECTION` that differs from the one given earlier for the port.
    MismatchedDirection,
    /// A `USE` outside of any `MACRO`.
    UseOutsideMacro,
    /// A `USE` outside of any `PIN`.
    UseOutsidePin,
    /// A `USE` that differs from the one given earlier for the port.
    MismatchedUse,
    /// A `LAYER` line inside a `PORT` without a layer name.
    MissingLayerName,
    /// A `RECT` or `POLYGON` inside a `PORT` but outside of any `MACRO`.
    ShapeOutsideMacro,
    /// A `RECT` or `POLYGON` inside a `PORT` but outside of any `PIN`.
    ShapeOutsidePin,
    /// A `RECT` or `POLYGON` before any `LAYER` of its `PORT`.
    ShapeWithoutLayer,
    /// A `RECT` without exactly four numbers.
    InvalidRect,
    /// A `POLYGON` with fewer than six numbers or an odd count.
    InvalidPolygon,
    /// A `SIZE` outside of any `MACRO`.
    SizeOutsideMacro,
    /// A `SIZE` line not of the form `SIZE w BY h`.
    InvalidSize,
}

/// A LEF reading error and the (1-based) number of the line it came from.
#[derive(Clone, Copy, Debug, PartialEq, Eq, Structural)]
pub struct LefParseError {
    pub line: usize,
    pub kind: LefErrorKind,
}

/// The outline of one pin bit: its layer and its points, each coordinate
/// kept as the number text that the LEF gives (in microns).
pub struct LefPinShape {
    pub layer: String,
    pub points: Vec<(String, String)>,
}

/// `indexmap::IndexMap`: a hash map that keeps its entries in the order in
/// which their keys were first inserted.
#[verifier::external_type_specification]
#[verifier::external_body]
#[verifier::reject_recursive_types(K)]
#[verifier::reject_recursive_types(V)]
#[verifier::reject_recursive_types(S)]
pub struct ExIndexMap<K, V, S>(IndexMap<K, V, S>);

/// The entries of a map of port bits, in the map's order.
pub uninterp spec fn bit_entries(m: IndexMap<usize, Option<LefPinShape>>) -> Seq<(usize, Option<LefPinShape>)>;

/// The keys of map entries.
pub open spec fn entry_keys(e: Seq<(usize, Option<LefPinShape>)>) -> Seq<usize> {
    e.map_values(|x: (usize, Option<LefPinShape>)| x.0)
}

/// `IndexMap::new`: a map with no entry.
#[verifier::external_body]
fn bit_map_new() -> (r: IndexMap<usize, Option<LefPinShape>>)
    ensures
        bit_entries(r) == Seq::<(usize, Option<LefPinShape>)>::empty(),
{
    IndexMap::new()
}

/// `IndexMap::len`: the number of entries.
#[verifier::external_body]
fn bit_map_len(m: &IndexMap<usize, Option<LefPinShape>>) -> (r: usize)
    ensures
        r == bit_entries(*m).len(),
{
    m.len()
}

/// `IndexMap::get_index`: the key and value of the entry at position `i`,
/// or `None` past the last entry.
#[verifier::external_body]
fn bit_map_get_index(m: &IndexMap<usize, Option<LefPinShape>>, i: usize) -> (r: Option<(&usize, &Option<LefPinShape>)>)
    ensures
        i < bit_entries(*m).len() ==> r == Some((&bit_entries(*m)[i as int].0, &bit_entries(*m)[i as int].1)),
        i >= bit_entries(*m).len() ==> r is None,
{
    m.get_index(i)
}

/// `IndexMap::insert`: a key already in the map keeps its position and
/// takes the new value, and the old value is returned; a new key is
/// appended as the last entry.
#[verifier::external_body]
fn bit_map_insert(m: &mut IndexMap<usize, Option<LefPinShape>>, key: usize, value: Option<LefPinShape>) -> (r: Option<Option<LefPinShape>>)
    ensures
        match first_index(entry_keys(bit_entries(*old(m))), key, 0) {
            Some(j) => bit_entries(*final(m)) == bit_entries(*old(m)).update(j, (key, value)) && r
                == Some(bit_entries(*old(m))[j].1),
            None => bit_entries(*final(m)) == bit_entries(*old(m)).push((key, value)) && r is None,
        },
{
    m.insert(key, value)
}

/// A port of a macro, gathered from the `PIN` sections of its bits.
pub struct LefPort {
    pub name: String,
    pub direction: Option<PinDirection>,
    pub pin_use: Option<String>,
    /// Each bit that a `PIN` named, in order, with its first kept outline.
    pub bits: IndexMap<usize, Option<LefPinShape>>,
}

/// A `MACRO` of a LEF file.
pub struct LefMacro {
    pub name: String,
    /// The `SIZE` width and height as written (in microns).
    pub width: Option<String>,
    pub height: Option<String>,
    /// The ports, in the order in which they first appear.
    pub pins: Vec<LefPort>,
}

/// A pin outline as text.
#[verifier::ext_equal]
pub struct ShapeView {
    pub layer: Seq<char>,
    pub points: Seq<(Seq<char>, Seq<char>)>,
}

/// A port as text.
#[verifier::ext_equal]
pub struct PortView {
    pub name: Seq<char>,
    pub direction: Option<PinDirection>,
    pub pin_use: Option<Seq<char>>,
    pub bits: Seq<(usize, Option<ShapeView>)>,
}

/// A macro as text.
#[verifier::ext_equal]
pub struct MacroView {
    pub name: Seq<char>,
    pub width: Option<Seq<char>>,
    pub height: Option<Seq<char>>,
    pub pins: Seq<PortView>,
}

/// The view of an optional string.
pub open spec fn opt_view(o: Option<String>) -> Option<Seq<char>> {
    match o {
        Some(s) => Some(s@),
        None => None,
    }
}

/// The views of outline points.
pub open spec fn point_views(v: Seq<(String, String)>) -> Seq<(Seq<char>, Seq<char>)> {
    v.map_values(|p: (String, String)| (p.0@, p.1@))
}

/// The views of the bits of a port.
pub open spec fn bit_views(v: Seq<(usize, Option<LefPinShape>)>) -> Seq<(usize, Option<ShapeView>)> {
    v.map_values(|b: (usize, Option<LefPinShape>)| (b.0, opt_shape_view(b.1)))
}

/// The views of ports.
pub open spec fn port_views(v: Seq<LefPort>) -> Seq<PortView> {
    v.map_values(|p: LefPort| p@)
}

impl View for LefPinShape {
    type V = ShapeView;

    open spec fn view(&self) -> ShapeView {
        ShapeView {
            layer: self.layer@,
            points: point_views(self.points@),
        }
    }
}

/// The view of an optional outline.
pub open spec fn opt_shape_view(o: Option<LefPinShape>) -> Option<ShapeView> {
    match o {
        Some(s) => Some(s@),
        None => None,
    }
}

impl View for LefPort {
    type V = PortView;

    open spec fn view(&self) -> PortView {
        PortView {
            name: self.name@,
            direction: self.direction,
            pin_use: opt_view(self.pin_use),
            bits: bit_views(bit_entries(self.bits)),
        }
    }
}

impl View for LefMacro {
    type V = MacroView;

    open spec fn view(&self) -> MacroView {
        MacroView {
            name: self.name@,
            width: opt_view(self.width),
            height: opt_view(self.height),
            pins: port_views(self.pins@),
        }
    }
}

/// The views of a sequence of macros.
pub open spec fn macro_views(v: Seq<LefMacro>) -> Seq<MacroView> {
    v.map_values(|m: LefMacro| m@)
}

/// What the reader knows between two lines.
#[verifier::ext_equal]
pub struct LefState {
    /// The macros that are complete.
    pub macros: Seq<MacroView>,
    /// The macro being read.
    pub current: Option<MacroView>,
    /// The port and bit of the `PIN` being read.
    pub pin: Option<(Seq<char>, usize)>,
    /// Whether a `PORT` of that pin is open.
    pub in_port: bool,
    /// The last `LAYER` of that port.
    pub layer: Option<Seq<char>>,
    /// The (upper-case) name of the section being skipped.
    pub skipping: Option<Seq<char>>,
}

/// How the text is to be read: the bus bit brackets, the (upper-case)
/// section names to skip and, if given, the only layers whose outlines
/// are kept.
pub struct LefSyntax {
    pub open: char,
    pub close: char,
    pub skip: Seq<Seq<char>>,
    pub valid_layers: Option<Seq<Seq<char>>>,
}

/// The state before the first line.
pub open spec fn initial_state() -> LefState {
    LefState {
        macros: Seq::empty(),
        current: None,
        pin: None,
        in_port: false,
        layer: None,
        skipping: None,
    }
}

/// The first position at or after `i` where `x` occurs in `s`.
pub open spec fn first_index<T>(s: Seq<T>, x: T, i: int) -> Option<int>
    decreases s.len() - i,
{
    if i < 0 || i >= s.len() {
        None
    } else if s[i] == x {
        Some(i)
    } else {
        first_index(s, x, i + 1)
    }
}

/// The names of `pins`.
pub open spec fn port_names(pins: Seq<PortView>) -> Seq<Seq<char>> {
    pins.map_values(|p: PortView| p.name)
}

/// The bit indices of `bits`.
pub open spec fn bit_keys(bits: Seq<(usize, Option<ShapeView>)>) -> Seq<usize> {
    bits.map_values(|b: (usize, Option<ShapeView>)| b.0)
}

/// The position of port `name` among `pins`.
pub open spec fn port_index(pins: Seq<PortView>, name: Seq<char>) -> Option<int> {
    first_index(port_names(pins), name, 0)
}

/// The position of bit `bit` among `bits`.
pub open spec fn bit_index(bits: Seq<(usize, Option<ShapeView>)>, bit: usize) -> Option<int> {
    first_index(bit_keys(bits), bit, 0)
}

/// The pin being read names a bit that the current macro holds.
pub open spec fn state_wf(st: LefState) -> bool {
    st.pin matches Some((b, bit)) ==> {
        &&& st.current is Some
        &&& port_index(st.current.unwrap().pins, b) matches Some(i) && bit_index(
            st.current.unwrap().pins[i].bits,
            bit,
        ) is Some
    }
}

/// The macros read so far, with the one being read.
pub open spec fn finished(st: LefState) -> Seq<MacroView> {
    match st.current {
        Some(m) => st.macros.push(m),
        None => st.macros,
    }
}

/// The non-empty cleaned tokens of `t`, as the numbers of a shape.
pub open spec fn lef_numbers(t: Seq<Seq<char>>) -> Seq<Seq<char>>
    decreases t.len(),
{
    if t.len() == 0 {
        Seq::empty()
    } else {
        let prev = lef_numbers(t.drop_last());
        let c = spec_clean_token(t.last());
        if c.len() > 0 {
            prev.push(c)
        } else {
            prev
        }
    }
}

/// The corners of `RECT x1 y1 x2 y2`.
pub open spec fn rect_points(n: Seq<Seq<char>>) -> Seq<(Seq<char>, Seq<char>)> {
    seq![(n[0], n[1]), (n[0], n[3]), (n[2], n[3]), (n[2], n[1])]
}

/// The points of `POLYGON x1 y1 x2 y2 ...`.
pub open spec fn polygon_points(n: Seq<Seq<char>>) -> Seq<(Seq<char>, Seq<char>)> {
    Seq::new(n.len() / 2, |i: int| (n[2 * i], n[2 * i + 1]))
}

/// `st` with its current macro replaced by `m`.
pub open spec fn with_current(st: LefState, m: MacroView) -> LefState {
    LefState { current: Some(m), ..st }
}

/// A `MACRO` line: the macro being read is complete and a new one opens.
pub open spec fn macro_step(st: LefState, t: Seq<Seq<char>>) -> Result<LefState, LefErrorKind> {
    if t.len() < 2 {
        Err(LefErrorKind::MissingMacroName)
    } else {
        Ok(
            LefState {
                macros: finished(st),
                current: Some(
                    MacroView {
                        name: spec_clean_token(t[1]),
                        width: None,
                        height: None,
                        pins: Seq::empty(),
                    },
                ),
                pin: None,
                in_port: false,
                layer: None,
                skipping: st.skipping,
            },
        )
    }
}

/// A `PIN` line: the bit it names joins its port, which is created if new.
pub open spec fn pin_step(st: LefState, t: Seq<Seq<char>>, syn: LefSyntax) -> Result<
    LefState,
    LefErrorKind,
> {
    if t.len() < 2 {
        Err(LefErrorKind::MissingPinName)
    } else {
        let (base, bit) = spec_parse_pin_name(spec_clean_token(t[1]), syn.open, syn.close);
        match st.current {
            None => Err(LefErrorKind::PinOutsideMacro),
            Some(m) => {
                let pins = match port_index(m.pins, base) {
                    Some(i) => m.pins.update(
                        i,
                        PortView { bits: m.pins[i].bits.push((bit, None)), ..m.pins[i] },
                    ),
                    None => m.pins.push(
                        PortView {
                            name: base,
                            direction: None,
                            pin_use: None,
                            bits: seq![(bit, None)],
                        },
                    ),
                };
                if port_index(m.pins, base) matches Some(i) && bit_index(m.pins[i].bits, bit) is Some {
                    Err(LefErrorKind::RepeatedBit)
                } else {
                    Ok(
                        LefState {
                            current: Some(MacroView { pins, ..m }),
                            pin: Some((base, bit)),
                            in_port: false,
                            layer: None,
                            ..st
                        },
                    )
                }
            },
        }
    }
}

/// A `DIRECTION` line: a known direction is set on the port, or must agree
/// with the one set before; an unknown one is ignored.
pub open spec fn direction_step(st: LefState, t: Seq<Seq<char>>) -> Result<LefState, LefErrorKind> {
    match st.current {
        None => Err(LefErrorKind::DirectionOutsideMacro),
        Some(m) => match st.pin {
            None => Err(LefErrorKind::DirectionOutsidePin),
            Some((b, _)) => {
                if t.len() < 2 {
                    Ok(st)
                } else {
                    match spec_pin_direction(upper(spec_clean_token(t[1]))) {
                        None => Ok(st),
                        Some(d) => {
                            let i = port_index(m.pins, b).unwrap();
                            match m.pins[i].direction {
                                Some(e) => if e == d {
                                    Ok(st)
                                } else {
                                    Err(LefErrorKind::MismatchedDirection)
                                },
                                None => Ok(
                                    with_current(
                                        st,
                                        MacroView {
                                            pins: m.pins.update(
                                                i,
                                                PortView { direction: Some(d), ..m.pins[i] },
                                            ),
                                            ..m
                                        },
                                    ),
                                ),
                            }
                        },
                    }
                }
            },
        },
    }
}

/// A `USE` line: the (upper-case) use is set on the port, or must agree
/// with the one set before.
pub open spec fn use_step(st: LefState, t: Seq<Seq<char>>) -> Result<LefState, LefErrorKind> {
    match st.current {
        None => Err(LefErrorKind::UseOutsideMacro),
        Some(m) => match st.pin {
            None => Err(LefErrorKind::UseOutsidePin),
            Some((b, _)) => {
                if t.len() < 2 {
                    Ok(st)
                } else {
                    let u = upper(spec_clean_token(t[1]));
                    let i = port_index(m.pins, b).unwrap();
                    match m.pins[i].pin_use {
                        Some(e) => if e == u {
                            Ok(st)
                        } else {
                            Err(LefErrorKind::MismatchedUse)
                        },
                        None => Ok(
                            with_current(
                                st,
                                MacroView {
                                    pins: m.pins.update(i, PortView { pin_use: Some(u), ..m.pins[i] }),
                                    ..m
                                },
                            ),
                        ),
                    }
                }
            },
        },
    }
}

/// A `LAYER` line: inside a port it names the layer of the shapes after it.
pub open spec fn layer_step(st: LefState, t: Seq<Seq<char>>) -> Result<LefState, LefErrorKind> {
    if !st.in_port {
        Ok(st)
    } else if t.len() < 2 {
        Err(LefErrorKind::MissingLayerName)
    } else {
        Ok(LefState { layer: Some(spec_clean_token(t[1])), ..st })
    }
}

/// `st` with outline `g` given to bit position `j` of port position `i`.
pub open spec fn with_shape(st: LefState, i: int, j: int, g: ShapeView) -> LefState {
    let m = st.current.unwrap();
    let p = m.pins[i];
    with_current(
        st,
        MacroView {
            pins: m.pins.update(
                i,
                PortView { bits: p.bits.update(j, (p.bits[j].0, Some(g))), ..p },
            ),
            ..m
        },
    )
}

/// A `RECT` (`is_rect`) or `POLYGON` line: inside a port, the first kept
/// outline of the bit being read; later ones, and those on a layer that is
/// not kept, are ignored.
pub open spec fn shape_step(st: LefState, t: Seq<Seq<char>>, is_rect: bool, syn: LefSyntax) -> Result<
    LefState,
    LefErrorKind,
> {
    if !st.in_port {
        Ok(st)
    } else {
        match st.current {
            None => Err(LefErrorKind::ShapeOutsideMacro),
            Some(m) => match st.pin {
                None => Err(LefErrorKind::ShapeOutsidePin),
                Some((b, bit)) => {
                    let i = port_index(m.pins, b).unwrap();
                    let j = bit_index(m.pins[i].bits, bit).unwrap();
                    if m.pins[i].bits[j].1 is Some {
                        Ok(st)
                    } else {
                        match st.layer {
                            None => Err(LefErrorKind::ShapeWithoutLayer),
                            Some(l) => {
                                if syn.valid_layers matches Some(vs) && !vs.contains(l) {
                                    Ok(st)
                                } else {
                                    let n = lef_numbers(t.drop_first());
                                    if is_rect {
                                        if n.len() != 4 {
                                            Err(LefErrorKind::InvalidRect)
                                        } else {
                                            Ok(with_shape(st, i, j, ShapeView { layer: l, points: rect_points(n) }))
                                        }
                                    } else if n.len() < 6 || n.len() % 2 != 0 {
                                        Err(LefErrorKind::InvalidPolygon)
                                    } else {
                                        Ok(with_shape(st, i, j, ShapeView { layer: l, points: polygon_points(n) }))
                                    }
                                }
                            },
                        }
                    }
                },
            },
        }
    }
}

/// A `SIZE w BY h` line: the size of the macro being read.
pub open spec fn size_step(st: LefState, t: Seq<Seq<char>>) -> Result<LefState, LefErrorKind> {
    match st.current {
        None => Err(LefErrorKind::SizeOutsideMacro),
        Some(m) => if t.len() < 4 || upper(t[2]) != "BY"@ {
            Err(LefErrorKind::InvalidSize)
        } else {
            Ok(
                with_current(
                    st,
                    MacroView {
                        width: Some(spec_clean_token(t[1])),
                        height: Some(spec_clean_token(t[3])),
                        ..m
                    },
                ),
            )
        },
    }
}

/// A line whose first word (in upper case) is `first`, outside a skipped
/// section.
pub open spec fn keyword_step(st: LefState, first: Seq<char>, t: Seq<Seq<char>>, syn: LefSyntax) -> Result<
    LefState,
    LefErrorKind,
> {
    if first == "MACRO"@ {
        macro_step(st, t)
    } else if first == "PIN"@ {
        pin_step(st, t, syn)
    } else if first == "PORT"@ {
        Ok(LefState { in_port: true, layer: None, ..st })
    } else if first == "END"@ {
        if st.in_port && t.len() == 1 {
            Ok(LefState { in_port: false, layer: None, ..st })
        } else {
            Ok(st)
        }
    } else if first == "DIRECTION"@ {
        direction_step(st, t)
    } else if first == "USE"@ {
        use_step(st, t)
    } else if first == "LAYER"@ {
        layer_step(st, t)
    } else if first == "RECT"@ {
        shape_step(st, t, true, syn)
    } else if first == "POLYGON"@ {
        shape_step(st, t, false, syn)
    } else if first == "SIZE"@ {
        size_step(st, t)
    } else {
        Ok(st)
    }
}

/// One line, given as its words: blank lines and comments change nothing;
/// a skipped section lasts until its `END`.
pub open spec fn line_step(st: LefState, t: Seq<Seq<char>>, syn: LefSyntax) -> Result<
    LefState,
    LefErrorKind,
> {
    if t.len() == 0 || (t[0].len() > 0 && t[0][0] == '#') {
        Ok(st)
    } else {
        let first = upper(t[0]);
        match st.skipping {
            Some(sec) => if first == "END"@ && t.len() > 1 && upper(t[1]) == sec {
                Ok(LefState { skipping: None, ..st })
            } else {
                Ok(st)
            },
            None => if syn.skip.contains(first) {
                Ok(LefState { skipping: Some(first), ..st })
            } else {
                keyword_step(st, first, t, syn)
            },
        }
    }
}

/// The state after `lines`, or the first error and its line number.
pub open spec fn run_lines(lines: Seq<Seq<char>>, syn: LefSyntax) -> Result<LefState, LefParseError>
    decreases lines.len(),
{
    if lines.len() == 0 {
        Ok(initial_state())
    } else {
        match run_lines(lines.drop_last(), syn) {
            Err(e) => Err(e),
            Ok(st) => match line_step(st, tokens_of(lines.last()), syn) {
                Ok(s) => Ok(s),
                Err(k) => Err(LefParseError { line: lines.len() as usize, kind: k }),
            },
        }
    }
}

/// The macros of a LEF text, or the first error in it.
pub open spec fn spec_parse_lef(text: Seq<char>, syn: LefSyntax) -> Result<Seq<MacroView>, LefParseError> {
    match run_lines(split_lines(text), syn) {
        Ok(st) => Ok(finished(st)),
        Err(e) => Err(e),
    }
}

/// Where `first_index` finds `x`, `x` is.
proof fn lemma_first_index_found<T>(s: Seq<T>, x: T, i: int)
    ensures
        first_index(s, x, i) matches Some(p) ==> i <= p < s.len() && s[p] == x,
    decreases s.len() - i,
{
    if 0 <= i < s.len() && s[i] != x {
        lemma_first_index_found(s, x, i + 1);
    }
}

/// `first_index` finds `x` where it occurs at or after `i`.
proof fn lemma_first_index_exists<T>(s: Seq<T>, x: T, i: int, p: int)
    requires
        0 <= i <= p < s.len(),
        s[p] == x,
    ensures
        first_index(s, x, i) is Some,
    decreases p - i,
{
    if s[i] != x {
        lemma_first_index_exists(s, x, i + 1, p);
    }
}

/// `first_index` looks only at positions at or after `i` that it reaches
/// before a match, so appending leaves an earlier match in place.
proof fn lemma_first_index_push<T>(s: Seq<T>, y: T, x: T, i: int)
    requires
        0 <= i <= s.len(),
    ensures
        first_index(s.push(y), x, i) == (match first_index(s, x, i) {
            Some(p) => Some(p),
            None => if y == x {
                Some(s.len() as int)
            } else {
                None
            },
        }),
    decreases s.len() - i,
{
    assert(s.push(y).len() == s.len() + 1);
    if i < s.len() {
        assert(s.push(y)[i] == s[i]);
        if s[i] != x {
            lemma_first_index_push(s, y, x, i + 1);
        }
    } else {
        assert(s.push(y)[i] == y);
        assert(first_index(s, x, i) is None);
        if y != x {
            assert(first_index(s.push(y), x, i + 1) is None);
        }
    }
}

/// The position of port `name` in `pins`.
fn find_port(pins: &Vec<LefPort>, name: &String) -> (r: Option<usize>)
    ensures
        match port_index(port_views(pins@), name@) {
            Some(i) => r == Some(i as usize),
            None => r is None,
        },
        r matches Some(i) ==> i < pins@.len() && port_index(port_views(pins@), name@) == Some(i as int),
{
    let ghost names = port_names(port_views(pins@));
    let n = pins.len();
    let mut i: usize = 0;
    while i < n
        invariant
            n == pins@.len(),
            names == port_names(port_views(pins@)),
            i <= n,
            first_index(names, name@, 0) == first_index(names, name@, i as int),
        decreases n - i,
    {
        if pins[i].name == *name {
            assert(names[i as int] == name@);
            return Some(i);
        }
        assert(names[i as int] != name@);
        i += 1;
    }
    None
}

/// The keys of map entries are the bit indices of their views.
proof fn lemma_entry_keys(e: Seq<(usize, Option<LefPinShape>)>)
    ensures
        entry_keys(e) == bit_keys(bit_views(e)),
{
    assert(entry_keys(e) =~= bit_keys(bit_views(e)));
}

/// The position of bit `bit` in `bits`.
fn find_bit(bits: &IndexMap<usize, Option<LefPinShape>>, bit: usize) -> (r: Option<usize>)
    ensures
        match bit_index(bit_views(bit_entries(*bits)), bit) {
            Some(i) => r == Some(i as usize),
            None => r is None,
        },
        r matches Some(i) ==> i < bit_entries(*bits).len() && bit_index(
            bit_views(bit_entries(*bits)),
            bit,
        ) == Some(i as int),
{
    let ghost keys = bit_keys(bit_views(bit_entries(*bits)));
    let n = bit_map_len(bits);
    let mut i: usize = 0;
    while i < n
        invariant
            n == bit_entries(*bits).len(),
            keys == bit_keys(bit_views(bit_entries(*bits))),
            i <= n,
            first_index(keys, bit, 0) == first_index(keys, bit, i as int),
        decreases n - i,
    {
        let (k, _) = bit_map_get_index(bits, i).unwrap();
        if *k == bit {
            return Some(i);
        }
        i += 1;
    }
    None
}

/// Whether `x` is one of `v`.
fn contains_string(v: &Vec<String>, x: &String) -> (r: bool)
    ensures
        r == string_views(v@).contains(x@),
{
    let n = v.len();
    let mut i: usize = 0;
    while i < n
        invariant
            n == v@.len(),
            i <= n,
            forall|j: int| 0 <= j < i ==> string_views(v@)[j] != x@,
        decreases n - i,
    {
        if v[i] == *x {
            assert(string_views(v@)[i as int] == x@);
            return true;
        }
        i += 1;
    }
    false
}

/// Replacing a port by one with the same name and bit indices keeps every
/// lookup of the reader.
proof fn lemma_port_update_lookups(pins: Seq<PortView>, i: int, q: PortView)
    requires
        0 <= i < pins.len(),
        q.name == pins[i].name,
        bit_keys(q.bits) == bit_keys(pins[i].bits),
    ensures
        port_names(pins.update(i, q)) == port_names(pins),
        forall|k: int| 0 <= k < pins.len() ==> #[trigger] bit_keys(pins.update(i, q)[k].bits) == bit_keys(pins[k].bits),
{
    assert(port_names(pins.update(i, q)) =~= port_names(pins));
}

/// A successful `PIN` line leaves the reader on a bit that its macro holds.
proof fn lemma_pin_step_wf(st: LefState, t: Seq<Seq<char>>, syn: LefSyntax)
    requires
        pin_step(st, t, syn) is Ok,
    ensures
        pin_step(st, t, syn) matches Ok(s) && state_wf(s),
{
    let (base, bit) = spec_parse_pin_name(spec_clean_token(t[1]), syn.open, syn.close);
    let m = st.current.unwrap();
    let names = port_names(m.pins);
    let s = pin_step(st, t, syn)->Ok_0;
    let pins = s.current.unwrap().pins;
    match port_index(m.pins, base) {
        Some(i) => {
            lemma_first_index_found(names, base, 0);
            let q = PortView { bits: m.pins[i].bits.push((bit, None)), ..m.pins[i] };
            assert(pins == m.pins.update(i, q));
            assert(port_names(pins) =~= names);
            assert(bit_keys(q.bits) =~= bit_keys(m.pins[i].bits).push(bit));
            lemma_first_index_push(bit_keys(m.pins[i].bits), bit, bit, 0);
            assert(pins[i] == q);
        },
        None => {
            let q = PortView { name: base, direction: None, pin_use: None, bits: seq![(bit, None)] };
            assert(pins == m.pins.push(q));
            assert(port_names(pins) =~= names.push(base));
            lemma_first_index_push(names, base, base, 0);
            assert(pins[m.pins.len() as int] == q);
            assert(bit_keys(q.bits) =~= seq![bit]);
            assert(bit_keys(q.bits)[0] == bit);
            lemma_first_index_exists(bit_keys(q.bits), bit, 0, 0);
        },
    }
}

/// Every successful line keeps the reader on a bit that its macro holds.
proof fn lemma_line_step_wf(st: LefState, t: Seq<Seq<char>>, syn: LefSyntax)
    requires
        state_wf(st),
    ensures
        line_step(st, t, syn) matches Ok(s) ==> state_wf(s),
{
    if t.len() == 0 || (t[0].len() > 0 && t[0][0] == '#') {
    } else {
        let first = upper(t[0]);
        if st.skipping is None && !syn.skip.contains(first) {
            if first == "PIN"@ {
                if pin_step(st, t, syn) is Ok {
                    lemma_pin_step_wf(st, t, syn);
                }
            } else if st.pin is Some {
                let (b, bit) = st.pin.unwrap();
                let m = st.current.unwrap();
                let i = port_index(m.pins, b).unwrap();
                lemma_first_index_found(port_names(m.pins), b, 0);
                let j = bit_index(m.pins[i].bits, bit).unwrap();
                lemma_first_index_found(bit_keys(m.pins[i].bits), bit, 0);
                if first == "DIRECTION"@ && t.len() >= 2 {
                    match spec_pin_direction(upper(spec_clean_token(t[1]))) {
                        Some(d) => {
                            lemma_port_update_lookups(m.pins, i, PortView { direction: Some(d), ..m.pins[i] });
                        },
                        None => {},
                    }
                } else if first == "USE"@ && t.len() >= 2 {
                    let u = upper(spec_clean_token(t[1]));
                    lemma_port_update_lookups(m.pins, i, PortView { pin_use: Some(u), ..m.pins[i] });
                } else if first == "RECT"@ || first == "POLYGON"@ {
                    let p = m.pins[i];
                    assert forall|g: ShapeView| true implies bit_keys(p.bits.update(j, (p.bits[j].0, Some(g)))) == bit_keys(p.bits) by {
                        assert(bit_keys(p.bits.update(j, (p.bits[j].0, Some(g)))) =~= bit_keys(p.bits));
                    }
                    assert forall|g: ShapeView| true implies port_names(m.pins.update(i, PortView { bits: p.bits.update(j, (p.bits[j].0, Some(g))), ..p })) == port_names(m.pins) && bit_keys(m.pins.update(i, PortView { bits: p.bits.update(j, (p.bits[j].0, Some(g))), ..p })[i].bits) == bit_keys(m.pins[i].bits) by {
                        lemma_port_update_lookups(m.pins, i, PortView { bits: p.bits.update(j, (p.bits[j].0, Some(g))), ..p });
                    }
                }
            }
        }
    }
}

/// The numbers of a shape line: its cleaned non-empty tokens after the
/// first.
fn shape_numbers(t: &Vec<String>) -> (r: Vec<String>)
    requires
        t@.len() >= 1,
    ensures
        string_views(r@) == lef_numbers(string_views(t@).drop_first()),
{
    let mut nums: Vec<String> = Vec::new();
    let ghost tv = string_views(t@);
    assert(tv.subrange(1, 1) =~= Seq::<Seq<char>>::empty());
    for k in 1..t.len()
        invariant
            tv == string_views(t@),
            string_views(nums@) == lef_numbers(tv.subrange(1, k as int)),
    {
        let c = clean_lef_token(t[k].as_str());
        assert(tv.subrange(1, k + 1).drop_last() =~= tv.subrange(1, k as int));
        assert(tv.subrange(1, k + 1).last() == t@[k as int]@);
        if !c.as_str().is_empty() {
            let ghost before = nums@;
            nums.push(c);
            assert(string_views(nums@) =~= string_views(before).push(c@));
        }
    }
    assert(tv.subrange(1, t@.len() as int) =~= tv.drop_first());
    nums
}

/// The corners of a `RECT` from its four numbers.
fn rect_corners(n: &Vec<String>) -> (r: Vec<(String, String)>)
    requires
        n@.len() == 4,
    ensures
        point_views(r@) == rect_points(string_views(n@)),
{
    let mut pts: Vec<(String, String)> = Vec::new();
    pts.push((n[0].clone(), n[1].clone()));
    pts.push((n[0].clone(), n[3].clone()));
    pts.push((n[2].clone(), n[3].clone()));
    pts.push((n[2].clone(), n[1].clone()));
    assert(point_views(pts@) =~= rect_points(string_views(n@)));
    pts
}

/// The points of a `POLYGON` from its numbers, taken in pairs.
fn polygon_corners(n: &Vec<String>) -> (r: Vec<(String, String)>)
    requires
        n@.len() % 2 == 0,
    ensures
        point_views(r@) == polygon_points(string_views(n@)),
{
    let mut pts: Vec<(String, String)> = Vec::new();
    let half = n.len() / 2;
    for k in 0..half
        invariant
            half == n@.len() / 2,
            n@.len() % 2 == 0,
            n@.len() <= usize::MAX,
            point_views(pts@) == polygon_points(string_views(n@)).take(k as int),
    {
        let ghost before = pts@;
        assert(2 * k + 1 < n@.len()) by (nonlinear_arith)
            requires
                k < half,
                half == n@.len() / 2,
                n@.len() % 2 == 0,
        ;
        pts.push((n[2 * k].clone(), n[2 * k + 1].clone()));
        assert(point_views(pts@) =~= polygon_points(string_views(n@)).take(k + 1)) by {
            assert(point_views(pts@) =~= point_views(before).push((n@[2 * k]@, n@[2 * k + 1]@)));
        }
    }
    assert(polygon_points(string_views(n@)).take(half as int) =~= polygon_points(string_views(n@)));
    pts
}

/// The view of an optional list of names.
pub open spec fn opt_strings_view(o: Option<&Vec<String>>) -> Option<Seq<Seq<char>>> {
    match o {
        Some(v) => Some(string_views(v@)),
        None => None,
    }
}

/// Whether `s` is the word `k`.
fn is_word(s: &String, k: &str) -> (r: bool)
    ensures
        r == (s@ == k@),
{
    *s == k.to_owned()
}

/// The reader's state between two lines.
struct LefReader {
    macros: Vec<LefMacro>,
    current: Option<LefMacro>,
    pin: Option<(String, usize)>,
    in_port: bool,
    layer: Option<String>,
    skipping: Option<String>,
}

/// The view of an optional macro.
pub open spec fn opt_macro_view(o: Option<LefMacro>) -> Option<MacroView> {
    match o {
        Some(m) => Some(m@),
        None => None,
    }
}

impl View for LefReader {
    type V = LefState;

    closed spec fn view(&self) -> LefState {
        LefState {
            macros: macro_views(self.macros@),
            current: opt_macro_view(self.current),
            pin: match self.pin {
                Some(p) => Some((p.0@, p.1)),
                None => None,
            },
            in_port: self.in_port,
            layer: opt_view(self.layer),
            skipping: opt_view(self.skipping),
        }
    }
}

/// `r` is what a step gives: `Ok` with state `after` where the step
/// succeeds, its error where it fails.
pub open spec fn step_done(step: Result<LefState, LefErrorKind>, r: Result<(), LefErrorKind>, after: LefState) -> bool {
    match step {
        Ok(s) => r is Ok && after == s,
        Err(e) => r == Err::<(), LefErrorKind>(e),
    }
}

impl LefReader {
    fn new() -> (r: LefReader)
        ensures
            r@ == initial_state(),
    {
        let r = LefReader {
            macros: Vec::new(),
            current: None,
            pin: None,
            in_port: false,
            layer: None,
            skipping: None,
        };
        assert(r@ =~~= initial_state());
        r
    }

    fn read_macro(&mut self, t: &Vec<String>) -> (r: Result<(), LefErrorKind>)
        ensures
            step_done(macro_step(old(self)@, string_views(t@)), r, final(self)@),
    {
        if t.len() < 2 {
            return Err(LefErrorKind::MissingMacroName);
        }
        let name = clean_lef_token(t[1].as_str());
        let ghost before = self@;
        match self.current.take() {
            Some(m) => {
                self.macros.push(m);
            },
            None => {},
        }
        assert(macro_views(self.macros@) =~= finished(before));
        self.current = Some(LefMacro { name, width: None, height: None, pins: Vec::new() });
        self.pin = None;
        self.in_port = false;
        self.layer = None;
        assert(self@ =~~= macro_step(before, string_views(t@))->Ok_0);
        Ok(())
    }
    fn read_pin(&mut self, t: &Vec<String>, open_char: char, close_char: char) -> (r: Result<(), LefErrorKind>)
        requires
            (open_char as u32) < 128,
            (close_char as u32) < 128,
        ensures
            step_done(
                pin_step(old(self)@, string_views(t@), LefSyntax { open: open_char, close: close_char, skip: Seq::empty(), valid_layers: None }),
                r,
                final(self)@,
            ),
    {
        if t.len() < 2 {
            return Err(LefErrorKind::MissingPinName);
        }
        let name = clean_lef_token(t[1].as_str());
        let (base, bit) = parse_pin_name(name.as_str(), open_char, close_char);
        let ghost before = self@;
        let mut m = match self.current.take() {
            Some(m) => m,
            None => {
                return Err(LefErrorKind::PinOutsideMacro);
            },
        };
        let ghost m0 = m@;
        match find_port(&m.pins, &base) {
            Some(i) => {
                proof {
                    lemma_first_index_found(port_names(m0.pins), base@, 0);
                }
                assert(m0.pins[i as int] == m.pins@[i as int]@);
                if find_bit(&m.pins[i].bits, bit).is_some() {
                    return Err(LefErrorKind::RepeatedBit);
                }
                let mut p = m.pins.remove(i);
                let ghost p0 = p@;
                proof {
                    lemma_entry_keys(bit_entries(p.bits));
                }
                bit_map_insert(&mut p.bits, bit, None);
                assert(bit_views(bit_entries(p.bits)) =~= p0.bits.push((bit, None)));
                m.pins.insert(i, p);
                assert(port_views(m.pins@) =~= m0.pins.update(
                    i as int,
                    PortView { bits: m0.pins[i as int].bits.push((bit, None)), ..m0.pins[i as int] },
                ));
            },
            None => {
                let mut bits = bit_map_new();
                bit_map_insert(&mut bits, bit, None);
                let q = LefPort { name: base.clone(), direction: None, pin_use: None, bits };
                assert(bit_views(bit_entries(q.bits)) =~= seq![(bit, None::<ShapeView>)]);
                m.pins.push(q);
                assert(port_views(m.pins@) =~= m0.pins.push(
                    PortView { name: base@, direction: None, pin_use: None, bits: seq![(bit, None)] },
                ));
            },
        }
        self.current = Some(m);
        self.pin = Some((base, bit));
        self.in_port = false;
        self.layer = None;
        assert(self@ =~~= pin_step(before, string_views(t@), LefSyntax { open: open_char, close: close_char, skip: Seq::empty(), valid_layers: None })->Ok_0);
        Ok(())
    }
    fn read_direction(&mut self, t: &Vec<String>) -> (r: Result<(), LefErrorKind>)
        requires
            state_wf(old(self)@),
        ensures
            step_done(direction_step(old(self)@, string_views(t@)), r, final(self)@),
    {
        let ghost before = self@;
        if self.current.is_none() {
            return Err(LefErrorKind::DirectionOutsideMacro);
        }
        let b = match &self.pin {
            Some(p) => p.0.clone(),
            None => {
                return Err(LefErrorKind::DirectionOutsidePin);
            },
        };
        if t.len() < 2 {
            return Ok(());
        }
        assert(string_views(t@)[1] == t@[1]@);
        let token = upper_string(clean_lef_token(t[1].as_str()).as_str());
        let d = match PinDirection::from_lef_token(token.as_str()) {
            Some(d) => d,
            None => {
                return Ok(());
            },
        };
        let mut m = self.current.take().unwrap();
        let ghost m0 = m@;
        proof {
            lemma_first_index_found(port_names(m0.pins), b@, 0);
        }
        let i = find_port(&m.pins, &b).unwrap();
        assert(m0.pins[i as int] == m.pins@[i as int]@);
        match m.pins[i].direction {
            Some(e) => {
                if e != d {
                    return Err(LefErrorKind::MismatchedDirection);
                }
                self.current = Some(m);
                assert(self@ =~~= before);
                Ok(())
            },
            None => {
                let mut p = m.pins.remove(i);
                p.direction = Some(d);
                m.pins.insert(i, p);
                assert(port_views(m.pins@) =~= m0.pins.update(
                    i as int,
                    PortView { direction: Some(d), ..m0.pins[i as int] },
                ));
                self.current = Some(m);
                assert(self@ =~~= direction_step(before, string_views(t@))->Ok_0);
                Ok(())
            },
        }
    }

    fn read_use(&mut self, t: &Vec<String>) -> (r: Result<(), LefErrorKind>)
        requires
            state_wf(old(self)@),
        ensures
            step_done(use_step(old(self)@, string_views(t@)), r, final(self)@),
    {
        let ghost before = self@;
        if self.current.is_none() {
            return Err(LefErrorKind::UseOutsideMacro);
        }
        let b = match &self.pin {
            Some(p) => p.0.clone(),
            None => {
                return Err(LefErrorKind::UseOutsidePin);
            },
        };
        if t.len() < 2 {
            return Ok(());
        }
        let u = upper_string(clean_lef_token(t[1].as_str()).as_str());
        let mut m = self.current.take().unwrap();
        let ghost m0 = m@;
        proof {
            lemma_first_index_found(port_names(m0.pins), b@, 0);
        }
        let i = find_port(&m.pins, &b).unwrap();
        assert(m0.pins[i as int] == m.pins@[i as int]@);
        match &m.pins[i].pin_use {
            Some(e) => {
                if *e != u {
                    return Err(LefErrorKind::MismatchedUse);
                }
                self.current = Some(m);
                assert(self@ =~~= before);
                return Ok(());
            },
            None => {},
        }
        let mut p = m.pins.remove(i);
        p.pin_use = Some(u);
        m.pins.insert(i, p);
        assert(port_views(m.pins@) =~= m0.pins.update(
            i as int,
            PortView { pin_use: Some(u@), ..m0.pins[i as int] },
        ));
        self.current = Some(m);
        assert(self@ =~~= use_step(before, string_views(t@))->Ok_0);
        Ok(())
    }
    fn read_layer(&mut self, t: &Vec<String>) -> (r: Result<(), LefErrorKind>)
        ensures
            step_done(layer_step(old(self)@, string_views(t@)), r, final(self)@),
    {
        if !self.in_port {
            return Ok(());
        }
        if t.len() < 2 {
            return Err(LefErrorKind::MissingLayerName);
        }
        let ghost before = self@;
        assert(string_views(t@)[1] == t@[1]@);
        self.layer = Some(clean_lef_token(t[1].as_str()));
        assert(self@ =~~= layer_step(before, string_views(t@))->Ok_0);
        Ok(())
    }

    fn read_size(&mut self, t: &Vec<String>) -> (r: Result<(), LefErrorKind>)
        ensures
            step_done(size_step(old(self)@, string_views(t@)), r, final(self)@),
    {
        let ghost before = self@;
        let mut m = match self.current.take() {
            Some(m) => m,
            None => {
                return Err(LefErrorKind::SizeOutsideMacro);
            },
        };
        if t.len() < 4 {
            return Err(LefErrorKind::InvalidSize);
        }
        assert(string_views(t@)[1] == t@[1]@);
        assert(string_views(t@)[2] == t@[2]@);
        assert(string_views(t@)[3] == t@[3]@);
        let by = upper_string(t[2].as_str());
        if by != "BY".to_owned() {
            return Err(LefErrorKind::InvalidSize);
        }
        m.width = Some(clean_lef_token(t[1].as_str()));
        m.height = Some(clean_lef_token(t[3].as_str()));
        self.current = Some(m);
        assert(self@ =~~= size_step(before, string_views(t@))->Ok_0);
        Ok(())
    }
    fn read_shape(
        &mut self,
        t: &Vec<String>,
        is_rect: bool,
        valid: Option<&Vec<String>>,
        Ghost(syn): Ghost<LefSyntax>,
    ) -> (r: Result<(), LefErrorKind>)
        requires
            state_wf(old(self)@),
            t@.len() >= 1,
            syn.valid_layers == opt_strings_view(valid),
        ensures
            step_done(shape_step(old(self)@, string_views(t@), is_rect, syn), r, final(self)@),
    {
        let ghost before = self@;
        if !self.in_port {
            return Ok(());
        }
        if self.current.is_none() {
            return Err(LefErrorKind::ShapeOutsideMacro);
        }
        let (b, bit) = match &self.pin {
            Some(p) => (p.0.clone(), p.1),
            None => {
                return Err(LefErrorKind::ShapeOutsidePin);
            },
        };
        let mut m = self.current.take().unwrap();
        let ghost m0 = m@;
        proof {
            lemma_first_index_found(port_names(m0.pins), b@, 0);
        }
        let i = find_port(&m.pins, &b).unwrap();
        assert(m0.pins[i as int] == m.pins@[i as int]@);
        proof {
            lemma_first_index_found(bit_keys(m0.pins[i as int].bits), bit, 0);
        }
        let j = find_bit(&m.pins[i].bits, bit).unwrap();
        let ghost e0 = bit_entries(m.pins@[i as int].bits);
        assert(m0.pins[i as int].bits[j as int] == (e0[j as int].0, opt_shape_view(e0[j as int].1)));
        let (_, slot) = bit_map_get_index(&m.pins[i].bits, j).unwrap();
        if slot.is_some() {
            self.current = Some(m);
            assert(self@ =~~= before);
            return Ok(());
        }
        let l = match &self.layer {
            Some(l) => l.clone(),
            None => {
                return Err(LefErrorKind::ShapeWithoutLayer);
            },
        };
        match valid {
            Some(vs) => {
                if !contains_string(vs, &l) {
                    self.current = Some(m);
                    assert(self@ =~~= before);
                    return Ok(());
                }
            },
            None => {},
        }
        let n = shape_numbers(t);
        let pts = if is_rect {
            if n.len() != 4 {
                return Err(LefErrorKind::InvalidRect);
            }
            rect_corners(&n)
        } else {
            if n.len() < 6 || n.len() % 2 != 0 {
                return Err(LefErrorKind::InvalidPolygon);
            }
            polygon_corners(&n)
        };
        let g = LefPinShape { layer: l, points: pts };
        let ghost gv = g@;
        let mut p = m.pins.remove(i);
        let ghost p0 = p@;
        proof {
            lemma_entry_keys(bit_entries(p.bits));
            lemma_first_index_found(bit_keys(p0.bits), bit, 0);
        }
        bit_map_insert(&mut p.bits, bit, Some(g));
        assert(bit_views(bit_entries(p.bits)) =~= p0.bits.update(j as int, (p0.bits[j as int].0, Some(gv))));
        m.pins.insert(i, p);
        assert(port_views(m.pins@) =~= m0.pins.update(
            i as int,
            PortView { bits: p0.bits.update(j as int, (p0.bits[j as int].0, Some(gv))), ..p0 },
        ));
        self.current = Some(m);
        assert(self@ =~~= with_shape(before, i as int, j as int, gv));
        Ok(())
    }
    fn read_line(
        &mut self,
        t: &Vec<String>,
        open_char: char,
        close_char: char,
        skip: &Vec<String>,
        valid: Option<&Vec<String>>,
        Ghost(syn): Ghost<LefSyntax>,
    ) -> (r: Result<(), LefErrorKind>)
        requires
            state_wf(old(self)@),
            (open_char as u32) < 128,
            (close_char as u32) < 128,
            syn == (LefSyntax {
                open: open_char,
                close: close_char,
                skip: string_views(skip@),
                valid_layers: opt_strings_view(valid),
            }),
        ensures
            step_done(line_step(old(self)@, string_views(t@), syn), r, final(self)@),
            r is Ok ==> state_wf(final(self)@),
    {
        let ghost before = self@;
        let ghost tv = string_views(t@);
        proof {
            lemma_line_step_wf(before, tv, syn);
        }
        if t.len() == 0 {
            return Ok(());
        }
        assert(tv[0] == t@[0]@);
        let head = chars_of(t[0].as_str());
        if head.len() > 0 && head[0] == '#' {
            return Ok(());
        }
        let first = upper_string(t[0].as_str());
        match &self.skipping {
            Some(sec) => {
                if is_word(&first, "END") && t.len() > 1 {
                    assert(tv[1] == t@[1]@);
                    if upper_string(t[1].as_str()) == *sec {
                        self.skipping = None;
                        assert(self@ =~~= line_step(before, tv, syn)->Ok_0);
                    }
                }
                return Ok(());
            },
            None => {},
        }
        if contains_string(skip, &first) {
            self.skipping = Some(first);
            assert(self@ =~~= line_step(before, tv, syn)->Ok_0);
            return Ok(());
        }
        if is_word(&first, "MACRO") {
            self.read_macro(t)
        } else if is_word(&first, "PIN") {
            self.read_pin(t, open_char, close_char)
        } else if is_word(&first, "PORT") {
            self.in_port = true;
            self.layer = None;
            assert(self@ =~~= line_step(before, tv, syn)->Ok_0);
            Ok(())
        } else if is_word(&first, "END") {
            if self.in_port && t.len() == 1 {
                self.in_port = false;
                self.layer = None;
                assert(self@ =~~= line_step(before, tv, syn)->Ok_0);
            }
            Ok(())
        } else if is_word(&first, "DIRECTION") {
            self.read_direction(t)
        } else if is_word(&first, "USE") {
            self.read_use(t)
        } else if is_word(&first, "LAYER") {
            self.read_layer(t)
        } else if is_word(&first, "RECT") {
            self.read_shape(t, true, valid, Ghost(syn))
        } else if is_word(&first, "POLYGON") {
            self.read_shape(t, false, valid, Ghost(syn))
        } else if is_word(&first, "SIZE") {
            self.read_size(t)
        } else {
            Ok(())
        }
    }
}

/// The reading parameters as a `LefSyntax`.
pub open spec fn syntax_of(
    open_char: char,
    close_char: char,
    skip_sections: Seq<String>,
    valid_pin_layers: Option<&Vec<String>>,
) -> LefSyntax {
    LefSyntax {
        open: open_char,
        close: close_char,
        skip: string_views(skip_sections),
        valid_layers: opt_strings_view(valid_pin_layers),
    }
}

proof fn lemma_split_lines_step(text: Seq<char>, k: int, done: Seq<Seq<char>>, start: int)
    requires
        0 <= start <= k < text.len(),
        split_lines(text.take(k)) == done.push(text.subrange(start, k)),
    ensures
        text[k] == '\n' ==> split_lines(text.take(k + 1)) == done.push(text.subrange(start, k)).push(
            text.subrange(k + 1, k + 1),
        ),
        text[k] != '\n' ==> split_lines(text.take(k + 1)) == done.push(text.subrange(start, k + 1)),
{
    assert(text.take(k + 1).drop_last() =~= text.take(k));
    assert(text.take(k + 1).last() == text[k]);
    assert(text.subrange(k + 1, k + 1) =~= Seq::<char>::empty());
    assert(text.subrange(start, k + 1) =~= text.subrange(start, k).push(text[k]));
    assert(done.push(text.subrange(start, k)).update(done.len() as int, text.subrange(start, k + 1))
        =~= done.push(text.subrange(start, k + 1)));
}

proof fn lemma_run_lines_push(lines: Seq<Seq<char>>, line: Seq<char>, syn: LefSyntax)
    ensures
        run_lines(lines.push(line), syn) == (match run_lines(lines, syn) {
            Err(e) => Err(e),
            Ok(st) => match line_step(st, tokens_of(line), syn) {
                Ok(s) => Ok(s),
                Err(k) => Err(LefParseError { line: (lines.len() + 1) as usize, kind: k }),
            },
        }),
{
    assert(lines.push(line).drop_last() =~= lines);
}

/// A text has at least one line.
proof fn lemma_split_lines_nonempty(t: Seq<char>)
    ensures
        split_lines(t).len() >= 1,
    decreases t.len(),
{
    if t.len() > 0 {
        lemma_split_lines_nonempty(t.drop_last());
    }
}

/// The lines of a prefix of `text`, but for the last, are the first lines of
/// `text`.
proof fn lemma_split_lines_prefix(text: Seq<char>, j: int)
    requires
        0 <= j <= text.len(),
    ensures
        split_lines(text).len() >= split_lines(text.take(j)).len(),
        split_lines(text).take(split_lines(text.take(j)).len() - 1) == split_lines(text.take(j)).drop_last(),
    decreases text.len() - j,
{
    if j == text.len() {
        assert(text.take(j) =~= text);
    } else {
        let t = text.drop_last();
        assert(t.take(j) =~= text.take(j));
        lemma_split_lines_prefix(t, j);
        let p = split_lines(t);
        let q = split_lines(text.take(j));
        lemma_split_lines_nonempty(t);
        lemma_split_lines_nonempty(text.take(j));
        assert(t =~= text.drop_last());
        assert forall|i: int| 0 <= i < q.len() - 1 implies #[trigger] split_lines(text)[i] == p[i] by {
            assert(p.take(q.len() - 1)[i] == p[i]);
        }
        assert(split_lines(text).take(q.len() - 1) =~= p.take(q.len() - 1));
    }
}

/// Once the lines read so far fail, the whole text fails the same way.
proof fn lemma_run_lines_prefix(a: Seq<Seq<char>>, b: Seq<Seq<char>>, syn: LefSyntax)
    requires
        a.len() <= b.len(),
        b.take(a.len() as int) == a,
        run_lines(a, syn) is Err,
    ensures
        run_lines(b, syn) == run_lines(a, syn),
    decreases b.len(),
{
    if b.len() == a.len() {
        assert(b =~= a);
    } else {
        assert(b.drop_last().take(a.len() as int) =~= a);
        lemma_run_lines_prefix(a, b.drop_last(), syn);
    }
}

/// A failure on a line that ends with a newline is the failure of the text.
proof fn lemma_split_lines_rest(text: Seq<char>, k: int, d: Seq<Seq<char>>, syn: LefSyntax)
    requires
        0 <= k < text.len(),
        split_lines(text.take(k + 1)) == d.push(Seq::<char>::empty()),
        run_lines(d, syn) is Err,
    ensures
        run_lines(split_lines(text), syn) == run_lines(d, syn),
{
    lemma_split_lines_prefix(text, k + 1);
    assert(d.push(Seq::<char>::empty()).drop_last() =~= d);
    lemma_run_lines_prefix(d, split_lines(text), syn);
}

/// Reads the macros of a LEF text, line by line.
///
/// Blank lines and `#` comments are skipped, and so is every section whose
/// (upper-case) name is in `skip_sections`, up to its `END`. A `MACRO`
/// starts a macro; each `PIN` adds a bit, split from a bus name with the
/// given bracket characters, to its port; `DIRECTION` and `USE` are set
/// once per port and must agree after that; within a `PORT`, the first
/// `RECT` or `POLYGON` of a bit on a kept layer is its outline; `SIZE w BY h`
/// gives the macro's size. Numbers are returned as the text that the LEF
/// gives. The first line that breaks these rules ends the reading with
/// its line number.
pub fn parse_lef_macros(
    lef: &str,
    open_char: char,
    close_char: char,
    skip_sections: &Vec<String>,
    valid_pin_layers: Option<&Vec<String>>,
) -> (r: Result<Vec<LefMacro>, LefParseError>)
    requires
        (open_char as u32) < 128,
        (close_char as u32) < 128,
        lef@.len() < usize::MAX,
    ensures
        r is Ok <==> spec_parse_lef(lef@, syntax_of(open_char, close_char, skip_sections@, valid_pin_layers)) is Ok,
        r matches Ok(v) ==> spec_parse_lef(
            lef@,
            syntax_of(open_char, close_char, skip_sections@, valid_pin_layers),
        ) == Ok::<Seq<MacroView>, LefParseError>(macro_views(v@)),
        r matches Err(e) ==> spec_parse_lef(
            lef@,
            syntax_of(open_char, close_char, skip_sections@, valid_pin_layers),
        ) == Err::<Seq<MacroView>, LefParseError>(e),
{
    let ghost syn = syntax_of(open_char, close_char, skip_sections@, valid_pin_layers);
    let chars = chars_of(lef);
    let n = chars.len();
    let mut rd = LefReader::new();
    let mut start: usize = 0;
    let mut line_no: usize = 0;
    let ghost mut done: Seq<Seq<char>> = Seq::empty();
    assert(chars@.take(0) =~= Seq::<char>::empty());
    assert(chars@.subrange(0, 0) =~= Seq::<char>::empty());
    assert(split_lines(chars@.take(0)) =~= done.push(chars@.subrange(0, 0)));
    for k in 0..n
        invariant
            chars@ == lef@,
            n == chars@.len(),
            n < usize::MAX,
            (open_char as u32) < 128,
            (close_char as u32) < 128,
            syn == syntax_of(open_char, close_char, skip_sections@, valid_pin_layers),
            start <= k,
            line_no <= k,
            line_no == done.len(),
            split_lines(chars@.take(k as int)) == done.push(chars@.subrange(start as int, k as int)),
            run_lines(done, syn) == Ok::<LefState, LefParseError>(rd@),
            state_wf(rd@),
    {
        proof {
            lemma_split_lines_step(chars@, k as int, done, start as int);
        }
        if chars[k] == '\n' {
            let toks = line_tokens(&chars, start, k);
            line_no += 1;
            let ghost line = chars@.subrange(start as int, k as int);
            proof {
                lemma_run_lines_push(done, line, syn);
            }
            match rd.read_line(&toks, open_char, close_char, skip_sections, valid_pin_layers, Ghost(syn)) {
                Ok(()) => {},
                Err(kind) => {
                    proof {
                        assert(chars@.subrange(k + 1, k + 1) =~= Seq::<char>::empty());
                        lemma_split_lines_rest(chars@, k as int, done.push(line), syn);
                    }
                    return Err(LefParseError { line: line_no, kind });
                },
            }
            proof {
                done = done.push(line);
            }
            start = k + 1;
        }
    }
    assert(chars@.take(n as int) =~= chars@);
    let toks = line_tokens(&chars, start, n);
    line_no += 1;
    let ghost line = chars@.subrange(start as int, n as int);
    proof {
        lemma_run_lines_push(done, line, syn);
    }
    match rd.read_line(&toks, open_char, close_char, skip_sections, valid_pin_layers, Ghost(syn)) {
        Ok(()) => {},
        Err(kind) => {
            return Err(LefParseError { line: line_no, kind });
        },
    }
    let LefReader { macros, current, .. } = rd;
    let mut out = macros;
    let ghost before = out@;
    match current {
        Some(m) => {
            out.push(m);
            assert(macro_views(out@) =~= macro_views(before).push(m@));
        },
        None => {},
    }
    Ok(out)
}

/// Why a port read from a LEF cannot become a port of a module.
#[derive(Clone, Copy, Debug, PartialEq, Eq, Structural)]
pub enum LefPortError {
    /// The port has no bit.
    NoBits,
    /// Some bit below the highest one is missing.
    NonContiguousBits,
}

/// The largest of `s` (0 for an empty `s`).
pub open spec fn seq_max(s: Seq<usize>) -> usize
    decreases s.len(),
{
    if s.len() == 0 {
        0
    } else {
        let m = seq_max(s.drop_last());
        if s.last() > m {
            s.last()
        } else {
            m
        }
    }
}

/// The port that a LEF port becomes: as wide as its highest bit plus one,
/// every bit below present, and `INOUT` where no direction was given.
pub open spec fn spec_port_io(p: PortView) -> Result<IO, LefPortError> {
    let keys = bit_keys(p.bits);
    if keys.len() == 0 {
        Err(LefPortError::NoBits)
    } else if !(forall|b: usize| b <= seq_max(keys) ==> #[trigger] keys.contains(b)) {
        Err(LefPortError::NonContiguousBits)
    } else {
        let w = (seq_max(keys) + 1) as usize;
        match p.direction {
            Some(PinDirection::Input) => Ok(IO::Input(w)),
            Some(PinDirection::Output) => Ok(IO::Output(w)),
            _ => Ok(IO::InOut(w)),
        }
    }
}

/// If every value up to `m` occurs in `keys`, there are more than `m` keys.
proof fn lemma_contiguous_keys_bound(keys: Seq<usize>, m: usize)
    requires
        forall|b: usize| b <= m ==> #[trigger] keys.contains(b),
    ensures
        m < keys.len(),
{
    let ki = keys.map_values(|b: usize| b as int);
    assert forall|x: int| #[trigger] set_int_range(0, m + 1).contains(x) implies ki.to_set().contains(x) by {
        let b = x as usize;
        assert(keys.contains(b));
        let idx = choose|idx: int| 0 <= idx < keys.len() && keys[idx] == b;
        assert(ki[idx] == x);
    }
    lemma_int_range(0, m + 1);
    ki.lemma_cardinality_of_set();
    lemma_len_subset(set_int_range(0, m + 1), ki.to_set());
}

/// The direction and width of the module port that `port` becomes.
pub fn lef_port_io(port: &LefPort) -> (r: Result<IO, LefPortError>)
    ensures
        r == spec_port_io(port@),
{
    let ghost keys = bit_keys(port@.bits);
    let n = bit_map_len(&port.bits);
    if n == 0 {
        return Err(LefPortError::NoBits);
    }
    let mut max: usize = 0;
    for k in 0..n
        invariant
            n == bit_entries(port.bits).len(),
            keys == bit_keys(port@.bits),
            max == seq_max(keys.take(k as int)),
    {
        assert(keys.take(k + 1).drop_last() =~= keys.take(k as int));
        let (key, _) = bit_map_get_index(&port.bits, k).unwrap();
        if *key > max {
            max = *key;
        }
    }
    assert(keys.take(n as int) =~= keys);
    if max >= n {
        proof {
            if forall|b: usize| b <= max ==> #[trigger] keys.contains(b) {
                lemma_contiguous_keys_bound(keys, max);
            }
        }
        return Err(LefPortError::NonContiguousBits);
    }
    let mut b: usize = 0;
    while b <= max
        invariant
            max < n,
            n == bit_entries(port.bits).len(),
            keys == bit_keys(port@.bits),
            max == seq_max(keys),
            b <= max + 1,
            forall|c: usize| c < b ==> #[trigger] keys.contains(c),
        decreases max + 1 - b,
    {
        match find_bit(&port.bits, b) {
            Some(i) => {
                proof {
                    lemma_first_index_found(keys, b, 0);
                }
                assert(keys[i as int] == b);
            },
            None => {
                proof {
                    if keys.contains(b) {
                        let idx = choose|idx: int| 0 <= idx < keys.len() && keys[idx] == b;
                        lemma_first_index_exists(keys, b, 0, idx);
                    }
                }
                return Err(LefPortError::NonContiguousBits);
            },
        }
        b += 1;
    }
    let w = max + 1;
    match port.direction {
        Some(PinDirection::Input) => Ok(IO::Input(w)),
        Some(PinDirection::Output) => Ok(IO::Output(w)),
        _ => Ok(IO::InOut(w)),
    }
}

/// Whether a port is kept: its name is not ignored and its use (in upper
/// case, `SIGNAL` where none was given) is not skipped.
pub open spec fn spec_port_kept(p: PortView, ignore: Seq<Seq<char>>, skip_uses: Seq<Seq<char>>) -> bool {
    let u = match p.pin_use {
        Some(u) => u,
        None => "SIGNAL"@,
    };
    !ignore.contains(p.name) && !skip_uses.contains(upper(u))
}

/// Whether `port` becomes a port of its module, given the port names to
/// ignore and the (upper-case) pin uses to skip.
pub fn lef_port_kept(port: &LefPort, ignore_pin_names: &Vec<String>, skip_pin_uses: &Vec<String>) -> (r: bool)
    ensures
        r == spec_port_kept(port@, string_views(ignore_pin_names@), string_views(skip_pin_uses@)),
{
    if contains_string(ignore_pin_names, &port.name) {
        return false;
    }
    let u = match &port.pin_use {
        Some(u) => upper_string(u.as_str()),
        None => upper_string("SIGNAL"),
    };
    !contains_string(skip_pin_uses, &u)
}

/// No two elements of `s` are equal.
pub open spec fn all_distinct<T>(s: Seq<T>) -> bool {
    forall|a: int, b: int| 0 <= a < b < s.len() ==> s[a] != s[b]
}

/// A macro names each port once, and each port each of its bits once.
pub open spec fn macro_keys_unique(m: MacroView) -> bool {
    &&& all_distinct(port_names(m.pins))
    &&& forall|p: int| 0 <= p < m.pins.len() ==> all_distinct(#[trigger] bit_keys(m.pins[p].bits))
}

/// Every macro that the reader holds has unique keys.
pub open spec fn state_keys_unique(st: LefState) -> bool {
    &&& forall|i: int| 0 <= i < st.macros.len() ==> macro_keys_unique(#[trigger] st.macros[i])
    &&& st.current matches Some(m) ==> macro_keys_unique(m)
}

/// Where `first_index` finds nothing, `x` does not occur.
proof fn lemma_first_index_none<T>(s: Seq<T>, x: T, i: int)
    requires
        0 <= i,
        first_index(s, x, i) is None,
    ensures
        forall|j: int| i <= j < s.len() ==> s[j] != x,
    decreases s.len() - i,
{
    if i < s.len() {
        lemma_first_index_none(s, x, i + 1);
    }
}

/// Appending an element that does not occur keeps the elements distinct.
proof fn lemma_push_distinct<T>(s: Seq<T>, x: T)
    requires
        all_distinct(s),
        forall|j: int| 0 <= j < s.len() ==> s[j] != x,
    ensures
        all_distinct(s.push(x)),
{
    assert forall|a: int, b: int| 0 <= a < b < s.push(x).len() implies s.push(x)[a] != s.push(x)[b] by {
        if b == s.len() {
            assert(s.push(x)[a] == s[a]);
        } else {
            assert(s.push(x)[a] == s[a]);
            assert(s.push(x)[b] == s[b]);
        }
    }
}

/// A successful line keeps every macro's keys unique.
proof fn lemma_line_step_unique(st: LefState, t: Seq<Seq<char>>, syn: LefSyntax)
    requires
        state_wf(st),
        state_keys_unique(st),
    ensures
        line_step(st, t, syn) matches Ok(s) ==> state_keys_unique(s),
{
    if t.len() == 0 || (t[0].len() > 0 && t[0][0] == '#') {
    } else {
        let first = upper(t[0]);
        if st.skipping is None && !syn.skip.contains(first) {
            if first == "MACRO"@ {
                if t.len() >= 2 {
                    let s = macro_step(st, t)->Ok_0;
                    assert forall|i: int| 0 <= i < s.macros.len() implies macro_keys_unique(#[trigger] s.macros[i]) by {
                        if i < st.macros.len() {
                            assert(s.macros[i] == st.macros[i]);
                        }
                    }
                    let e: Seq<PortView> = Seq::empty();
                    assert(port_names(e) =~= Seq::<Seq<char>>::empty());
                    assert(macro_keys_unique(s.current.unwrap()));
                }
            } else if first == "PIN"@ {
                if pin_step(st, t, syn) is Ok {
                    lemma_pin_step_unique(st, t, syn);
                }
            } else if st.current is Some && st.pin is Some && (first == "DIRECTION"@ || first == "USE"@
                || first == "RECT"@ || first == "POLYGON"@) {
                let m = st.current.unwrap();
                let (b, bit) = st.pin.unwrap();
                let i = port_index(m.pins, b).unwrap();
                lemma_first_index_found(port_names(m.pins), b, 0);
                let p = m.pins[i];
                assert forall|q: PortView| q.name == p.name && bit_keys(q.bits) == bit_keys(p.bits) implies #[trigger] macro_keys_unique(MacroView { pins: m.pins.update(i, q), ..m }) by {
                    lemma_port_update_lookups(m.pins, i, q);
                    assert forall|k: int| 0 <= k < m.pins.len() implies all_distinct(#[trigger] bit_keys(m.pins.update(i, q)[k].bits)) by {
                        assert(bit_keys(m.pins.update(i, q)[k].bits) == bit_keys(m.pins[k].bits));
                        assert(all_distinct(bit_keys(m.pins[k].bits)));
                    }
                }
                let j = bit_index(p.bits, bit).unwrap();
                lemma_first_index_found(bit_keys(p.bits), bit, 0);
                assert forall|g: ShapeView| true implies bit_keys(p.bits.update(j, (p.bits[j].0, Some(g)))) == bit_keys(p.bits) by {
                    assert(bit_keys(p.bits.update(j, (p.bits[j].0, Some(g)))) =~= bit_keys(p.bits));
                }
                if first == "DIRECTION"@ && t.len() >= 2 {
                    match spec_pin_direction(upper(spec_clean_token(t[1]))) {
                        Some(d) => {
                            assert(macro_keys_unique(MacroView { pins: m.pins.update(i, PortView { direction: Some(d), ..p }), ..m }));
                        },
                        None => {},
                    }
                } else if first == "USE"@ && t.len() >= 2 {
                    let u = upper(spec_clean_token(t[1]));
                    assert(macro_keys_unique(MacroView { pins: m.pins.update(i, PortView { pin_use: Some(u), ..p }), ..m }));
                } else if first == "RECT"@ || first == "POLYGON"@ {
                    assert forall|g: ShapeView| true implies macro_keys_unique(#[trigger] with_shape(st, i, j, g).current.unwrap()) by {
                        let q = PortView { bits: p.bits.update(j, (p.bits[j].0, Some(g))), ..p };
                        assert(macro_keys_unique(MacroView { pins: m.pins.update(i, q), ..m }));
                    }
                }
            }
        }
    }
}

/// A successful `PIN` line keeps every macro's keys unique.
proof fn lemma_pin_step_unique(st: LefState, t: Seq<Seq<char>>, syn: LefSyntax)
    requires
        state_keys_unique(st),
        pin_step(st, t, syn) is Ok,
    ensures
        state_keys_unique(pin_step(st, t, syn)->Ok_0),
{
    let (base, bit) = spec_parse_pin_name(spec_clean_token(t[1]), syn.open, syn.close);
    let m = st.current.unwrap();
    let names = port_names(m.pins);
    let s = pin_step(st, t, syn)->Ok_0;
    let pins = s.current.unwrap().pins;
    match port_index(m.pins, base) {
        Some(i) => {
            lemma_first_index_found(names, base, 0);
            let q = PortView { bits: m.pins[i].bits.push((bit, None)), ..m.pins[i] };
            assert(pins == m.pins.update(i, q));
            assert(port_names(pins) =~= names);
            assert(bit_keys(q.bits) =~= bit_keys(m.pins[i].bits).push(bit));
            lemma_first_index_none(bit_keys(m.pins[i].bits), bit, 0);
            lemma_push_distinct(bit_keys(m.pins[i].bits), bit);
            assert forall|k: int| 0 <= k < pins.len() implies all_distinct(#[trigger] bit_keys(pins[k].bits)) by {
                if k != i {
                    assert(pins[k] == m.pins[k]);
                }
            }
        },
        None => {
            let q = PortView { name: base, direction: None, pin_use: None, bits: seq![(bit, None)] };
            assert(pins == m.pins.push(q));
            assert(port_names(pins) =~= names.push(base));
            lemma_first_index_none(names, base, 0);
            lemma_push_distinct(names, base);
            assert(bit_keys(q.bits) =~= seq![bit]);
            assert forall|k: int| 0 <= k < pins.len() implies all_distinct(#[trigger] bit_keys(pins[k].bits)) by {
                if k < m.pins.len() {
                    assert(pins[k] == m.pins[k]);
                }
            }
        },
    }
}

/// Every prefix of the lines leaves the reader on a bit that its macro
/// holds.
proof fn lemma_run_lines_wf(lines: Seq<Seq<char>>, syn: LefSyntax)
    ensures
        run_lines(lines, syn) matches Ok(st) ==> state_wf(st),
    decreases lines.len(),
{
    if lines.len() > 0 {
        lemma_run_lines_wf(lines.drop_last(), syn);
        match run_lines(lines.drop_last(), syn) {
            Ok(st) => {
                lemma_line_step_wf(st, tokens_of(lines.last()), syn);
            },
            Err(_) => {},
        }
    }
}

/// Every prefix of the lines leaves the reader with unique keys.
proof fn lemma_run_lines_unique(lines: Seq<Seq<char>>, syn: LefSyntax)
    ensures
        run_lines(lines, syn) matches Ok(st) ==> state_keys_unique(st),
    decreases lines.len(),
{
    if lines.len() > 0 {
        lemma_run_lines_unique(lines.drop_last(), syn);
        lemma_run_lines_wf(lines.drop_last(), syn);
        match run_lines(lines.drop_last(), syn) {
            Ok(st) => {
                lemma_line_step_unique(st, tokens_of(lines.last()), syn);
            },
            Err(_) => {},
        }
    }
}

/// Each macro that is read names each of its ports once, and each port
/// names each of its bits once.
pub proof fn lemma_parsed_keys_unique(text: Seq<char>, syn: LefSyntax)
    ensures
        spec_parse_lef(text, syn) matches Ok(ms) ==> forall|i: int|
            0 <= i < ms.len() ==> macro_keys_unique(#[trigger] ms[i]),
{
    lemma_run_lines_unique(split_lines(text), syn);
    match run_lines(split_lines(text), syn) {
        Ok(st) => {
            let ms = finished(st);
            assert forall|i: int| 0 <= i < ms.len() implies macro_keys_unique(#[trigger] ms[i]) by {
                if i < st.macros.len() {
                    assert(ms[i] == st.macros[i]);
                }
            }
        },
        Err(_) => {},
    }
}

} // verus!
