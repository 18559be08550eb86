use vstd::prelude::*;

use crate::funnel::PortKind;
use crate::io::IO;
use crate::messages::{comma_list, spec_comma_list, texts};
use crate::text::{chars_of, push_str};

verus! {

broadcast use vstd::string::group_string_axioms;

/// What the choice of a net's source reads of a port slice on the net.
pub struct NetSlice {
    pub kind: PortKind,
    pub io: IO,
    /// The instance that a `ModInst` port belongs to (empty for a `ModDef`
    /// port).
    pub inst_name: String,
    pub port_name: String,
    pub msb: usize,
    pub lsb: usize,
}

/// The role of a port slice on a net, from the kind and direction of its
/// port.
#[derive(Clone, Copy, Debug, PartialEq, Eq, Structural)]
pub enum SliceRole {
    ModDefInput,
    ModDefOutput,
    ModDefInOut,
    ModInstInput,
    ModInstOutput,
    ModInstInOut,
}

/// The role of a port of kind `kind` and direction `io`.
pub open spec fn role_of(kind: PortKind, io: IO) -> SliceRole {
    match (kind, io) {
        (PortKind::ModDef, IO::Input(_)) => SliceRole::ModDefInput,
        (PortKind::ModDef, IO::Output(_)) => SliceRole::ModDefOutput,
        (PortKind::ModDef, IO::InOut(_)) => SliceRole::ModDefInOut,
        (PortKind::ModInst, IO::Input(_)) => SliceRole::ModInstInput,
        (PortKind::ModInst, IO::Output(_)) => SliceRole::ModInstOutput,
        (PortKind::ModInst, IO::InOut(_)) => SliceRole::ModInstInOut,
    }
}

/// The role of a port of kind `kind` and direction `io`.
pub fn slice_role(kind: PortKind, io: IO) -> (r: SliceRole)
    ensures
        r == role_of(kind, io),
{
    match (kind, io) {
        (PortKind::ModDef, IO::Input(_)) => SliceRole::ModDefInput,
        (PortKind::ModDef, IO::Output(_)) => SliceRole::ModDefOutput,
        (PortKind::ModDef, IO::InOut(_)) => SliceRole::ModDefInOut,
        (PortKind::ModInst, IO::Input(_)) => SliceRole::ModInstInput,
        (PortKind::ModInst, IO::Output(_)) => SliceRole::ModInstOutput,
        (PortKind::ModInst, IO::InOut(_)) => SliceRole::ModInstInOut,
    }
}

/// What a net's expression comes from: its unused marker, its first tieoff,
/// its first wire, or one of its port slices (by position).
#[derive(Clone, Copy, Debug, PartialEq, Eq, Structural)]
pub enum ExpressionSource {
    Unused,
    Tieoff,
    Wire,
    PortSlice(usize),
}

/// Why a net has no single source.
#[derive(Clone, Copy, Debug, PartialEq, Eq, Structural)]
pub enum SourceError {
    /// It is unused and also tied off.
    UnusedAndTiedOff,
    /// It is unused and also connected to a wire.
    UnusedAndWired,
    /// It is unused and also connected to other port slices.
    UnusedAndConnected,
    /// It is unused, but its port is not a driver.
    UnusedWrongDirection,
    /// It is marked unused more than once.
    MultipleUnused,
    /// It is tied off and also connected to a wire.
    TiedOffAndWired,
    /// It is tied off, but its port cannot be driven.
    TieoffWrongDirection,
    /// It is tied off more than once.
    MultipleTieoffs,
    /// It is driven by several `ModDef` inputs.
    MultipleModDefInputs,
    /// It is driven by several `ModInst` outputs.
    MultipleModInstOutputs,
    /// It is driven by a `ModDef` input and a `ModInst` output.
    ModDefInputAndModInstOutput,
    /// It reaches several `ModDef` inouts.
    MultipleModDefInOuts,
    /// It reaches both a `ModDef` input and a `ModDef` inout.
    ModDefInputAndInOut,
    /// It reaches both `ModDef` outputs and a `ModDef` inout.
    ModDefOutputsAndInOut,
    /// Nothing drives it.
    NoDriver,
    /// A wire is attached where a `ModDef` input prevails.
    WireOnModDefInput,
    /// It is connected to several wires.
    MultipleWires,
}

/// `a` comes before `b` in the order of `String`: lexicographic, by
/// character code (UTF-8 byte order and code point order agree).
pub open spec fn chars_less(a: Seq<char>, b: Seq<char>) -> bool
    decreases a.len(),
{
    if a.len() == 0 {
        b.len() > 0
    } else if b.len() == 0 {
        false
    } else if a[0] != b[0] {
        a[0] < b[0]
    } else {
        chars_less(a.drop_first(), b.drop_first())
    }
}

/// `a` comes before `b` by instance name, port name, msb, then lsb.
pub open spec fn key_less(a: NetSlice, b: NetSlice) -> bool {
    if a.inst_name@ != b.inst_name@ {
        chars_less(a.inst_name@, b.inst_name@)
    } else if a.port_name@ != b.port_name@ {
        chars_less(a.port_name@, b.port_name@)
    } else if a.msb != b.msb {
        a.msb < b.msb
    } else {
        a.lsb < b.lsb
    }
}

/// The positions of the slices with role `r`, in order.
pub open spec fn role_indices(ps: Seq<NetSlice>, r: SliceRole) -> Seq<int>
    decreases ps.len(),
{
    if ps.len() == 0 {
        Seq::empty()
    } else {
        let prev = role_indices(ps.drop_last(), r);
        if role_of(ps.last().kind, ps.last().io) == r {
            prev.push(ps.len() - 1)
        } else {
            prev
        }
    }
}

/// The first of the positions `idxs` whose slice has the least key.
pub open spec fn first_min(ps: Seq<NetSlice>, idxs: Seq<int>) -> int
    decreases idxs.len(),
{
    if idxs.len() <= 1 {
        idxs[0]
    } else {
        let m = first_min(ps, idxs.drop_last());
        if key_less(ps[idxs.last()], ps[m]) {
            idxs.last()
        } else {
            m
        }
    }
}

/// The slice that names the net: a `ModDef` input; else the one `ModDef`
/// output or inout; else the `ModInst` output, or the least `ModInst`
/// inout.
pub open spec fn spec_prevailing(ps: Seq<NetSlice>) -> Option<int> {
    let di = role_indices(ps, SliceRole::ModDefInput);
    let mo = role_indices(ps, SliceRole::ModDefOutput);
    let dio = role_indices(ps, SliceRole::ModDefInOut);
    let io = role_indices(ps, SliceRole::ModInstOutput);
    let iio = role_indices(ps, SliceRole::ModInstInOut);
    let outs = if dio.len() == 1 {
        dio
    } else {
        mo
    };
    let inst = if io.len() == 1 {
        Some(io[0])
    } else if iio.len() > 0 {
        Some(first_min(ps, iio))
    } else {
        None
    };
    if di.len() == 1 {
        Some(di[0])
    } else if outs.len() == 1 {
        Some(outs[0])
    } else {
        inst
    }
}

/// The source of the expression on a net whose slice of interest is of
/// kind `kind` and direction `io`, given how often it is marked unused,
/// tied off and wired, and the port slices on the net.
pub open spec fn spec_expression_source(
    kind: PortKind,
    io: IO,
    unused: usize,
    tieoffs: usize,
    wires: usize,
    ps: Seq<NetSlice>,
) -> Result<ExpressionSource, SourceError> {
    let role = role_of(kind, io);
    if unused == 1 {
        if tieoffs > 0 {
            Err(SourceError::UnusedAndTiedOff)
        } else if wires > 0 {
            Err(SourceError::UnusedAndWired)
        } else if ps.len() != 1 {
            Err(SourceError::UnusedAndConnected)
        } else if role == SliceRole::ModDefOutput || role == SliceRole::ModInstInput {
            Err(SourceError::UnusedWrongDirection)
        } else {
            Ok(ExpressionSource::Unused)
        }
    } else if unused > 1 {
        Err(SourceError::MultipleUnused)
    } else if tieoffs == 1 {
        if wires > 0 {
            Err(SourceError::TiedOffAndWired)
        } else if role == SliceRole::ModDefInput || role == SliceRole::ModInstOutput {
            Err(SourceError::TieoffWrongDirection)
        } else {
            Ok(ExpressionSource::Tieoff)
        }
    } else if tieoffs > 1 {
        Err(SourceError::MultipleTieoffs)
    } else {
        let di = role_indices(ps, SliceRole::ModDefInput);
        let mo = role_indices(ps, SliceRole::ModDefOutput);
        let dio = role_indices(ps, SliceRole::ModDefInOut);
        let mio = role_indices(ps, SliceRole::ModInstOutput);
        let iio = role_indices(ps, SliceRole::ModInstInOut);
        if di.len() > 1 {
            Err(SourceError::MultipleModDefInputs)
        } else if mio.len() > 1 {
            Err(SourceError::MultipleModInstOutputs)
        } else if di.len() == 1 && mio.len() == 1 {
            Err(SourceError::ModDefInputAndModInstOutput)
        } else if dio.len() > 1 {
            Err(SourceError::MultipleModDefInOuts)
        } else if dio.len() == 1 && di.len() == 1 {
            Err(SourceError::ModDefInputAndInOut)
        } else if dio.len() == 1 && mo.len() > 0 {
            Err(SourceError::ModDefOutputsAndInOut)
        } else if di.len() == 0 && mio.len() == 0 && iio.len() == 0 {
            Err(SourceError::NoDriver)
        } else {
            let p = spec_prevailing(ps).unwrap();
            if wires == 0 {
                Ok(ExpressionSource::PortSlice(p as usize))
            } else if wires == 1 {
                if role_of(ps[p].kind, ps[p].io) == SliceRole::ModDefInput {
                    Err(SourceError::WireOnModDefInput)
                } else {
                    Ok(ExpressionSource::Wire)
                }
            } else {
                Err(SourceError::MultipleWires)
            }
        }
    }
}

/// Positions as integers.
pub open spec fn positions(v: Seq<usize>) -> Seq<int> {
    v.map_values(|i: usize| i as int)
}

/// The positions of the slices with role `r`.
fn collect_role(ps: &Vec<NetSlice>, r: SliceRole) -> (v: Vec<usize>)
    ensures
        positions(v@) == role_indices(ps@, r),
        forall|k: int| 0 <= k < v@.len() ==> #[trigger] v@[k] < ps@.len(),
{
    let mut v: Vec<usize> = Vec::new();
    assert(ps@.take(0) =~= Seq::<NetSlice>::empty());
    for k in 0..ps.len()
        invariant
            positions(v@) == role_indices(ps@.take(k as int), r),
            forall|j: int| 0 <= j < v@.len() ==> #[trigger] v@[j] < k,
    {
        assert(ps@.take(k + 1).drop_last() =~= ps@.take(k as int));
        assert(ps@.take(k + 1).last() == ps@[k as int]);
        if slice_role(ps[k].kind, ps[k].io) == r {
            let ghost before = v@;
            v.push(k);
            assert(positions(v@) =~= positions(before).push(k as int));
        }
    }
    assert(ps@.take(ps@.len() as int) =~= ps@);
    v
}

/// Whether `a` comes before `b` in the order of `String`.
fn string_less(a: &String, b: &String) -> (r: bool)
    ensures
        r == chars_less(a@, b@),
{
    let x = chars_of(a.as_str());
    let y = chars_of(b.as_str());
    let mut i: usize = 0;
    assert(a@.skip(0) =~= a@);
    assert(b@.skip(0) =~= b@);
    while i < x.len() && i < y.len() && x[i] == y[i]
        invariant
            x@ == a@,
            y@ == b@,
            i <= x@.len(),
            i <= y@.len(),
            chars_less(a@, b@) == chars_less(a@.skip(i as int), b@.skip(i as int)),
        decreases x@.len() - i,
    {
        assert(a@.skip(i as int).drop_first() =~= a@.skip(i + 1));
        assert(b@.skip(i as int).drop_first() =~= b@.skip(i + 1));
        i += 1;
    }
    if i == x.len() {
        i < y.len()
    } else if i == y.len() {
        false
    } else {
        x[i] < y[i]
    }
}

/// Whether `a` comes before `b` by instance name, port name, msb, then lsb.
fn slice_less(a: &NetSlice, b: &NetSlice) -> (r: bool)
    ensures
        r == key_less(*a, *b),
{
    if a.inst_name != b.inst_name {
        string_less(&a.inst_name, &b.inst_name)
    } else if a.port_name != b.port_name {
        string_less(&a.port_name, &b.port_name)
    } else if a.msb != b.msb {
        a.msb < b.msb
    } else {
        a.lsb < b.lsb
    }
}

/// The first of the positions `idxs` whose slice has the least key.
fn least_slice(ps: &Vec<NetSlice>, idxs: &Vec<usize>) -> (r: usize)
    requires
        idxs@.len() > 0,
        forall|k: int| 0 <= k < idxs@.len() ==> #[trigger] idxs@[k] < ps@.len(),
    ensures
        r as int == first_min(ps@, positions(idxs@)),
        r < ps@.len(),
{
    let ghost iv = positions(idxs@);
    let mut best = idxs[0];
    assert(iv.take(1).len() == 1);
    for k in 1..idxs.len()
        invariant
            iv == positions(idxs@),
            forall|j: int| 0 <= j < idxs@.len() ==> #[trigger] idxs@[j] < ps@.len(),
            best < ps@.len(),
            best as int == first_min(ps@, iv.take(k as int)),
    {
        assert(iv.take(k + 1).drop_last() =~= iv.take(k as int));
        assert(iv.take(k + 1).last() == idxs@[k as int] as int);
        if slice_less(&ps[idxs[k]], &ps[best]) {
            best = idxs[k];
        }
    }
    assert(iv.take(idxs@.len() as int) =~= iv);
    best
}

/// The source of the expression on a net whose slice of interest is of
/// kind `kind` and direction `io`, given how often it is marked unused
/// (`unused`), tied off (`tieoffs`) and wired (`wires`), and the port
/// slices on the net. A net that is unused, tied off or wired takes that;
/// otherwise the prevailing port slice names it. The net must be one that
/// has a source: `try_expression_source` says why another has none.
pub fn expression_source(
    kind: PortKind,
    io: IO,
    unused: usize,
    tieoffs: usize,
    wires: usize,
    slices: &Vec<NetSlice>,
) -> (r: ExpressionSource)
    requires
        spec_expression_source(kind, io, unused, tieoffs, wires, slices@) is Ok,
    ensures
        spec_expression_source(kind, io, unused, tieoffs, wires, slices@) == Ok::<
            ExpressionSource,
            SourceError,
        >(r),
{
    try_expression_source(kind, io, unused, tieoffs, wires, slices).unwrap()
}

/// The source of the expression on a net like `expression_source`, or the
/// reason the net has none: it is marked unused or tied off together with
/// something else or in the wrong direction, it has more than one driver
/// of a kind, or none at all.
pub fn try_expression_source(
    kind: PortKind,
    io: IO,
    unused: usize,
    tieoffs: usize,
    wires: usize,
    slices: &Vec<NetSlice>,
) -> (r: Result<ExpressionSource, SourceError>)
    ensures
        r == spec_expression_source(kind, io, unused, tieoffs, wires, slices@),
{
    let role = slice_role(kind, io);
    if unused == 1 {
        if tieoffs > 0 {
            return Err(SourceError::UnusedAndTiedOff);
        } else if wires > 0 {
            return Err(SourceError::UnusedAndWired);
        } else if slices.len() != 1 {
            return Err(SourceError::UnusedAndConnected);
        } else if role == SliceRole::ModDefOutput || role == SliceRole::ModInstInput {
            return Err(SourceError::UnusedWrongDirection);
        } else {
            return Ok(ExpressionSource::Unused);
        }
    } else if unused > 1 {
        return Err(SourceError::MultipleUnused);
    }
    if tieoffs == 1 {
        if wires > 0 {
            return Err(SourceError::TiedOffAndWired);
        } else if role == SliceRole::ModDefInput || role == SliceRole::ModInstOutput {
            return Err(SourceError::TieoffWrongDirection);
        } else {
            return Ok(ExpressionSource::Tieoff);
        }
    } else if tieoffs > 1 {
        return Err(SourceError::MultipleTieoffs);
    }
    let di = collect_role(slices, SliceRole::ModDefInput);
    let mo = collect_role(slices, SliceRole::ModDefOutput);
    let dio = collect_role(slices, SliceRole::ModDefInOut);
    let mio = collect_role(slices, SliceRole::ModInstOutput);
    let iio = collect_role(slices, SliceRole::ModInstInOut);
    if di.len() > 1 {
        return Err(SourceError::MultipleModDefInputs);
    } else if mio.len() > 1 {
        return Err(SourceError::MultipleModInstOutputs);
    } else if di.len() == 1 && mio.len() == 1 {
        return Err(SourceError::ModDefInputAndModInstOutput);
    } else if dio.len() > 1 {
        return Err(SourceError::MultipleModDefInOuts);
    } else if dio.len() == 1 && di.len() == 1 {
        return Err(SourceError::ModDefInputAndInOut);
    } else if dio.len() == 1 && mo.len() > 0 {
        return Err(SourceError::ModDefOutputsAndInOut);
    } else if di.len() == 0 && mio.len() == 0 && iio.len() == 0 {
        return Err(SourceError::NoDriver);
    }
    let p = if di.len() == 1 {
        di[0]
    } else if dio.len() == 1 {
        dio[0]
    } else if mo.len() == 1 {
        mo[0]
    } else if mio.len() == 1 {
        mio[0]
    } else {
        least_slice(slices, &iio)
    };
    assert(p as int == spec_prevailing(slices@).unwrap());
    if wires == 0 {
        Ok(ExpressionSource::PortSlice(p))
    } else if wires == 1 {
        if slice_role(slices[p].kind, slices[p].io) == SliceRole::ModDefInput {
            Err(SourceError::WireOnModDefInput)
        } else {
            Ok(ExpressionSource::Wire)
        }
    } else {
        Err(SourceError::MultipleWires)
    }
}

impl SourceError {
    /// The slices that a fault names: the competing drivers, or the
    /// `ModDef` inouts.
    pub open spec fn spec_culprits(self, ps: Seq<NetSlice>) -> Seq<int> {
        match self {
            SourceError::MultipleModDefInputs => role_indices(ps, SliceRole::ModDefInput),
            SourceError::MultipleModInstOutputs => role_indices(ps, SliceRole::ModInstOutput),
            SourceError::ModDefInputAndModInstOutput => role_indices(ps, SliceRole::ModDefInput)
                + role_indices(ps, SliceRole::ModInstOutput),
            SourceError::MultipleModDefInOuts => role_indices(ps, SliceRole::ModDefInOut),
            _ => Seq::empty(),
        }
    }

    /// The positions of the slices that this fault names.
    pub fn culprits(&self, slices: &Vec<NetSlice>) -> (r: Vec<usize>)
        ensures
            positions(r@) == self.spec_culprits(slices@),
    {
        match self {
            SourceError::MultipleModDefInputs => collect_role(slices, SliceRole::ModDefInput),
            SourceError::MultipleModInstOutputs => collect_role(slices, SliceRole::ModInstOutput),
            SourceError::ModDefInputAndModInstOutput => {
                let mut a = collect_role(slices, SliceRole::ModDefInput);
                let b = collect_role(slices, SliceRole::ModInstOutput);
                let ghost start = a@;
                for k in 0..b.len()
                    invariant
                        positions(a@) == positions(start) + positions(b@).take(k as int),
                {
                    let ghost before = a@;
                    a.push(b[k]);
                    assert(positions(a@) =~= positions(before).push(b@[k as int] as int));
                    assert(positions(b@).take(k + 1) =~= positions(b@).take(k as int).push(
                        b@[k as int] as int,
                    ));
                }
                assert(positions(b@).take(b@.len() as int) =~= positions(b@));
                a
            },
            SourceError::MultipleModDefInOuts => collect_role(slices, SliceRole::ModDefInOut),
            _ => {
                let v: Vec<usize> = Vec::new();
                assert(positions(v@) =~= Seq::<int>::empty());
                v
            },
        }
    }

    /// The report on the net `this`, where `list` names the culprits.
    pub open spec fn spec_message(self, this: Seq<char>, list: Seq<char>) -> Seq<char> {
        match self {
            SourceError::UnusedAndTiedOff => this + " is unused, so it cannot also be tied off"@,
            SourceError::UnusedAndWired => this
                + " is unused, so it cannot also be connected to a wire"@,
            SourceError::UnusedAndConnected => this
                + " is unused, so it cannot be connected to other ports or port slices"@,
            SourceError::UnusedWrongDirection => this
                + " cannot be marked as unused because it has an incompatible directionality"@,
            SourceError::MultipleUnused => this + " has been marked as unused multiple times"@,
            SourceError::TiedOffAndWired => this
                + " is tied off, so it cannot also be connected to a wire"@,
            SourceError::TieoffWrongDirection => this
                + " has the wrong directionality to be tied off"@,
            SourceError::MultipleTieoffs => this + " has been tied off multiple times"@,
            SourceError::MultipleModDefInputs => this + " is multiply driven by "@ + list,
            SourceError::MultipleModInstOutputs => this + " is multiply driven by "@ + list,
            SourceError::ModDefInputAndModInstOutput => this + " is multiply driven by "@ + list,
            SourceError::MultipleModDefInOuts => this
                + " is connected to multiple ModDef InOut ports: "@ + list
                + ". This is not allowed because it cannot be expressed in Verilog."@,
            SourceError::ModDefInputAndInOut => "Cannot have both ModDef Input and ModDef InOut for "@
                + this,
            SourceError::ModDefOutputsAndInOut => "Cannot have both ModDef Outputs and ModDef InOuts for "@
                + this,
            SourceError::NoDriver => "No driver found for "@ + this,
            SourceError::WireOnModDefInput => "A wire cannot be attached to "@ + this
                + " because it is a ModDef Input"@,
            SourceError::MultipleWires => "Multiple wires connections found for "@ + this,
        }
    }

    /// The report on the net `this_debug`, naming `culprits` (the
    /// descriptions of the slices that `culprits` gives positions of).
    pub fn message(&self, this_debug: &str, culprits: &[String]) -> (r: String)
        ensures
            r@ == self.spec_message(this_debug@, spec_comma_list(texts(culprits@))),
    {
        let list = comma_list(culprits);
        let mut s = String::new();
        match self {
            SourceError::UnusedAndTiedOff => {
                push_str(&mut s, this_debug);
                push_str(&mut s, " is unused, so it cannot also be tied off");
            },
            SourceError::UnusedAndWired => {
                push_str(&mut s, this_debug);
                push_str(&mut s, " is unused, so it cannot also be connected to a wire");
            },
            SourceError::UnusedAndConnected => {
                push_str(&mut s, this_debug);
                push_str(&mut s, " is unused, so it cannot be connected to other ports or port slices");
            },
            SourceError::UnusedWrongDirection => {
                push_str(&mut s, this_debug);
                push_str(&mut s, " cannot be marked as unused because it has an incompatible directionality");
            },
            SourceError::MultipleUnused => {
                push_str(&mut s, this_debug);
                push_str(&mut s, " has been marked as unused multiple times");
            },
            SourceError::TiedOffAndWired => {
                push_str(&mut s, this_debug);
                push_str(&mut s, " is tied off, so it cannot also be connected to a wire");
            },
            SourceError::TieoffWrongDirection => {
                push_str(&mut s, this_debug);
                push_str(&mut s, " has the wrong directionality to be tied off");
            },
            SourceError::MultipleTieoffs => {
                push_str(&mut s, this_debug);
                push_str(&mut s, " has been tied off multiple times");
            },
            SourceError::MultipleModDefInputs | SourceError::MultipleModInstOutputs
            | SourceError::ModDefInputAndModInstOutput => {
                push_str(&mut s, this_debug);
                push_str(&mut s, " is multiply driven by ");
                push_str(&mut s, list.as_str());
            },
            SourceError::MultipleModDefInOuts => {
                push_str(&mut s, this_debug);
                push_str(&mut s, " is connected to multiple ModDef InOut ports: ");
                push_str(&mut s, list.as_str());
                push_str(&mut s, ". This is not allowed because it cannot be expressed in Verilog.");
            },
            SourceError::ModDefInputAndInOut => {
                push_str(&mut s, "Cannot have both ModDef Input and ModDef InOut for ");
                push_str(&mut s, this_debug);
            },
            SourceError::ModDefOutputsAndInOut => {
                push_str(&mut s, "Cannot have both ModDef Outputs and ModDef InOuts for ");
                push_str(&mut s, this_debug);
            },
            SourceError::NoDriver => {
                push_str(&mut s, "No driver found for ");
                push_str(&mut s, this_debug);
            },
            SourceError::WireOnModDefInput => {
                push_str(&mut s, "A wire cannot be attached to ");
                push_str(&mut s, this_debug);
                push_str(&mut s, " because it is a ModDef Input");
            },
            SourceError::MultipleWires => {
                push_str(&mut s, "Multiple wires connections found for ");
                push_str(&mut s, this_debug);
            },
        }
        s
    }
}

/// No sequence comes before itself.
proof fn lemma_chars_less_irreflexive(a: Seq<char>)
    ensures
        !chars_less(a, a),
    decreases a.len(),
{
    if a.len() > 0 {
        lemma_chars_less_irreflexive(a.drop_first());
    }
}

/// The order of `String` is transitive.
proof fn lemma_chars_less_transitive(a: Seq<char>, b: Seq<char>, c: Seq<char>)
    requires
        chars_less(a, b),
        chars_less(b, c),
    ensures
        chars_less(a, c),
    decreases a.len(),
{
    if a.len() > 0 && b.len() > 0 && c.len() > 0 && a[0] == b[0] && b[0] == c[0] {
        lemma_chars_less_transitive(a.drop_first(), b.drop_first(), c.drop_first());
    }
}

/// The order of slices by key is transitive.
proof fn lemma_key_less_transitive(a: NetSlice, b: NetSlice, c: NetSlice)
    requires
        key_less(a, b),
        key_less(b, c),
    ensures
        key_less(a, c),
{
    lemma_chars_less_irreflexive(a.inst_name@);
    lemma_chars_less_irreflexive(a.port_name@);
    if a.inst_name@ != b.inst_name@ && b.inst_name@ != c.inst_name@ {
        lemma_chars_less_transitive(a.inst_name@, b.inst_name@, c.inst_name@);
    } else if a.inst_name@ == b.inst_name@ && b.inst_name@ == c.inst_name@ {
        if a.port_name@ != b.port_name@ && b.port_name@ != c.port_name@ {
            lemma_chars_less_transitive(a.port_name@, b.port_name@, c.port_name@);
        }
    }
}

/// The first least slice is one of the positions, and no slice at those
/// positions has a smaller key.
proof fn lemma_first_min_is_least(ps: Seq<NetSlice>, idxs: Seq<int>)
    requires
        idxs.len() > 0,
    ensures
        idxs.contains(first_min(ps, idxs)),
        forall|k: int| 0 <= k < idxs.len() ==> !key_less(ps[#[trigger] idxs[k]], ps[first_min(ps, idxs)]),
    decreases idxs.len(),
{
    if idxs.len() > 1 {
        let pre = idxs.drop_last();
        lemma_first_min_is_least(ps, pre);
        let m = first_min(ps, pre);
        let x = idxs.last();
        assert(pre.contains(m));
        let w = choose|w: int| 0 <= w < pre.len() && pre[w] == m;
        assert(idxs[w] == m);
        if key_less(ps[x], ps[m]) {
            assert(idxs[idxs.len() - 1] == x);
            assert forall|k: int| 0 <= k < idxs.len() implies !key_less(ps[#[trigger] idxs[k]], ps[x]) by {
                if k < idxs.len() - 1 {
                    assert(idxs[k] == pre[k]);
                    if key_less(ps[idxs[k]], ps[x]) {
                        lemma_key_less_transitive(ps[idxs[k]], ps[x], ps[m]);
                    }
                } else {
                    lemma_chars_less_irreflexive(ps[x].inst_name@);
                    lemma_chars_less_irreflexive(ps[x].port_name@);
                }
            }
        } else {
            assert forall|k: int| 0 <= k < idxs.len() implies !key_less(ps[#[trigger] idxs[k]], ps[m]) by {
                if k < idxs.len() - 1 {
                    assert(idxs[k] == pre[k]);
                }
            }
        }
    } else {
        assert(idxs[0] == first_min(ps, idxs));
        lemma_chars_less_irreflexive(ps[idxs[0]].inst_name@);
        lemma_chars_less_irreflexive(ps[idxs[0]].port_name@);
    }
}

/// When no `ModDef` input, single `ModDef` output or inout, or `ModInst`
/// output names a net, a `ModInst` inout does, and one whose instance
/// name, port name, msb and lsb come first: no other inout on the net has
/// a smaller key. (With `lemma_unordered_keys_equal`, any two inouts with
/// that property have the same key.)
pub proof fn lemma_prevailing_inout_is_least(ps: Seq<NetSlice>)
    requires
        role_indices(ps, SliceRole::ModDefInput).len() == 0,
        role_indices(ps, SliceRole::ModDefInOut).len() != 1,
        role_indices(ps, SliceRole::ModDefOutput).len() != 1,
        role_indices(ps, SliceRole::ModInstOutput).len() != 1,
        role_indices(ps, SliceRole::ModInstInOut).len() > 0,
    ensures
        spec_prevailing(ps) matches Some(p) && role_indices(ps, SliceRole::ModInstInOut).contains(p)
            && forall|k: int|
            0 <= k < role_indices(ps, SliceRole::ModInstInOut).len() ==> !key_less(
                ps[#[trigger] role_indices(ps, SliceRole::ModInstInOut)[k]],
                ps[p],
            ),
{
    lemma_first_min_is_least(ps, role_indices(ps, SliceRole::ModInstInOut));
}

/// Two different sequences are ordered one way or the other.
proof fn lemma_chars_less_total(a: Seq<char>, b: Seq<char>)
    ensures
        a == b || chars_less(a, b) || chars_less(b, a),
    decreases a.len(),
{
    if a.len() > 0 && b.len() > 0 {
        if a[0] == b[0] {
            lemma_chars_less_total(a.drop_first(), b.drop_first());
            if a.drop_first() == b.drop_first() {
                assert(a.drop_first().len() == a.len() - 1);
                assert(b.drop_first().len() == b.len() - 1);
                assert(a.len() == b.len());
                assert forall|i: int| 0 <= i < a.len() implies a[i] == b[i] by {
                    if i > 0 {
                        assert(a[i] == a.drop_first()[i - 1]);
                        assert(b[i] == b.drop_first()[i - 1]);
                    }
                }
                assert(a =~= b);
            }
        }
    } else if a.len() == 0 && b.len() == 0 {
        assert(a =~= b);
    }
}

/// Two slices neither of which comes before the other have the same key.
pub proof fn lemma_unordered_keys_equal(a: NetSlice, b: NetSlice)
    requires
        !key_less(a, b),
        !key_less(b, a),
    ensures
        a.inst_name@ == b.inst_name@,
        a.port_name@ == b.port_name@,
        a.msb == b.msb,
        a.lsb == b.lsb,
{
    lemma_chars_less_total(a.inst_name@, b.inst_name@);
    lemma_chars_less_total(a.port_name@, b.port_name@);
}

/// Position `i` of `ps` holds a slice with role `r`.
pub open spec fn has_role(ps: Seq<NetSlice>, i: int, r: SliceRole) -> bool {
    0 <= i < ps.len() && role_of(ps[i].kind, ps[i].io) == r
}

/// At most one slice of `ps` has role `r`.
pub open spec fn at_most_one(ps: Seq<NetSlice>, r: SliceRole) -> bool {
    forall|i: int, j: int| has_role(ps, i, r) && has_role(ps, j, r) ==> i == j
}

/// The positions collected for a role are exactly those whose slice has it.
proof fn lemma_role_indices_members(ps: Seq<NetSlice>, r: SliceRole)
    ensures
        forall|k: int|
            0 <= k < role_indices(ps, r).len() ==> has_role(ps, #[trigger] role_indices(ps, r)[k], r),
        forall|i: int| has_role(ps, i, r) ==> #[trigger] role_indices(ps, r).contains(i),
    decreases ps.len(),
{
    if ps.len() > 0 {
        let pre = ps.drop_last();
        lemma_role_indices_members(pre, r);
        let prev = role_indices(pre, r);
        let cur = role_indices(ps, r);
        assert forall|k: int| 0 <= k < cur.len() implies has_role(ps, #[trigger] cur[k], r) by {
            if k < prev.len() {
                assert(cur[k] == prev[k]);
                assert(has_role(pre, prev[k], r));
                assert(ps[prev[k]] == pre[prev[k]]);
            }
        }
        assert forall|i: int| has_role(ps, i, r) implies #[trigger] cur.contains(i) by {
            if i < ps.len() - 1 {
                assert(ps[i] == pre[i]);
                assert(has_role(pre, i, r));
                assert(prev.contains(i));
                let w = choose|w: int| 0 <= w < prev.len() && prev[w] == i;
                assert(cur[w] == i);
            } else {
                assert(cur[cur.len() - 1] == i);
            }
        }
    }
}

/// Two different positions with a role make the collected positions at
/// least two long; one or none make the slice with that role unique.
proof fn lemma_role_count(ps: Seq<NetSlice>, r: SliceRole)
    ensures
        role_indices(ps, r).len() <= 1 ==> at_most_one(ps, r),
        forall|i: int, j: int|
            i != j && has_role(ps, i, r) && has_role(ps, j, r) ==> role_indices(ps, r).len() >= 2,
{
    lemma_role_indices_members(ps, r);
    let idx = role_indices(ps, r);
    assert forall|i: int, j: int|
        i != j && has_role(ps, i, r) && has_role(ps, j, r) implies idx.len() >= 2 by {
        assert(idx.contains(i));
        assert(idx.contains(j));
    }
    if idx.len() <= 1 {
        assert forall|i: int, j: int| has_role(ps, i, r) && has_role(ps, j, r) implies i == j by {
            assert(idx.contains(i));
            assert(idx.contains(j));
        }
    }
}

/// A net with neither an unused marker nor a tieoff that two `ModDef`
/// inputs reach is refused as multiply driven by `ModDef` inputs, whatever
/// else is on it.
pub proof fn lemma_two_moddef_inputs_refused(
    kind: PortKind,
    io: IO,
    wires: usize,
    ps: Seq<NetSlice>,
    i: int,
    j: int,
)
    requires
        i != j,
        has_role(ps, i, SliceRole::ModDefInput),
        has_role(ps, j, SliceRole::ModDefInput),
    ensures
        spec_expression_source(kind, io, 0, 0, wires, ps) == Err::<ExpressionSource, SourceError>(
            SourceError::MultipleModDefInputs,
        ),
{
    lemma_role_count(ps, SliceRole::ModDefInput);
}

/// Two `ModInst` outputs on such a net, with at most one `ModDef` input,
/// are refused as multiple `ModInst` outputs.
pub proof fn lemma_two_inst_outputs_refused(
    kind: PortKind,
    io: IO,
    wires: usize,
    ps: Seq<NetSlice>,
    i: int,
    j: int,
)
    requires
        at_most_one(ps, SliceRole::ModDefInput),
        i != j,
        has_role(ps, i, SliceRole::ModInstOutput),
        has_role(ps, j, SliceRole::ModInstOutput),
    ensures
        spec_expression_source(kind, io, 0, 0, wires, ps) == Err::<ExpressionSource, SourceError>(
            SourceError::MultipleModInstOutputs,
        ),
{
    lemma_role_count(ps, SliceRole::ModDefInput);
    lemma_role_count(ps, SliceRole::ModInstOutput);
    lemma_role_indices_members(ps, SliceRole::ModDefInput);
    let di = role_indices(ps, SliceRole::ModDefInput);
    if di.len() > 1 {
        assert(has_role(ps, di[0], SliceRole::ModDefInput));
        assert(has_role(ps, di[1], SliceRole::ModDefInput));
        lemma_role_indices_increasing(ps, SliceRole::ModDefInput);
    }
}

/// The collected positions are strictly increasing.
proof fn lemma_role_indices_increasing(ps: Seq<NetSlice>, r: SliceRole)
    ensures
        forall|a: int, b: int|
            0 <= a < b < role_indices(ps, r).len() ==> role_indices(ps, r)[a] < role_indices(ps, r)[b],
    decreases ps.len(),
{
    if ps.len() > 0 {
        lemma_role_indices_increasing(ps.drop_last(), r);
        lemma_role_indices_members(ps.drop_last(), r);
        let prev = role_indices(ps.drop_last(), r);
        assert forall|k: int| 0 <= k < prev.len() implies #[trigger] prev[k] < ps.len() - 1 by {
            assert(has_role(ps.drop_last(), prev[k], r));
        }
    }
}

/// More than one position with a role makes the slice with it not unique.
proof fn lemma_role_not_unique(ps: Seq<NetSlice>, r: SliceRole)
    requires
        role_indices(ps, r).len() > 1,
    ensures
        !at_most_one(ps, r),
{
    lemma_role_indices_members(ps, r);
    lemma_role_indices_increasing(ps, r);
    let idx = role_indices(ps, r);
    assert(has_role(ps, idx[0], r));
    assert(has_role(ps, idx[1], r));
}

/// A `ModDef` input and a `ModInst` output on such a net, each the only
/// one of its kind, are refused as conflicting drivers.
pub proof fn lemma_input_and_inst_output_refused(
    kind: PortKind,
    io: IO,
    wires: usize,
    ps: Seq<NetSlice>,
    i: int,
    j: int,
)
    requires
        at_most_one(ps, SliceRole::ModDefInput),
        at_most_one(ps, SliceRole::ModInstOutput),
        has_role(ps, i, SliceRole::ModDefInput),
        has_role(ps, j, SliceRole::ModInstOutput),
    ensures
        spec_expression_source(kind, io, 0, 0, wires, ps) == Err::<ExpressionSource, SourceError>(
            SourceError::ModDefInputAndModInstOutput,
        ),
{
    lemma_role_indices_members(ps, SliceRole::ModDefInput);
    lemma_role_indices_members(ps, SliceRole::ModInstOutput);
    if role_indices(ps, SliceRole::ModDefInput).len() > 1 {
        lemma_role_not_unique(ps, SliceRole::ModDefInput);
    }
    if role_indices(ps, SliceRole::ModInstOutput).len() > 1 {
        lemma_role_not_unique(ps, SliceRole::ModInstOutput);
    }
    assert(role_indices(ps, SliceRole::ModDefInput).contains(i));
    assert(role_indices(ps, SliceRole::ModInstOutput).contains(j));
}

/// When a net is named after one of its port slices, that slice is on the
/// net, the net has no unused marker, tieoff or wire, at most one
/// `ModDef` input and at most one `ModInst` output drive it and not both,
/// and a `ModDef` input that reaches it is the slice it is named after.
pub proof fn lemma_port_slice_source_is_sole_driver(
    kind: PortKind,
    io: IO,
    unused: usize,
    tieoffs: usize,
    wires: usize,
    ps: Seq<NetSlice>,
    p: usize,
)
    requires
        ps.len() <= usize::MAX,
        spec_expression_source(kind, io, unused, tieoffs, wires, ps) == Ok::<ExpressionSource, SourceError>(
            ExpressionSource::PortSlice(p),
        ),
    ensures
        p < ps.len(),
        unused == 0 && tieoffs == 0 && wires == 0,
        at_most_one(ps, SliceRole::ModDefInput),
        at_most_one(ps, SliceRole::ModInstOutput),
        forall|i: int, j: int|
            has_role(ps, i, SliceRole::ModDefInput) ==> !has_role(ps, j, SliceRole::ModInstOutput),
        forall|i: int| has_role(ps, i, SliceRole::ModDefInput) ==> i == p,
        at_most_one(ps, SliceRole::ModDefInOut),
        forall|i: int, j: int|
            has_role(ps, i, SliceRole::ModDefInOut) ==> !has_role(ps, j, SliceRole::ModDefInput)
                && !has_role(ps, j, SliceRole::ModDefOutput),
        exists|d: int|
            has_role(ps, d, SliceRole::ModDefInput) || has_role(ps, d, SliceRole::ModInstOutput)
                || has_role(ps, d, SliceRole::ModInstInOut),
        role_of(ps[p as int].kind, ps[p as int].io) != SliceRole::ModInstInput,
{
    let di = role_indices(ps, SliceRole::ModDefInput);
    let mo = role_indices(ps, SliceRole::ModDefOutput);
    let dio = role_indices(ps, SliceRole::ModDefInOut);
    let mio = role_indices(ps, SliceRole::ModInstOutput);
    let iio = role_indices(ps, SliceRole::ModInstInOut);
    lemma_role_count(ps, SliceRole::ModDefInput);
    lemma_role_count(ps, SliceRole::ModInstOutput);
    lemma_role_indices_members(ps, SliceRole::ModDefInput);
    lemma_role_indices_members(ps, SliceRole::ModDefOutput);
    lemma_role_indices_members(ps, SliceRole::ModDefInOut);
    lemma_role_indices_members(ps, SliceRole::ModInstOutput);
    lemma_role_indices_members(ps, SliceRole::ModInstInOut);
    assert(di.len() <= 1 && mio.len() <= 1 && !(di.len() == 1 && mio.len() == 1));
    let q = spec_prevailing(ps);
    if di.len() == 1 {
        assert(q == Some(di[0]));
        assert(has_role(ps, di[0], SliceRole::ModDefInput));
    } else if dio.len() == 1 {
        assert(has_role(ps, dio[0], SliceRole::ModDefInOut));
    } else if mo.len() == 1 {
        assert(has_role(ps, mo[0], SliceRole::ModDefOutput));
    } else if mio.len() == 1 {
        assert(has_role(ps, mio[0], SliceRole::ModInstOutput));
    } else {
        assert(iio.len() > 0);
        lemma_first_min_is_least(ps, iio);
        let w = choose|w: int| 0 <= w < iio.len() && iio[w] == first_min(ps, iio);
        assert(has_role(ps, iio[w], SliceRole::ModInstInOut));
    }
    assert forall|i: int, j: int|
        has_role(ps, i, SliceRole::ModDefInput) implies !has_role(ps, j, SliceRole::ModInstOutput) by {
        assert(di.contains(i));
        if has_role(ps, j, SliceRole::ModInstOutput) {
            assert(mio.contains(j));
        }
    }
    assert forall|i: int| has_role(ps, i, SliceRole::ModDefInput) implies i == p by {
        assert(di.contains(i));
        assert(di.len() == 1);
        assert(di[0] == i);
        assert(q == Some(i));
    }
    lemma_role_count(ps, SliceRole::ModDefInOut);
    assert forall|i: int, j: int|
        has_role(ps, i, SliceRole::ModDefInOut) implies !has_role(ps, j, SliceRole::ModDefInput)
            && !has_role(ps, j, SliceRole::ModDefOutput) by {
        assert(dio.contains(i));
        if has_role(ps, j, SliceRole::ModDefInput) {
            assert(di.contains(j));
        }
        if has_role(ps, j, SliceRole::ModDefOutput) {
            assert(mo.contains(j));
        }
    }
    if di.len() > 0 {
        assert(has_role(ps, di[0], SliceRole::ModDefInput));
    } else if mio.len() > 0 {
        assert(has_role(ps, mio[0], SliceRole::ModInstOutput));
    } else {
        assert(has_role(ps, iio[0], SliceRole::ModInstInOut));
    }
}

/// A slice marked unused once, with nothing else on its net, is left
/// unused exactly when its port drives or is an inout (an input of the
/// module, an output of an instance, or an inout); a slice tied off once,
/// with no unused marker and no wire, takes the tieoff exactly when its
/// port can be driven (an output of the module, an input of an instance,
/// or an inout). Otherwise each is refused for its direction.
pub proof fn lemma_unused_and_tieoff_directions(kind: PortKind, io: IO, ps: Seq<NetSlice>)
    ensures
        ps.len() == 1 ==> spec_expression_source(kind, io, 1, 0, 0, ps) == if (kind == PortKind::ModDef
            && io is Output) || (kind == PortKind::ModInst && io is Input) {
            Err::<ExpressionSource, SourceError>(SourceError::UnusedWrongDirection)
        } else {
            Ok::<ExpressionSource, SourceError>(ExpressionSource::Unused)
        },
        spec_expression_source(kind, io, 0, 1, 0, ps) == if (kind == PortKind::ModDef && io is Input)
            || (kind == PortKind::ModInst && io is Output) {
            Err::<ExpressionSource, SourceError>(SourceError::TieoffWrongDirection)
        } else {
            Ok::<ExpressionSource, SourceError>(ExpressionSource::Tieoff)
        },
{
}

} // verus!
