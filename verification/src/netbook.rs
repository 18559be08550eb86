use vstd::prelude::*;

use crate::connection::Wire;
use crate::netsource::{spec_expression_source, try_expression_source, ExpressionSource, NetSlice, SourceError};
use crate::tieoff::Tieoff;

verus! {

/// What a port slice is connected to.
pub enum ConnectedItem {
    PortSlice(NetSlice),
    Tieoff(Tieoff),
    Unused,
    Wire(Wire),
}

/// One connection of a port slice `this`.
pub struct PortSliceConnection {
    pub this: NetSlice,
    pub other: ConnectedItem,
}

/// How many connections mark the slice unused.
pub open spec fn unused_count(cs: Seq<PortSliceConnection>) -> nat
    decreases cs.len(),
{
    if cs.len() == 0 {
        0
    } else {
        unused_count(cs.drop_last()) + if cs.last().other is Unused { 1nat } else { 0nat }
    }
}

/// How many connections tie the slice off.
pub open spec fn tieoff_count(cs: Seq<PortSliceConnection>) -> nat
    decreases cs.len(),
{
    if cs.len() == 0 {
        0
    } else {
        tieoff_count(cs.drop_last()) + if cs.last().other is Tieoff { 1nat } else { 0nat }
    }
}

/// How many connections name a wire.
pub open spec fn wire_count(cs: Seq<PortSliceConnection>) -> nat
    decreases cs.len(),
{
    if cs.len() == 0 {
        0
    } else {
        wire_count(cs.drop_last()) + if cs.last().other is Wire { 1nat } else { 0nat }
    }
}

/// The port slices that the connections reach, in order.
pub open spec fn connected_slices(cs: Seq<PortSliceConnection>) -> Seq<NetSlice>
    decreases cs.len(),
{
    if cs.len() == 0 {
        Seq::empty()
    } else {
        match cs.last().other {
            ConnectedItem::PortSlice(p) => connected_slices(cs.drop_last()).push(p),
            _ => connected_slices(cs.drop_last()),
        }
    }
}

/// The port slices on the net: the first connection's own slice, then
/// every port slice the connections reach.
pub open spec fn net_slices(cs: Seq<PortSliceConnection>) -> Seq<NetSlice> {
    if cs.len() == 0 {
        Seq::empty()
    } else {
        seq![cs[0].this] + connected_slices(cs)
    }
}

/// The source of the expression for the connections of one slice: none
/// without connections, otherwise the choice that the unused, tie-off and
/// wire counts and the slices on the net make.
pub open spec fn spec_connections_source(cs: Seq<PortSliceConnection>) -> Option<Result<ExpressionSource, SourceError>> {
    if cs.len() == 0 {
        None
    } else {
        Some(
            spec_expression_source(
                cs[0].this.kind,
                cs[0].this.io,
                unused_count(cs) as usize,
                tieoff_count(cs) as usize,
                wire_count(cs) as usize,
                net_slices(cs),
            ),
        )
    }
}

/// A copy of a port slice.
fn copy_slice(s: &NetSlice) -> (r: NetSlice)
    ensures
        r == *s,
{
    NetSlice {
        kind: s.kind,
        io: s.io,
        inst_name: s.inst_name.clone(),
        port_name: s.port_name.clone(),
        msb: s.msb,
        lsb: s.lsb,
    }
}

/// The source of the expression for the connections of one slice, or why
/// they have none; `None` without connections.
pub fn connections_source(cs: &Vec<PortSliceConnection>) -> (r: Option<Result<ExpressionSource, SourceError>>)
    ensures
        r == spec_connections_source(cs@),
{
    let n = cs.len();
    if n == 0 {
        return None;
    }
    let mut unused: usize = 0;
    let mut tieoffs: usize = 0;
    let mut wires: usize = 0;
    let mut others: Vec<NetSlice> = Vec::new();
    assert(cs@.take(0) =~= Seq::<PortSliceConnection>::empty());
    for k in 0..n
        invariant
            n == cs@.len(),
            unused == unused_count(cs@.take(k as int)),
            tieoffs == tieoff_count(cs@.take(k as int)),
            wires == wire_count(cs@.take(k as int)),
            unused + tieoffs + wires <= k,
            others@ == connected_slices(cs@.take(k as int)),
    {
        assert(cs@.take(k + 1).drop_last() =~= cs@.take(k as int));
        assert(cs@.take(k + 1).last() == cs@[k as int]);
        match &cs[k].other {
            ConnectedItem::Unused => {
                unused += 1;
            },
            ConnectedItem::Tieoff(_) => {
                tieoffs += 1;
            },
            ConnectedItem::Wire(_) => {
                wires += 1;
            },
            ConnectedItem::PortSlice(p) => {
                others.push(copy_slice(p));
            },
        }
    }
    assert(cs@.take(n as int) =~= cs@);
    let mut slices: Vec<NetSlice> = Vec::new();
    slices.push(copy_slice(&cs[0].this));
    slices.append(&mut others);
    assert(slices@ =~= net_slices(cs@));
    Some(try_expression_source(cs[0].this.kind, cs[0].this.io, unused, tieoffs, wires, &slices))
}

/// The connection's own bits overlap bits `msb` down to `lsb`.
pub open spec fn overlaps(c: PortSliceConnection, msb: usize, lsb: usize) -> bool {
    !(msb < c.this.lsb || c.this.msb < lsb)
}

/// The lower end of the overlap.
pub open spec fn clip_lsb(c: PortSliceConnection, lsb: usize) -> int {
    if lsb >= c.this.lsb { lsb as int } else { c.this.lsb as int }
}

/// The upper end of the overlap.
pub open spec fn clip_msb(c: PortSliceConnection, msb: usize) -> int {
    if msb <= c.this.msb { msb as int } else { c.this.msb as int }
}

/// `r` is connection `c` cut down to bits `msb` down to `lsb`: its own
/// slice is the overlap, and what it connects to is cut alike (a slice or a
/// wire moved up by the offset of the overlap, a tie-off's bits from that
/// offset up, an unused marker kept).
pub open spec fn clipped(c: PortSliceConnection, msb: usize, lsb: usize, r: PortSliceConnection) -> bool {
    let lo = clip_lsb(c, lsb);
    let hi = clip_msb(c, msb);
    let off = lo - c.this.lsb;
    let w = hi - lo + 1;
    &&& r.this == NetSlice { msb: hi as usize, lsb: lo as usize, ..c.this }
    &&& match (c.other, r.other) {
        (ConnectedItem::Unused, ConnectedItem::Unused) => true,
        (ConnectedItem::PortSlice(p), ConnectedItem::PortSlice(q)) => q == NetSlice {
            msb: (p.lsb + off + w - 1) as usize,
            lsb: (p.lsb + off) as usize,
            ..p
        },
        (ConnectedItem::Tieoff(t), ConnectedItem::Tieoff(u)) => u.wf() && u.width == w && u.value_of() == (
        t.value_of() / vstd::arithmetic::power2::pow2(off as nat)) % vstd::arithmetic::power2::pow2(w as nat),
        (ConnectedItem::Wire(x), ConnectedItem::Wire(y)) => y.name@ == x.name@ && y.width == x.width && (
        y.msb as int, y.lsb as int) == x.spec_slice(off, w),
        _ => false,
    }
}

/// `rs` holds the connections of `cs` that overlap bits `msb` down to
/// `lsb`, in order, each cut down to the overlap.
pub open spec fn clipped_all(cs: Seq<PortSliceConnection>, msb: usize, lsb: usize, rs: Seq<PortSliceConnection>) -> bool
    decreases cs.len(),
{
    if cs.len() == 0 {
        rs.len() == 0
    } else if overlaps(cs.last(), msb, lsb) {
        rs.len() > 0 && clipped_all(cs.drop_last(), msb, lsb, rs.drop_last()) && clipped(
            cs.last(),
            msb,
            lsb,
            rs.last(),
        )
    } else {
        clipped_all(cs.drop_last(), msb, lsb, rs)
    }
}

/// A connection can be cut down to bits `msb` down to `lsb`: its own slice
/// is valid, and what it connects to can be moved by the offset.
pub open spec fn clip_ok(c: PortSliceConnection, msb: usize, lsb: usize) -> bool {
    let lo = clip_lsb(c, lsb);
    let hi = clip_msb(c, msb);
    let off = lo - c.this.lsb;
    let w = hi - lo + 1;
    &&& c.this.lsb <= c.this.msb
    &&& (overlaps(c, msb, lsb) ==> match c.other {
        ConnectedItem::PortSlice(p) => p.lsb + off + w <= usize::MAX,
        ConnectedItem::Wire(x) => x.slice_ok(off, w),
        _ => true,
    })
}

/// The connections cut down to bits `msb` down to `lsb`: those that
/// overlap them, each limited to the overlap.
pub fn slice_connections(cs: &Vec<PortSliceConnection>, msb: usize, lsb: usize) -> (r: Vec<PortSliceConnection>)
    requires
        lsb <= msb < usize::MAX,
        forall|k: int| 0 <= k < cs@.len() ==> clip_ok(#[trigger] cs@[k], msb, lsb),
    ensures
        clipped_all(cs@, msb, lsb, r@),
{
    let mut out: Vec<PortSliceConnection> = Vec::new();
    assert(cs@.take(0) =~= Seq::<PortSliceConnection>::empty());
    for k in 0..cs.len()
        invariant
            lsb <= msb < usize::MAX,
            forall|j: int| 0 <= j < cs@.len() ==> clip_ok(#[trigger] cs@[j], msb, lsb),
            clipped_all(cs@.take(k as int), msb, lsb, out@),
    {
        assert(cs@.take(k + 1).drop_last() =~= cs@.take(k as int));
        assert(cs@.take(k + 1).last() == cs@[k as int]);
        let c = &cs[k];
        assert(clip_ok(cs@[k as int], msb, lsb));
        if !(msb < c.this.lsb || c.this.msb < lsb) {
            let lo = if lsb >= c.this.lsb { lsb } else { c.this.lsb };
            let hi = if msb <= c.this.msb { msb } else { c.this.msb };
            let off = lo - c.this.lsb;
            let w = hi - lo + 1;
            let this = NetSlice {
                kind: c.this.kind,
                io: c.this.io,
                inst_name: c.this.inst_name.clone(),
                port_name: c.this.port_name.clone(),
                msb: hi,
                lsb: lo,
            };
            let other = match &c.other {
                ConnectedItem::Unused => ConnectedItem::Unused,
                ConnectedItem::PortSlice(p) => ConnectedItem::PortSlice(
                    NetSlice {
                        kind: p.kind,
                        io: p.io,
                        inst_name: p.inst_name.clone(),
                        port_name: p.port_name.clone(),
                        msb: p.lsb + off + w - 1,
                        lsb: p.lsb + off,
                    },
                ),
                ConnectedItem::Tieoff(t) => ConnectedItem::Tieoff(t.slice_with_offset_and_width(off, w)),
                ConnectedItem::Wire(x) => ConnectedItem::Wire(x.slice_with_offset_and_width(off, w)),
            };
            let ghost before = out@;
            out.push(PortSliceConnection { this, other });
            assert(out@.drop_last() =~= before);
        }
    }
    assert(cs@.take(cs@.len() as int) =~= cs@);
    out
}

} // verus!
