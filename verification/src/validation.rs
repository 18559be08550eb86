use vstd::prelude::*;

use crate::io::IO;

verus! {

/// How a module definition takes part in emission and validation.
#[derive(Clone, Copy, Debug, PartialEq, Eq, Structural)]
pub enum Usage {
    EmitDefinitionAndDescend,
    EmitDefinitionAndStop,
    EmitStubAndStop,
    EmitNothingAndStop,
}

/// A port seen from inside a module: one of the module's own ports, or port
/// `port` of its instance `inst`, by position.
#[derive(Clone, Copy, Debug, PartialEq, Eq, Structural)]
pub enum PortRef {
    ModDef { port: usize },
    ModInst { inst: usize, port: usize },
}

/// Bits `msb` down to `lsb` of a port.
#[derive(Clone, Copy, Debug, PartialEq, Eq, Structural)]
pub struct SliceRef {
    pub port: PortRef,
    pub msb: usize,
    pub lsb: usize,
}

/// What an instance port slice is connected to: another port slice, or a
/// wire of the given width.
#[derive(Clone, Copy, Debug, PartialEq, Eq, Structural)]
pub enum ConnTarget {
    Slice(SliceRef),
    Wire(usize),
}

/// A connection of an instance port slice.
#[derive(Clone, Copy, Debug, PartialEq, Eq, Structural)]
pub struct InstConnection {
    pub inst_slice: SliceRef,
    pub connected_to: ConnTarget,
}

/// `lhs` is assigned from `rhs`, through a pipeline clocked by the module's
/// own port `pipeline_clk` where there is one.
#[derive(Clone, Copy, Debug, PartialEq, Eq, Structural)]
pub struct Assignment {
    pub lhs: SliceRef,
    pub rhs: SliceRef,
    pub pipeline_clk: Option<usize>,
}

/// A module definition as validation reads it: its usage, its ports, the
/// definitions its instances are of (positions in the design), and the
/// slices marked unused, tied off, assigned and connected.
pub struct ModuleDef {
    pub usage: Usage,
    pub ports: Vec<IO>,
    pub instances: Vec<usize>,
    pub unused: Vec<SliceRef>,
    pub tieoffs: Vec<SliceRef>,
    pub assignments: Vec<Assignment>,
    pub inst_connections: Vec<InstConnection>,
}

/// The module definitions of a design.
pub struct Design {
    pub modules: Vec<ModuleDef>,
}

/// Why a module does not validate.
#[derive(Clone, Copy, Debug, PartialEq, Eq, Structural)]
pub enum Fault {
    /// The slice's bits are not those of its port.
    InvalidSlice(SliceRef),
    /// A slice marked unused does not drive anything.
    UnusedNotDriver(SliceRef),
    /// A tied-off slice cannot be driven.
    TieoffNotDrivable(SliceRef),
    /// The left side of an assignment cannot be driven.
    LhsNotDrivable(SliceRef),
    /// The right side of an assignment cannot drive.
    RhsNotDriver(SliceRef),
    /// The two sides of an assignment, given by its left side, differ in
    /// width.
    AssignWidthMismatch(SliceRef),
    /// An instance port slice and what it is connected to differ in width.
    ConnWidthMismatch(SliceRef),
    /// The slice is driven or used in a direction its port has no bits for.
    WrongDirection(SliceRef),
    /// Some bit of the slice is driven more than once.
    MultiplyDriven(SliceRef),
    /// Some bit of the slice is marked unused more than once.
    MultiplyUnused(SliceRef),
    /// Some bit of the slice is marked unused and also used.
    UnusedButUsed(SliceRef),
    /// The module's own port used as a pipeline clock is marked unused.
    PipelineClockUnused(usize),
    /// Some bit of a port that must be driven is not.
    Undriven(PortRef),
    /// Some bit of a driving port is neither used nor marked unused.
    Unused(PortRef),
}

/// The first fault found, and the module (position in the design) it is in.
#[derive(Clone, Copy, Debug, PartialEq, Eq, Structural)]
pub struct ValidationError {
    pub module: usize,
    pub fault: Fault,
}

/// One entry of a module's connectivity, in the order validation reads
/// them: unused slices, tieoffs, assignments, instance connections.
#[derive(Clone, Copy, Debug, PartialEq, Eq, Structural)]
pub enum Item {
    Unused(SliceRef),
    Tieoff(SliceRef),
    Assign(Assignment),
    Conn(InstConnection),
}

/// What an item does to the bits of a slice.
#[derive(Clone, Copy, Debug, PartialEq, Eq, Structural)]
pub enum Action {
    Drive,
    Use,
    MarkUnused,
}

/// An action on the bits of a slice; `clock` marks the use of a pipeline
/// clock.
#[derive(Clone, Copy, Debug, PartialEq, Eq, Structural)]
pub struct Event {
    pub slice: SliceRef,
    pub action: Action,
    pub clock: bool,
}

/// Per bit of each port: 0 when nothing touched it, 1 when driven (a port
/// that must be driven) or used (a driving port), 2 when marked unused.
/// The module's own ports first, then the ports of each instance.
pub type BitState = (Seq<Seq<u8>>, Seq<Seq<Seq<u8>>>);

/// The state of one bit.
pub open spec fn code(st: BitState, pref: PortRef, b: int) -> u8 {
    match pref {
        PortRef::ModDef { port } => st.0[port as int][b],
        PortRef::ModInst { inst, port } => st.1[inst as int][port as int][b],
    }
}

/// Bits `lo` to `hi` of `row` set to `c`.
pub open spec fn set_bits(row: Seq<u8>, lo: int, hi: int, c: u8) -> Seq<u8> {
    Seq::new(row.len(), |b: int| if lo <= b <= hi { c } else { row[b] })
}

/// The state with bits `lo` to `hi` of port `pref` set to `c`.
pub open spec fn set_port_bits(st: BitState, pref: PortRef, lo: int, hi: int, c: u8) -> BitState {
    match pref {
        PortRef::ModDef { port } => (
            st.0.update(port as int, set_bits(st.0[port as int], lo, hi, c)),
            st.1,
        ),
        PortRef::ModInst { inst, port } => (
            st.0,
            st.1.update(
                inst as int,
                st.1[inst as int].update(port as int, set_bits(st.1[inst as int][port as int], lo, hi, c)),
            ),
        ),
    }
}

/// Whether a port may be driven inside the module: a module's own output,
/// an instance's input, or any inout.
pub open spec fn spec_can_be_driven(own: bool, io: IO) -> bool {
    match io {
        IO::Input(_) => !own,
        IO::Output(_) => own,
        IO::InOut(_) => true,
    }
}

/// Whether a port drives inside the module: a module's own input, an
/// instance's output, or any inout.
pub open spec fn spec_can_drive(own: bool, io: IO) -> bool {
    match io {
        IO::Input(_) => own,
        IO::Output(_) => !own,
        IO::InOut(_) => true,
    }
}

/// Whether a port must be driven inside the module (a module's own output
/// or an instance's input); every other port drives.
pub open spec fn spec_must_be_driven(own: bool, io: IO) -> bool {
    match io {
        IO::Input(_) => !own,
        IO::Output(_) => own,
        IO::InOut(_) => false,
    }
}

/// Whether a port reference is one of the module's own ports.
pub open spec fn is_own(pref: PortRef) -> bool {
    pref is ModDef
}

/// The slice of bit 0 of the module's own port `clk`.
pub open spec fn clock_slice(clk: usize) -> SliceRef {
    SliceRef { port: PortRef::ModDef { port: clk }, msb: 0, lsb: 0 }
}

/// The number of bits of a slice, for a slice with `lsb <= msb`.
pub open spec fn slice_width(s: SliceRef) -> int {
    s.msb - s.lsb + 1
}

/// Whether a slice covers bit `b` of port `pref`.
pub open spec fn covers(s: SliceRef, pref: PortRef, b: int) -> bool {
    s.port == pref && s.lsb <= b <= s.msb
}

impl ModuleDef {
    /// The items of the module in the order validation reads them.
    pub open spec fn items(self) -> Seq<Item> {
        self.unused@.map_values(|s: SliceRef| Item::Unused(s)) + self.tieoffs@.map_values(
            |s: SliceRef| Item::Tieoff(s),
        ) + self.assignments@.map_values(|a: Assignment| Item::Assign(a))
            + self.inst_connections@.map_values(|c: InstConnection| Item::Conn(c))
    }
}

impl Design {
    /// The module at position `mi`.
    pub open spec fn module(self, mi: int) -> ModuleDef {
        self.modules@[mi]
    }

    /// The port that `pref` names inside module `mi`.
    pub open spec fn port_io(self, mi: int, pref: PortRef) -> IO {
        match pref {
            PortRef::ModDef { port } => self.module(mi).ports@[port as int],
            PortRef::ModInst { inst, port } => self.module(
                self.module(mi).instances@[inst as int] as int,
            ).ports@[port as int],
        }
    }

    /// The width of the port that `pref` names inside module `mi`.
    pub open spec fn port_width(self, mi: int, pref: PortRef) -> int {
        self.port_io(mi, pref).spec_width() as int
    }

    /// `pref` names a port inside module `mi`.
    pub open spec fn ref_ok(self, mi: int, pref: PortRef) -> bool {
        match pref {
            PortRef::ModDef { port } => port < self.module(mi).ports@.len(),
            PortRef::ModInst { inst, port } => inst < self.module(mi).instances@.len() && port
                < self.module(self.module(mi).instances@[inst as int] as int).ports@.len(),
        }
    }

    /// Every port reference of an item names a port of module `mi`, and a
    /// pipeline clock is a port of at least one bit.
    pub open spec fn item_ok(self, mi: int, item: Item) -> bool {
        match item {
            Item::Unused(s) => self.ref_ok(mi, s.port),
            Item::Tieoff(s) => self.ref_ok(mi, s.port),
            Item::Assign(a) => {
                &&& self.ref_ok(mi, a.lhs.port)
                &&& self.ref_ok(mi, a.rhs.port)
                &&& (a.pipeline_clk matches Some(clk) ==> clk < self.module(mi).ports@.len()
                    && self.module(mi).ports@[clk as int].spec_width() >= 1)
            },
            Item::Conn(c) => {
                &&& self.ref_ok(mi, c.inst_slice.port)
                &&& (c.connected_to matches ConnTarget::Slice(o) ==> self.ref_ok(mi, o.port))
            },
        }
    }

    /// The design is well formed: its lists are as long as vectors can be,
    /// every instance is of a definition listed before the module that
    /// holds it (so the hierarchy has no cycle), and every port reference
    /// names a port.
    pub open spec fn wf(self) -> bool {
        &&& forall|mi: int|
            0 <= mi < self.modules@.len() ==> (#[trigger] self.module(mi)).instances@.len() <= usize::MAX
                && self.module(mi).ports@.len() <= usize::MAX
        &&& forall|mi: int, k: int|
            0 <= mi < self.modules@.len() && 0 <= k < self.module(mi).instances@.len() ==> #[trigger] self.module(mi).instances@[k] < mi
        &&& forall|mi: int, k: int|
            0 <= mi < self.modules@.len() && 0 <= k < self.module(mi).items().len() ==> #[trigger] self.item_ok(mi, self.module(mi).items()[k])
    }

    /// The slice's bits are bits of its port.
    pub open spec fn slice_valid(self, mi: int, s: SliceRef) -> bool {
        s.lsb <= s.msb < self.port_width(mi, s.port)
    }

    pub open spec fn can_be_driven(self, mi: int, s: SliceRef) -> bool {
        spec_can_be_driven(is_own(s.port), self.port_io(mi, s.port))
    }

    pub open spec fn can_drive(self, mi: int, s: SliceRef) -> bool {
        spec_can_drive(is_own(s.port), self.port_io(mi, s.port))
    }

    pub open spec fn must_be_driven(self, mi: int, pref: PortRef) -> bool {
        spec_must_be_driven(is_own(pref), self.port_io(mi, pref))
    }

    /// The width of what an instance port slice is connected to.
    pub open spec fn target_width(self, t: ConnTarget) -> int {
        match t {
            ConnTarget::Slice(o) => slice_width(o),
            ConnTarget::Wire(w) => w as int,
        }
    }

    /// The fault an item shows before any bit is looked at.
    pub open spec fn item_fault(self, mi: int, item: Item) -> Option<Fault> {
        match item {
            Item::Unused(s) => if !self.slice_valid(mi, s) {
                Some(Fault::InvalidSlice(s))
            } else if !self.can_drive(mi, s) {
                Some(Fault::UnusedNotDriver(s))
            } else {
                None
            },
            Item::Tieoff(s) => if !self.slice_valid(mi, s) {
                Some(Fault::InvalidSlice(s))
            } else if !self.can_be_driven(mi, s) {
                Some(Fault::TieoffNotDrivable(s))
            } else {
                None
            },
            Item::Assign(a) => if !self.slice_valid(mi, a.lhs) {
                Some(Fault::InvalidSlice(a.lhs))
            } else if !self.slice_valid(mi, a.rhs) {
                Some(Fault::InvalidSlice(a.rhs))
            } else if !self.can_be_driven(mi, a.lhs) {
                Some(Fault::LhsNotDrivable(a.lhs))
            } else if !self.can_drive(mi, a.rhs) {
                Some(Fault::RhsNotDriver(a.rhs))
            } else if slice_width(a.lhs) != slice_width(a.rhs) {
                Some(Fault::AssignWidthMismatch(a.lhs))
            } else {
                None
            },
            Item::Conn(c) => if !self.slice_valid(mi, c.inst_slice) {
                Some(Fault::InvalidSlice(c.inst_slice))
            } else if c.connected_to matches ConnTarget::Slice(o) && !self.slice_valid(mi, o) {
                Some(Fault::InvalidSlice(c.connected_to->Slice_0))
            } else if slice_width(c.inst_slice) != self.target_width(c.connected_to) {
                Some(Fault::ConnWidthMismatch(c.inst_slice))
            } else {
                None
            },
        }
    }

    /// What an item does to bits, in order: marking unused, tying off,
    /// driving the left side of an assignment and using its right side
    /// (and its clock), or driving or using an instance port slice and the
    /// slice it is connected to, each by the direction of its port.
    pub open spec fn events(self, mi: int, item: Item) -> Seq<Event> {
        match item {
            Item::Unused(s) => seq![Event { slice: s, action: Action::MarkUnused, clock: false }],
            Item::Tieoff(s) => seq![Event { slice: s, action: Action::Drive, clock: false }],
            Item::Assign(a) => seq![
                Event { slice: a.lhs, action: Action::Drive, clock: false },
                Event { slice: a.rhs, action: Action::Use, clock: false },
            ] + match a.pipeline_clk {
                Some(clk) => seq![Event { slice: clock_slice(clk), action: Action::Use, clock: true }],
                None => Seq::empty(),
            },
            Item::Conn(c) => seq![
                Event {
                    slice: c.inst_slice,
                    action: if self.port_io(mi, c.inst_slice.port) is Input {
                        Action::Drive
                    } else {
                        Action::Use
                    },
                    clock: false,
                },
            ] + match c.connected_to {
                ConnTarget::Slice(o) => seq![
                    Event {
                        slice: o,
                        action: if self.port_io(mi, o.port) is Output {
                            Action::Drive
                        } else {
                            Action::Use
                        },
                        clock: false,
                    },
                ],
                ConnTarget::Wire(_) => Seq::empty(),
            },
        }
    }

    /// An event acts on a port of the right direction: a drive on a port
    /// that must be driven, a use or a mark on a driving port.
    pub open spec fn event_direction_ok(self, mi: int, e: Event) -> bool {
        self.must_be_driven(mi, e.slice.port) == (e.action is Drive)
    }

    /// The fault that an event meets on bit state `st`, if any.
    pub open spec fn event_fault(self, mi: int, st: BitState, e: Event) -> Option<Fault> {
        let s = e.slice;
        if !self.event_direction_ok(mi, e) {
            Some(Fault::WrongDirection(s))
        } else {
            match e.action {
                Action::Drive => if exists|b: int| s.lsb <= b <= s.msb && code(st, s.port, b) != 0 {
                    Some(Fault::MultiplyDriven(s))
                } else {
                    None
                },
                Action::Use => if exists|b: int| s.lsb <= b <= s.msb && code(st, s.port, b) == 2 {
                    if e.clock {
                        Some(Fault::PipelineClockUnused(s.port->ModDef_port))
                    } else {
                        Some(Fault::UnusedButUsed(s))
                    }
                } else {
                    None
                },
                Action::MarkUnused => if exists|b: int| s.lsb <= b <= s.msb && code(st, s.port, b) == 2 {
                    Some(Fault::MultiplyUnused(s))
                } else if exists|b: int| s.lsb <= b <= s.msb && code(st, s.port, b) == 1 {
                    Some(Fault::UnusedButUsed(s))
                } else {
                    None
                },
            }
        }
    }

    /// The bit state after an event that met no fault.
    pub open spec fn event_after(self, st: BitState, e: Event) -> BitState {
        set_port_bits(
            st,
            e.slice.port,
            e.slice.lsb as int,
            e.slice.msb as int,
            if e.action is MarkUnused {
                2
            } else {
                1
            },
        )
    }

    /// Events applied in order to `st`: the state after them, or the first
    /// fault.
    pub open spec fn run_events(self, mi: int, st: BitState, es: Seq<Event>) -> Result<BitState, Fault>
        decreases es.len(),
    {
        if es.len() == 0 {
            Ok(st)
        } else {
            match self.run_events(mi, st, es.drop_last()) {
                Err(f) => Err(f),
                Ok(s2) => match self.event_fault(mi, s2, es.last()) {
                    Some(f) => Err(f),
                    None => Ok(self.event_after(s2, es.last())),
                },
            }
        }
    }

    /// One item applied to `st`.
    pub open spec fn item_step(self, mi: int, st: BitState, item: Item) -> Result<BitState, Fault> {
        match self.item_fault(mi, item) {
            Some(f) => Err(f),
            None => self.run_events(mi, st, self.events(mi, item)),
        }
    }

    /// No bit of any port of module `mi` touched yet.
    pub open spec fn init_state(self, mi: int) -> BitState {
        let m = self.module(mi);
        (
            Seq::new(m.ports@.len(), |p: int| Seq::new(m.ports@[p].spec_width() as nat, |b: int| 0u8)),
            Seq::new(
                m.instances@.len(),
                |i: int|
                    {
                        let sub = self.module(m.instances@[i] as int);
                        Seq::new(
                            sub.ports@.len(),
                            |p: int| Seq::new(sub.ports@[p].spec_width() as nat, |b: int| 0u8),
                        )
                    },
            ),
        )
    }

    /// Items applied in order from the initial state of module `mi`.
    pub open spec fn run_items(self, mi: int, items: Seq<Item>) -> Result<BitState, Fault>
        decreases items.len(),
    {
        if items.len() == 0 {
            Ok(self.init_state(mi))
        } else {
            match self.run_items(mi, items.drop_last()) {
                Err(f) => Err(f),
                Ok(st) => self.item_step(mi, st, items.last()),
            }
        }
    }

    /// The ports inside module `mi` in the order validation checks them:
    /// the module's own, then those of each instance.
    pub open spec fn port_refs(self, mi: int) -> Seq<PortRef> {
        Seq::new(self.module(mi).ports@.len(), |p: int| PortRef::ModDef { port: p as usize })
            + self.inst_port_refs(mi, self.module(mi).instances@.len() as int)
    }

    /// The ports of the first `k` instances of module `mi`.
    pub open spec fn inst_port_refs(self, mi: int, k: int) -> Seq<PortRef>
        decreases k,
    {
        if k <= 0 {
            Seq::empty()
        } else {
            self.inst_port_refs(mi, k - 1) + Seq::new(
                self.module(self.module(mi).instances@[k - 1] as int).ports@.len(),
                |p: int| PortRef::ModInst { inst: (k - 1) as usize, port: p as usize },
            )
        }
    }

    /// Port `pref` falls short at the end: it must be driven (if
    /// `driven`) or drives (if not), and some bit of it is untouched.
    pub open spec fn port_short(self, mi: int, st: BitState, pref: PortRef, driven: bool) -> bool {
        &&& self.must_be_driven(mi, pref) == driven
        &&& exists|b: int| 0 <= b < self.port_width(mi, pref) && code(st, pref, b) == 0
    }

    /// The first of `refs` that falls short.
    pub open spec fn first_short(self, mi: int, st: BitState, refs: Seq<PortRef>, driven: bool) -> Option<PortRef>
        decreases refs.len(),
    {
        if refs.len() == 0 {
            None
        } else {
            match self.first_short(mi, st, refs.drop_last(), driven) {
                Some(p) => Some(p),
                None => if self.port_short(mi, st, refs.last(), driven) {
                    Some(refs.last())
                } else {
                    None
                },
            }
        }
    }

    /// The first fault of module `mi` itself: in its items, then an
    /// undriven port, then a driving port neither used nor marked unused.
    pub open spec fn module_fault(self, mi: int) -> Option<Fault> {
        match self.run_items(mi, self.module(mi).items()) {
            Err(f) => Some(f),
            Ok(st) => match self.first_short(mi, st, self.port_refs(mi), true) {
                Some(p) => Some(Fault::Undriven(p)),
                None => match self.first_short(mi, st, self.port_refs(mi), false) {
                    Some(p) => Some(Fault::Unused(p)),
                    None => None,
                },
            },
        }
    }

    /// The first fault found when validating module `mi`: nothing where
    /// it does not descend; otherwise each instance's definition in turn,
    /// then the module itself.
    pub open spec fn spec_first_error(self, mi: int) -> Option<ValidationError>
        decreases mi, 1int, 0int,
    {
        if mi < 0 || mi >= self.modules@.len() || self.module(mi).usage != Usage::EmitDefinitionAndDescend {
            None
        } else {
            match self.first_instance_error(mi, self.module(mi).instances@.len() as int) {
                Some(e) => Some(e),
                None => match self.module_fault(mi) {
                    Some(f) => Some(ValidationError { module: mi as usize, fault: f }),
                    None => None,
                },
            }
        }
    }

    /// The first fault found in the definitions of the first `k` instances
    /// of module `mi`.
    pub open spec fn first_instance_error(self, mi: int, k: int) -> Option<ValidationError>
        decreases mi, 0int, k,
    {
        if k <= 0 || mi < 0 || mi >= self.modules@.len() || k > self.module(mi).instances@.len() {
            None
        } else {
            match self.first_instance_error(mi, k - 1) {
                Some(e) => Some(e),
                None => {
                    let sub = self.module(mi).instances@[k - 1] as int;
                    if sub < mi {
                        self.spec_first_error(sub)
                    } else {
                        None
                    }
                },
            }
        }
    }
}


/// The bit state of a module while it is validated: a row of bit codes for
/// each of its own ports, and one for each port of each instance.
pub struct Bits {
    pub own: Vec<Vec<u8>>,
    pub inst: Vec<Vec<Vec<u8>>>,
}

impl Bits {
    pub open spec fn view(&self) -> BitState {
        (
            Seq::new(self.own@.len(), |p: int| self.own@[p]@),
            Seq::new(
                self.inst@.len(),
                |i: int| Seq::new(self.inst@[i]@.len(), |p: int| self.inst@[i]@[p]@),
            ),
        )
    }

    /// The rows have the lengths of the ports of module `mi`.
    pub open spec fn shaped(&self, d: Design, mi: int) -> bool {
        let m = d.module(mi);
        &&& self.own@.len() == m.ports@.len()
        &&& forall|p: int| 0 <= p < m.ports@.len() ==> #[trigger] self.own@[p]@.len() == m.ports@[p].spec_width()
        &&& self.inst@.len() == m.instances@.len()
        &&& forall|i: int| 0 <= i < m.instances@.len() ==> #[trigger] self.inst@[i]@.len() == d.module(m.instances@[i] as int).ports@.len()
        &&& forall|i: int, p: int|
            0 <= i < m.instances@.len() && 0 <= p < d.module(m.instances@[i] as int).ports@.len() ==> #[trigger] self.inst@[i]@[p]@.len()
                == d.module(m.instances@[i] as int).ports@[p].spec_width()
    }
}

fn zeros(w: usize) -> (r: Vec<u8>)
    ensures
        r@ == Seq::new(w as nat, |b: int| 0u8),
{
    let mut v: Vec<u8> = Vec::new();
    for b in 0..w
        invariant
            v@ == Seq::new(b as nat, |j: int| 0u8),
    {
        v.push(0u8);
    }
    v
}

fn zero_rows(ports: &Vec<IO>) -> (r: Vec<Vec<u8>>)
    ensures
        r@.len() == ports@.len(),
        forall|p: int| 0 <= p < ports@.len() ==> #[trigger] r@[p]@ == Seq::new(ports@[p].spec_width() as nat, |b: int| 0u8),
{
    let mut rows: Vec<Vec<u8>> = Vec::new();
    for p in 0..ports.len()
        invariant
            rows@.len() == p,
            forall|q: int| 0 <= q < p ==> #[trigger] rows@[q]@ == Seq::new(ports@[q].spec_width() as nat, |b: int| 0u8),
    {
        rows.push(zeros(ports[p].width()));
    }
    rows
}

/// No bit of module `mi` touched.
fn init_bits(d: &Design, mi: usize) -> (r: Bits)
    requires
        d.wf(),
        mi < d.modules@.len(),
    ensures
        r@ == d.init_state(mi as int),
        r.shaped(*d, mi as int),
{
    let m = &d.modules[mi];
    let own = zero_rows(&m.ports);
    let mut inst: Vec<Vec<Vec<u8>>> = Vec::new();
    for i in 0..m.instances.len()
        invariant
            m == d.module(mi as int),
            d.wf(),
            mi < d.modules@.len(),
            inst@.len() == i,
            forall|j: int| 0 <= j < i ==> #[trigger] inst@[j]@.len() == d.module(m.instances@[j] as int).ports@.len(),
            forall|j: int, p: int|
                0 <= j < i && 0 <= p < d.module(m.instances@[j] as int).ports@.len() ==> #[trigger] inst@[j]@[p]@
                    == Seq::new(d.module(m.instances@[j] as int).ports@[p].spec_width() as nat, |b: int| 0u8),
    {
        let sub = m.instances[i];
        assert(sub < mi);
        inst.push(zero_rows(&d.modules[sub].ports));
    }
    let r = Bits { own, inst };
    assert(r@.0 =~= d.init_state(mi as int).0);
    assert(r@.1 =~= d.init_state(mi as int).1) by {
        assert forall|i: int| 0 <= i < r@.1.len() implies r@.1[i] =~= #[trigger] d.init_state(mi as int).1[i] by {}
    }
    r
}

/// The port that `pref` names inside module `mi`.
fn port_io(d: &Design, mi: usize, pref: PortRef) -> (r: IO)
    requires
        d.wf(),
        mi < d.modules@.len(),
        d.ref_ok(mi as int, pref),
    ensures
        r == d.port_io(mi as int, pref),
{
    let m = &d.modules[mi];
    match pref {
        PortRef::ModDef { port } => m.ports[port],
        PortRef::ModInst { inst, port } => d.modules[m.instances[inst]].ports[port],
    }
}

fn must_be_driven(own: bool, io: IO) -> (r: bool)
    ensures
        r == spec_must_be_driven(own, io),
{
    match io {
        IO::Input(_) => !own,
        IO::Output(_) => own,
        IO::InOut(_) => false,
    }
}

fn can_drive(own: bool, io: IO) -> (r: bool)
    ensures
        r == spec_can_drive(own, io),
{
    match io {
        IO::Input(_) => own,
        IO::Output(_) => !own,
        IO::InOut(_) => true,
    }
}

fn can_be_driven(own: bool, io: IO) -> (r: bool)
    ensures
        r == spec_can_be_driven(own, io),
{
    match io {
        IO::Input(_) => !own,
        IO::Output(_) => own,
        IO::InOut(_) => true,
    }
}

fn own_port(pref: PortRef) -> (r: bool)
    ensures
        r == is_own(pref),
{
    match pref {
        PortRef::ModDef { .. } => true,
        PortRef::ModInst { .. } => false,
    }
}

fn slice_valid(d: &Design, mi: usize, s: SliceRef) -> (r: bool)
    requires
        d.wf(),
        mi < d.modules@.len(),
        d.ref_ok(mi as int, s.port),
    ensures
        r == d.slice_valid(mi as int, s),
{
    let w = port_io(d, mi, s.port).width();
    s.lsb <= s.msb && s.msb < w
}

/// The fault an item shows before any bit is looked at.
fn item_fault(d: &Design, mi: usize, item: Item) -> (r: Option<Fault>)
    requires
        d.wf(),
        mi < d.modules@.len(),
        d.item_ok(mi as int, item),
    ensures
        r == d.item_fault(mi as int, item),
{
    match item {
        Item::Unused(s) => {
            if !slice_valid(d, mi, s) {
                Some(Fault::InvalidSlice(s))
            } else if !can_drive(own_port(s.port), port_io(d, mi, s.port)) {
                Some(Fault::UnusedNotDriver(s))
            } else {
                None
            }
        },
        Item::Tieoff(s) => {
            if !slice_valid(d, mi, s) {
                Some(Fault::InvalidSlice(s))
            } else if !can_be_driven(own_port(s.port), port_io(d, mi, s.port)) {
                Some(Fault::TieoffNotDrivable(s))
            } else {
                None
            }
        },
        Item::Assign(a) => {
            if !slice_valid(d, mi, a.lhs) {
                Some(Fault::InvalidSlice(a.lhs))
            } else if !slice_valid(d, mi, a.rhs) {
                Some(Fault::InvalidSlice(a.rhs))
            } else if !can_be_driven(own_port(a.lhs.port), port_io(d, mi, a.lhs.port)) {
                Some(Fault::LhsNotDrivable(a.lhs))
            } else if !can_drive(own_port(a.rhs.port), port_io(d, mi, a.rhs.port)) {
                Some(Fault::RhsNotDriver(a.rhs))
            } else if a.lhs.msb - a.lhs.lsb != a.rhs.msb - a.rhs.lsb {
                Some(Fault::AssignWidthMismatch(a.lhs))
            } else {
                None
            }
        },
        Item::Conn(c) => {
            if !slice_valid(d, mi, c.inst_slice) {
                return Some(Fault::InvalidSlice(c.inst_slice));
            }
            let tw: usize = match c.connected_to {
                ConnTarget::Slice(o) => {
                    if !slice_valid(d, mi, o) {
                        return Some(Fault::InvalidSlice(o));
                    }
                    o.msb - o.lsb + 1
                },
                ConnTarget::Wire(w) => w,
            };
            if c.inst_slice.msb - c.inst_slice.lsb + 1 != tw {
                Some(Fault::ConnWidthMismatch(c.inst_slice))
            } else {
                None
            }
        },
    }
}

/// What an item does to bits.
fn item_events(d: &Design, mi: usize, item: Item) -> (r: Vec<Event>)
    requires
        d.wf(),
        mi < d.modules@.len(),
        d.item_ok(mi as int, item),
    ensures
        r@ == d.events(mi as int, item),
{
    let mut es: Vec<Event> = Vec::new();
    match item {
        Item::Unused(s) => {
            es.push(Event { slice: s, action: Action::MarkUnused, clock: false });
        },
        Item::Tieoff(s) => {
            es.push(Event { slice: s, action: Action::Drive, clock: false });
        },
        Item::Assign(a) => {
            es.push(Event { slice: a.lhs, action: Action::Drive, clock: false });
            es.push(Event { slice: a.rhs, action: Action::Use, clock: false });
            match a.pipeline_clk {
                Some(clk) => {
                    es.push(
                        Event {
                            slice: SliceRef { port: PortRef::ModDef { port: clk }, msb: 0, lsb: 0 },
                            action: Action::Use,
                            clock: true,
                        },
                    );
                },
                None => {},
            }
        },
        Item::Conn(c) => {
            let a = match port_io(d, mi, c.inst_slice.port) {
                IO::Input(_) => Action::Drive,
                _ => Action::Use,
            };
            es.push(Event { slice: c.inst_slice, action: a, clock: false });
            match c.connected_to {
                ConnTarget::Slice(o) => {
                    let b = match port_io(d, mi, o.port) {
                        IO::Output(_) => Action::Drive,
                        _ => Action::Use,
                    };
                    es.push(Event { slice: o, action: b, clock: false });
                },
                ConnTarget::Wire(_) => {},
            }
        },
    }
    assert(es@ =~= d.events(mi as int, item));
    es
}

/// The row of bit codes of port `pref`.
fn row_of<'a>(bits: &'a Bits, pref: PortRef) -> (r: &'a Vec<u8>)
    requires
        pref matches PortRef::ModDef { port } ==> port < bits.own@.len(),
        pref matches PortRef::ModInst { inst, port } ==> inst < bits.inst@.len() && port < bits.inst@[inst as int]@.len(),
    ensures
        forall|b: int| 0 <= b < r@.len() ==> r@[b] == #[trigger] code(bits@, pref, b),
        r@.len() == match pref {
            PortRef::ModDef { port } => bits@.0[port as int].len(),
            PortRef::ModInst { inst, port } => bits@.1[inst as int][port as int].len(),
        },
{
    match pref {
        PortRef::ModDef { port } => &bits.own[port],
        PortRef::ModInst { inst, port } => &bits.inst[inst][port],
    }
}

fn set_row(row: &mut Vec<u8>, lo: usize, hi: usize, c: u8)
    requires
        lo <= hi < old(row)@.len(),
    ensures
        final(row)@ == set_bits(old(row)@, lo as int, hi as int, c),
{
    let ghost orig = row@;
    let n = row.len();
    assert(hi < n);
    let mut b = lo;
    while b <= hi
        invariant
            lo <= b,
            b <= hi + 1,
            hi < orig.len(),
            hi < usize::MAX,
            row@.len() == orig.len(),
            forall|j: int| 0 <= j < orig.len() ==> #[trigger] row@[j] == if lo <= j < b { c } else { orig[j] },
        decreases hi + 1 - b,
    {
        row.set(b, c);
        b += 1;
    }
    assert(row@ =~= set_bits(orig, lo as int, hi as int, c));
}

/// Applies one event to the bit state, or reports its fault.
fn apply_event(d: &Design, mi: usize, bits: &mut Bits, e: Event) -> (r: Option<Fault>)
    requires
        d.wf(),
        mi < d.modules@.len(),
        d.ref_ok(mi as int, e.slice.port),
        d.slice_valid(mi as int, e.slice),
        e.clock ==> e.slice.port is ModDef,
        old(bits).shaped(*d, mi as int),
    ensures
        final(bits).shaped(*d, mi as int),
        r == d.event_fault(mi as int, old(bits)@, e),
        r is None ==> final(bits)@ == d.event_after(old(bits)@, e),
        r is Some ==> *final(bits) == *old(bits),
{
    let s = e.slice;
    let io = port_io(d, mi, s.port);
    let ghost st = bits@;
    proof {
        let m = d.module(mi as int);
        match s.port {
            PortRef::ModDef { port } => {
                assert(bits.own@[port as int]@.len() == m.ports@[port as int].spec_width());
            },
            PortRef::ModInst { inst, port } => {
                assert(bits.inst@[inst as int]@.len() == d.module(m.instances@[inst as int] as int).ports@.len());
                assert(bits.inst@[inst as int]@[port as int]@.len() == d.module(m.instances@[inst as int] as int).ports@[port as int].spec_width());
            },
        }
    }
    let drive = match e.action {
        Action::Drive => true,
        _ => false,
    };
    if must_be_driven(own_port(s.port), io) != drive {
        return Some(Fault::WrongDirection(s));
    }
    let row = row_of(bits, s.port);
    let mut any_set = false;
    let mut any_used = false;
    let mut any_unused = false;
    let mut b = s.lsb;
    while b <= s.msb
        invariant
            s.lsb <= b <= s.msb + 1,
            s.msb < row@.len(),
            s.msb < usize::MAX,
            forall|j: int| 0 <= j < row@.len() ==> row@[j] == #[trigger] code(st, s.port, j),
            any_set <==> exists|j: int| s.lsb <= j < b && code(st, s.port, j) != 0,
            any_used <==> exists|j: int| s.lsb <= j < b && code(st, s.port, j) == 1,
            any_unused <==> exists|j: int| s.lsb <= j < b && code(st, s.port, j) == 2,
        decreases s.msb + 1 - b,
    {
        let c = row[b];
        assert(c == code(st, s.port, b as int));
        if c != 0 {
            any_set = true;
        }
        if c == 1 {
            any_used = true;
        }
        if c == 2 {
            any_unused = true;
        }
        b += 1;
    }
    assert(any_set <==> exists|j: int| s.lsb <= j <= s.msb && code(st, s.port, j) != 0);
    assert(any_used <==> exists|j: int| s.lsb <= j <= s.msb && code(st, s.port, j) == 1);
    assert(any_unused <==> exists|j: int| s.lsb <= j <= s.msb && code(st, s.port, j) == 2);
    let c: u8 = match e.action {
        Action::Drive => {
            if any_set {
                return Some(Fault::MultiplyDriven(s));
            }
            1
        },
        Action::Use => {
            if any_unused {
                if e.clock {
                    let port = match s.port {
                        PortRef::ModDef { port } => port,
                        PortRef::ModInst { port, .. } => port,
                    };
                    return Some(Fault::PipelineClockUnused(port));
                }
                return Some(Fault::UnusedButUsed(s));
            }
            1
        },
        Action::MarkUnused => {
            if any_unused {
                return Some(Fault::MultiplyUnused(s));
            }
            if any_used {
                return Some(Fault::UnusedButUsed(s));
            }
            2
        },
    };
    let ghost old_own = bits.own@;
    let ghost old_inst = bits.inst@;
    match s.port {
        PortRef::ModDef { port } => {
            let mut row = bits.own.remove(port);
            set_row(&mut row, s.lsb, s.msb, c);
            bits.own.insert(port, row);
            assert(bits.own@ =~= old_own.update(port as int, row));
            assert(bits.inst@ == old_inst);
        },
        PortRef::ModInst { inst, port } => {
            let mut ports = bits.inst.remove(inst);
            let ghost old_ports = ports@;
            let mut row = ports.remove(port);
            set_row(&mut row, s.lsb, s.msb, c);
            ports.insert(port, row);
            assert(ports@ =~= old_ports.update(port as int, row));
            bits.inst.insert(inst, ports);
            assert(bits.inst@ =~= old_inst.update(inst as int, ports));
            assert(bits.own@ == old_own);
        },
    }
    assert(bits@.0 =~= d.event_after(st, e).0);
    assert(bits@.1 =~= d.event_after(st, e).1) by {
        assert forall|i: int| 0 <= i < bits@.1.len() implies #[trigger] bits@.1[i] =~= d.event_after(st, e).1[i] by {}
    }
    None
}

/// The events of an item that shows no fault of its own act on valid
/// slices of ports of the module.
proof fn lemma_events_ok(d: Design, mi: int, item: Item)
    requires
        d.wf(),
        0 <= mi < d.modules@.len(),
        d.item_ok(mi, item),
        d.item_fault(mi, item) is None,
    ensures
        forall|k: int|
            0 <= k < d.events(mi, item).len() ==> {
                let e = #[trigger] d.events(mi, item)[k];
                &&& d.ref_ok(mi, e.slice.port)
                &&& d.slice_valid(mi, e.slice)
                &&& (e.clock ==> e.slice.port is ModDef)
            },
{
}

/// Applies one item to the bit state, or reports its fault.
fn apply_item(d: &Design, mi: usize, bits: &mut Bits, item: Item) -> (r: Option<Fault>)
    requires
        d.wf(),
        mi < d.modules@.len(),
        d.item_ok(mi as int, item),
        old(bits).shaped(*d, mi as int),
    ensures
        final(bits).shaped(*d, mi as int),
        match d.item_step(mi as int, old(bits)@, item) {
            Ok(st) => r is None && final(bits)@ == st,
            Err(f) => r == Some(f),
        },
{
    let f = item_fault(d, mi, item);
    if f.is_some() {
        return f;
    }
    proof {
        lemma_events_ok(*d, mi as int, item);
    }
    let es = item_events(d, mi, item);
    let ghost st0 = bits@;
    assert(st0 == old(bits)@);
    assert(d.item_step(mi as int, st0, item) == d.run_events(mi as int, st0, es@));
    assert(es@.take(0) =~= Seq::<Event>::empty());
    for k in 0..es.len()
        invariant
            d.wf(),
            mi < d.modules@.len(),
            es@ == d.events(mi as int, item),
            forall|j: int|
                0 <= j < d.events(mi as int, item).len() ==> {
                    let e = #[trigger] d.events(mi as int, item)[j];
                    &&& d.ref_ok(mi as int, e.slice.port)
                    &&& d.slice_valid(mi as int, e.slice)
                    &&& (e.clock ==> e.slice.port is ModDef)
                },
            bits.shaped(*d, mi as int),
            d.run_events(mi as int, st0, es@.take(k as int)) == Ok::<BitState, Fault>(bits@),
            d.item_step(mi as int, st0, item) == d.run_events(mi as int, st0, es@),
            st0 == old(bits)@,
    {
        assert(es@.take(k + 1).drop_last() =~= es@.take(k as int));
        assert(es@.take(k + 1).last() == es@[k as int]);
        let e = es[k];
        assert(d.events(mi as int, item)[k as int] == e);
        let r = apply_event(d, mi, bits, e);
        if r.is_some() {
            proof {
                assert(d.run_events(mi as int, st0, es@.take(k + 1)) == Err::<BitState, Fault>(r->0));
                lemma_run_events_stops(*d, mi as int, st0, es@, k as int);
            }
            return r;
        }
    }
    assert(es@.take(es@.len() as int) =~= es@);
    None
}

/// Once a prefix of events meets a fault, so do all the events.
proof fn lemma_run_events_stops(d: Design, mi: int, st: BitState, es: Seq<Event>, k: int)
    requires
        0 <= k < es.len(),
        d.run_events(mi, st, es.take(k + 1)) is Err,
    ensures
        d.run_events(mi, st, es) == d.run_events(mi, st, es.take(k + 1)),
    decreases es.len() - k,
{
    if k + 1 < es.len() {
        assert(es.drop_last().take(k + 1) =~= es.take(k + 1));
        lemma_run_events_stops(d, mi, st, es.drop_last(), k);
    } else {
        assert(es.take(k + 1) =~= es);
    }
}

/// The items of a module in the order validation reads them.
fn module_items(m: &ModuleDef) -> (r: Vec<Item>)
    ensures
        r@ == m.items(),
{
    let mut a: Vec<Item> = Vec::new();
    for i in 0..m.unused.len()
        invariant
            a@.len() == i,
            forall|j: int| 0 <= j < i ==> #[trigger] a@[j] == Item::Unused(m.unused@[j]),
    {
        a.push(Item::Unused(m.unused[i]));
    }
    let mut b: Vec<Item> = Vec::new();
    for i in 0..m.tieoffs.len()
        invariant
            b@.len() == i,
            forall|j: int| 0 <= j < i ==> #[trigger] b@[j] == Item::Tieoff(m.tieoffs@[j]),
    {
        b.push(Item::Tieoff(m.tieoffs[i]));
    }
    let mut c: Vec<Item> = Vec::new();
    for i in 0..m.assignments.len()
        invariant
            c@.len() == i,
            forall|j: int| 0 <= j < i ==> #[trigger] c@[j] == Item::Assign(m.assignments@[j]),
    {
        c.push(Item::Assign(m.assignments[i]));
    }
    let mut e: Vec<Item> = Vec::new();
    for i in 0..m.inst_connections.len()
        invariant
            e@.len() == i,
            forall|j: int| 0 <= j < i ==> #[trigger] e@[j] == Item::Conn(m.inst_connections@[j]),
    {
        e.push(Item::Conn(m.inst_connections[i]));
    }
    assert(a@ =~= m.unused@.map_values(|s: SliceRef| Item::Unused(s)));
    assert(b@ =~= m.tieoffs@.map_values(|s: SliceRef| Item::Tieoff(s)));
    assert(c@ =~= m.assignments@.map_values(|x: Assignment| Item::Assign(x)));
    assert(e@ =~= m.inst_connections@.map_values(|x: InstConnection| Item::Conn(x)));
    a.append(&mut b);
    a.append(&mut c);
    a.append(&mut e);
    a
}

/// Once a prefix of items meets a fault, so do all the items.
proof fn lemma_run_items_stops(d: Design, mi: int, items: Seq<Item>, k: int)
    requires
        0 <= k < items.len(),
        d.run_items(mi, items.take(k + 1)) is Err,
    ensures
        d.run_items(mi, items) == d.run_items(mi, items.take(k + 1)),
    decreases items.len() - k,
{
    if k + 1 < items.len() {
        assert(items.drop_last().take(k + 1) =~= items.take(k + 1));
        lemma_run_items_stops(d, mi, items.drop_last(), k);
    } else {
        assert(items.take(k + 1) =~= items);
    }
}

/// Once a prefix of ports holds one that falls short, the first such port
/// of all of them is that one.
proof fn lemma_first_short_stops(d: Design, mi: int, st: BitState, refs: Seq<PortRef>, driven: bool, k: int)
    requires
        0 <= k < refs.len(),
        d.first_short(mi, st, refs.take(k + 1), driven) is Some,
    ensures
        d.first_short(mi, st, refs, driven) == d.first_short(mi, st, refs.take(k + 1), driven),
    decreases refs.len() - k,
{
    if k + 1 < refs.len() {
        assert(refs.drop_last().take(k + 1) =~= refs.take(k + 1));
        lemma_first_short_stops(d, mi, st, refs.drop_last(), driven, k);
    } else {
        assert(refs.take(k + 1) =~= refs);
    }
}

/// The ports inside module `mi` in the order validation checks them.
fn port_refs(d: &Design, mi: usize) -> (r: Vec<PortRef>)
    requires
        d.wf(),
        mi < d.modules@.len(),
    ensures
        r@ == d.port_refs(mi as int),
        forall|j: int| 0 <= j < r@.len() ==> d.ref_ok(mi as int, #[trigger] r@[j]),
{
    let m = &d.modules[mi];
    let mut r: Vec<PortRef> = Vec::new();
    for p in 0..m.ports.len()
        invariant
            m == d.module(mi as int),
            r@ == Seq::new(p as nat, |q: int| PortRef::ModDef { port: q as usize }),
            forall|j: int| 0 <= j < r@.len() ==> d.ref_ok(mi as int, #[trigger] r@[j]),
    {
        r.push(PortRef::ModDef { port: p });
        assert(r@ =~= Seq::new((p + 1) as nat, |q: int| PortRef::ModDef { port: q as usize }));
    }
    let ghost own = r@;
    for k in 0..m.instances.len()
        invariant
            d.wf(),
            mi < d.modules@.len(),
            m == d.module(mi as int),
            own == Seq::new(m.ports@.len(), |q: int| PortRef::ModDef { port: q as usize }),
            r@ == own + d.inst_port_refs(mi as int, k as int),
            forall|j: int| 0 <= j < r@.len() ==> d.ref_ok(mi as int, #[trigger] r@[j]),
    {
        let sub = m.instances[k];
        assert(sub < mi);
        let n = d.modules[sub].ports.len();
        let ghost base = r@;
        for p in 0..n
            invariant
                d.wf(),
                mi < d.modules@.len(),
                m == d.module(mi as int),
                k < m.instances@.len(),
                sub == m.instances@[k as int],
                n == d.module(sub as int).ports@.len(),
                r@ == base + Seq::new(p as nat, |q: int| PortRef::ModInst { inst: k, port: q as usize }),
                forall|j: int| 0 <= j < r@.len() ==> d.ref_ok(mi as int, #[trigger] r@[j]),
        {
            r.push(PortRef::ModInst { inst: k, port: p });
            assert(r@ =~= base + Seq::new((p + 1) as nat, |q: int| PortRef::ModInst { inst: k, port: q as usize }));
        }
        assert(d.inst_port_refs(mi as int, k + 1) == d.inst_port_refs(mi as int, k as int) + Seq::new(
            n as nat,
            |q: int| PortRef::ModInst { inst: k, port: q as usize },
        ));
        assert(r@ =~= own + d.inst_port_refs(mi as int, k + 1));
    }
    r
}

/// Whether port `pref` falls short at the end.
fn port_short(d: &Design, mi: usize, bits: &Bits, pref: PortRef, driven: bool) -> (r: bool)
    requires
        d.wf(),
        mi < d.modules@.len(),
        d.ref_ok(mi as int, pref),
        bits.shaped(*d, mi as int),
    ensures
        r == d.port_short(mi as int, bits@, pref, driven),
{
    let io = port_io(d, mi, pref);
    if must_be_driven(own_port(pref), io) != driven {
        return false;
    }
    proof {
        let m = d.module(mi as int);
        match pref {
            PortRef::ModDef { port } => {
                assert(bits.own@[port as int]@.len() == m.ports@[port as int].spec_width());
            },
            PortRef::ModInst { inst, port } => {
                assert(bits.inst@[inst as int]@.len() == d.module(m.instances@[inst as int] as int).ports@.len());
                assert(bits.inst@[inst as int]@[port as int]@.len() == d.module(m.instances@[inst as int] as int).ports@[port as int].spec_width());
            },
        }
    }
    assert(d.must_be_driven(mi as int, pref) == driven);
    let row = row_of(bits, pref);
    let w = io.width();
    assert(row@.len() == w);
    let mut b: usize = 0;
    while b < w
        invariant
            b <= w,
            w == d.port_width(mi as int, pref),
            d.must_be_driven(mi as int, pref) == driven,
            row@.len() == w,
            forall|j: int| 0 <= j < row@.len() ==> row@[j] == #[trigger] code(bits@, pref, j),
            forall|j: int| 0 <= j < b ==> code(bits@, pref, j) != 0,
        decreases w - b,
    {
        if row[b] == 0 {
            assert(code(bits@, pref, b as int) == 0);
            assert(d.must_be_driven(mi as int, pref) == driven);
            assert(0 <= b < d.port_width(mi as int, pref));
            return true;
        }
        b += 1;
    }
    false
}

/// The first of `refs` that falls short.
fn first_short(d: &Design, mi: usize, bits: &Bits, refs: &Vec<PortRef>, driven: bool) -> (r: Option<PortRef>)
    requires
        d.wf(),
        mi < d.modules@.len(),
        forall|j: int| 0 <= j < refs@.len() ==> d.ref_ok(mi as int, #[trigger] refs@[j]),
        bits.shaped(*d, mi as int),
    ensures
        r == d.first_short(mi as int, bits@, refs@, driven),
{
    assert(refs@.take(0) =~= Seq::<PortRef>::empty());
    for j in 0..refs.len()
        invariant
            d.wf(),
            mi < d.modules@.len(),
            forall|q: int| 0 <= q < refs@.len() ==> d.ref_ok(mi as int, #[trigger] refs@[q]),
            bits.shaped(*d, mi as int),
            d.first_short(mi as int, bits@, refs@.take(j as int), driven) is None,
    {
        assert(refs@.take(j + 1).drop_last() =~= refs@.take(j as int));
        assert(refs@.take(j + 1).last() == refs@[j as int]);
        if port_short(d, mi, bits, refs[j], driven) {
            proof {
                lemma_first_short_stops(*d, mi as int, bits@, refs@, driven, j as int);
            }
            return Some(refs[j]);
        }
    }
    assert(refs@.take(refs@.len() as int) =~= refs@);
    None
}

/// The first fault of module `mi` itself.
fn module_fault(d: &Design, mi: usize) -> (r: Option<Fault>)
    requires
        d.wf(),
        mi < d.modules@.len(),
    ensures
        r == d.module_fault(mi as int),
{
    let m = &d.modules[mi];
    let items = module_items(m);
    let mut bits = init_bits(d, mi);
    assert(items@.take(0) =~= Seq::<Item>::empty());
    for k in 0..items.len()
        invariant
            d.wf(),
            mi < d.modules@.len(),
            m == d.module(mi as int),
            items@ == m.items(),
            bits.shaped(*d, mi as int),
            d.run_items(mi as int, items@.take(k as int)) == Ok::<BitState, Fault>(bits@),
    {
        assert(items@.take(k + 1).drop_last() =~= items@.take(k as int));
        assert(items@.take(k + 1).last() == items@[k as int]);
        assert(d.item_ok(mi as int, m.items()[k as int]));
        let f = apply_item(d, mi, &mut bits, items[k]);
        if f.is_some() {
            proof {
                lemma_run_items_stops(*d, mi as int, items@, k as int);
            }
            return f;
        }
    }
    assert(items@.take(items@.len() as int) =~= items@);
    let refs = port_refs(d, mi);
    match first_short(d, mi, &bits, &refs, true) {
        Some(p) => {
            return Some(Fault::Undriven(p));
        },
        None => {},
    }
    match first_short(d, mi, &bits, &refs, false) {
        Some(p) => Some(Fault::Unused(p)),
        None => None,
    }
}

/// The first fault found when validating module `mi`.
fn validate_module(d: &Design, mi: usize) -> (r: Result<(), ValidationError>)
    requires
        d.wf(),
        mi < d.modules@.len(),
    ensures
        match d.spec_first_error(mi as int) {
            None => r is Ok,
            Some(e) => r == Err::<(), ValidationError>(e),
        },
    decreases mi,
{
    let m = &d.modules[mi];
    match m.usage {
        Usage::EmitDefinitionAndDescend => {},
        _ => {
            return Ok(());
        },
    }
    for k in 0..m.instances.len()
        invariant
            d.wf(),
            mi < d.modules@.len(),
            m == d.module(mi as int),
            m.usage == Usage::EmitDefinitionAndDescend,
            d.first_instance_error(mi as int, k as int) is None,
    {
        let sub = m.instances[k];
        assert(sub < mi);
        match validate_module(d, sub) {
            Ok(()) => {},
            Err(e) => {
                proof {
                    lemma_first_instance_error_stops(*d, mi as int, k as int, m.instances@.len() as int);
                }
                return Err(e);
            },
        }
    }
    match module_fault(d, mi) {
        Some(f) => Err(ValidationError { module: mi, fault: f }),
        None => Ok(()),
    }
}

/// Once the instances before `k + 1` hold a fault, the first fault among
/// the first `n` of them is that one.
proof fn lemma_first_instance_error_stops(d: Design, mi: int, k: int, n: int)
    requires
        0 <= k < n <= d.module(mi).instances@.len(),
        0 <= mi < d.modules@.len(),
        d.first_instance_error(mi, k + 1) is Some,
    ensures
        d.first_instance_error(mi, n) == d.first_instance_error(mi, k + 1),
    decreases n - k,
{
    if k + 1 < n {
        lemma_first_instance_error_stops(d, mi, k, n - 1);
    }
}

/// Validates module `top` of the design and, first, every module it
/// descends into: each input bit inside a module must be driven exactly
/// once, and each output bit used at least once unless it is marked
/// unused. A module whose usage is not `EmitDefinitionAndDescend` is not
/// validated, and neither are the modules it instantiates. Gives the first
/// fault found.
pub fn validate(design: &Design, top: usize) -> (r: Result<(), ValidationError>)
    requires
        design.wf(),
        top < design.modules@.len(),
    ensures
        r is Ok <==> design.spec_valid(top as int),
        r is Ok <==> design.spec_first_error(top as int) is None,
        r matches Err(e) ==> design.spec_first_error(top as int) == Some(e),
{
    proof {
        lemma_validation_law(*design, top as int);
    }
    validate_module(design, top)
}

/// How many of the events `es` do `act` to bit `b` of port `pref`.
pub open spec fn ev_count(es: Seq<Event>, pref: PortRef, b: int, act: Action) -> nat
    decreases es.len(),
{
    if es.len() == 0 {
        0
    } else {
        ev_count(es.drop_last(), pref, b, act) + if covers(es.last().slice, pref, b) && es.last().action
            == act {
            1nat
        } else {
            0nat
        }
    }
}

/// A bit is driven at most once, marked unused at most once, and never
/// both marked unused and used.
pub open spec fn bit_limits(es: Seq<Event>, pref: PortRef, b: int) -> bool {
    &&& ev_count(es, pref, b, Action::Drive) <= 1
    &&& ev_count(es, pref, b, Action::MarkUnused) <= 1
    &&& !(ev_count(es, pref, b, Action::MarkUnused) >= 1 && ev_count(es, pref, b, Action::Use) >= 1)
}

/// The code a bit has after the events `es`.
pub open spec fn code_of(es: Seq<Event>, pref: PortRef, b: int) -> u8 {
    if ev_count(es, pref, b, Action::Drive) >= 1 || ev_count(es, pref, b, Action::Use) >= 1 {
        1
    } else if ev_count(es, pref, b, Action::MarkUnused) >= 1 {
        2
    } else {
        0
    }
}

impl Design {
    /// Bit `b` of port `pref` exists inside module `mi`.
    pub open spec fn valid_bit(self, mi: int, pref: PortRef, b: int) -> bool {
        self.ref_ok(mi, pref) && 0 <= b < self.port_width(mi, pref)
    }

    /// Every event of `es` acts on a port of the right direction.
    pub open spec fn directions_ok(self, mi: int, es: Seq<Event>) -> bool {
        forall|k: int| 0 <= k < es.len() ==> #[trigger] self.event_direction_ok(mi, es[k])
    }

    /// Every bit of module `mi` stays within the limits after `es`.
    pub open spec fn limits_ok(self, mi: int, es: Seq<Event>) -> bool {
        forall|pref: PortRef, b: int| self.valid_bit(mi, pref, b) ==> #[trigger] bit_limits(es, pref, b)
    }

    /// The bit state `st` is what the events `es`, all of the right
    /// direction and within the limits, leave.
    pub open spec fn reflects(self, mi: int, st: BitState, es: Seq<Event>) -> bool {
        &&& self.state_shaped(mi, st)
        &&& self.directions_ok(mi, es)
        &&& self.limits_ok(mi, es)
        &&& forall|pref: PortRef, b: int| self.valid_bit(mi, pref, b) ==> #[trigger] code(st, pref, b) == code_of(es, pref, b)
    }

    /// All events of the items `items`, in order.
    pub open spec fn all_events(self, mi: int, items: Seq<Item>) -> Seq<Event>
        decreases items.len(),
    {
        if items.len() == 0 {
            Seq::empty()
        } else {
            self.all_events(mi, items.drop_last()) + self.events(mi, items.last())
        }
    }

    /// No item of `items` shows a fault of its own.
    pub open spec fn items_ok(self, mi: int, items: Seq<Item>) -> bool {
        forall|k: int| 0 <= k < items.len() ==> (#[trigger] self.item_fault(mi, items[k])) is None
    }

    /// What a bit must show once every item of its module is read: a bit
    /// that must be driven is driven exactly once; a driving bit is marked
    /// unused once and never used, or used at least once and never marked
    /// unused.
    pub open spec fn bit_sound(self, mi: int, es: Seq<Event>, pref: PortRef, b: int) -> bool {
        if self.must_be_driven(mi, pref) {
            ev_count(es, pref, b, Action::Drive) == 1
        } else {
            ||| ev_count(es, pref, b, Action::MarkUnused) == 1 && ev_count(es, pref, b, Action::Use) == 0
            ||| ev_count(es, pref, b, Action::MarkUnused) == 0 && ev_count(es, pref, b, Action::Use) >= 1
        }
    }

    /// Module `mi` itself is sound: each of its items is well formed and
    /// acts in the direction of its ports, and every bit of every port
    /// inside it is sound.
    pub open spec fn module_sound(self, mi: int) -> bool {
        let items = self.module(mi).items();
        let es = self.all_events(mi, items);
        &&& self.items_ok(mi, items)
        &&& self.directions_ok(mi, es)
        &&& forall|pref: PortRef, b: int| self.valid_bit(mi, pref, b) ==> #[trigger] self.bit_sound(mi, es, pref, b)
    }

    /// Module `mi` is valid: it does not descend, or the definitions of all
    /// its instances are valid and it is sound itself.
    pub open spec fn spec_valid(self, mi: int) -> bool
        decreases mi, 1int, 0int,
    {
        if mi < 0 || mi >= self.modules@.len() || self.module(mi).usage != Usage::EmitDefinitionAndDescend {
            true
        } else {
            self.instances_valid(mi, self.module(mi).instances@.len() as int) && self.module_sound(mi)
        }
    }

    /// The definitions of the first `k` instances of module `mi` are valid.
    pub open spec fn instances_valid(self, mi: int, k: int) -> bool
        decreases mi, 0int, k,
    {
        if k <= 0 || mi < 0 || mi >= self.modules@.len() || k > self.module(mi).instances@.len() {
            true
        } else {
            self.instances_valid(mi, k - 1) && {
                let sub = self.module(mi).instances@[k - 1] as int;
                sub < mi ==> self.spec_valid(sub)
            }
        }
    }
}

impl Design {
    /// The bit state has a row of the right length for every port of
    /// module `mi`.
    pub open spec fn state_shaped(self, mi: int, st: BitState) -> bool {
        let m = self.module(mi);
        &&& st.0.len() == m.ports@.len()
        &&& forall|p: int| 0 <= p < m.ports@.len() ==> #[trigger] st.0[p].len() == m.ports@[p].spec_width()
        &&& st.1.len() == m.instances@.len()
        &&& forall|i: int| 0 <= i < m.instances@.len() ==> #[trigger] st.1[i].len() == self.module(m.instances@[i] as int).ports@.len()
        &&& forall|i: int, p: int|
            0 <= i < m.instances@.len() && 0 <= p < self.module(m.instances@[i] as int).ports@.len() ==> #[trigger] st.1[i][p].len()
                == self.module(m.instances@[i] as int).ports@[p].spec_width()
    }
}

/// Events of the right direction leave a port that must be driven only
/// driven, and a driving port never driven.
proof fn lemma_direction_counts(d: Design, mi: int, es: Seq<Event>, pref: PortRef, b: int)
    requires
        d.directions_ok(mi, es),
    ensures
        d.must_be_driven(mi, pref) ==> ev_count(es, pref, b, Action::Use) == 0 && ev_count(es, pref, b, Action::MarkUnused) == 0,
        !d.must_be_driven(mi, pref) ==> ev_count(es, pref, b, Action::Drive) == 0,
    decreases es.len(),
{
    if es.len() > 0 {
        assert(d.directions_ok(mi, es.drop_last())) by {
            assert forall|k: int| 0 <= k < es.drop_last().len() implies #[trigger] d.event_direction_ok(mi, es.drop_last()[k]) by {
                assert(es.drop_last()[k] == es[k]);
                assert(d.event_direction_ok(mi, es[k]));
            }
        }
        lemma_direction_counts(d, mi, es.drop_last(), pref, b);
        assert(d.event_direction_ok(mi, es[es.len() - 1]));
    }
}

/// Setting the bits of a slice changes exactly the bits it covers.
proof fn lemma_code_after(d: Design, mi: int, st: BitState, e: Event, pref: PortRef, b: int)
    requires
        0 <= mi < d.modules@.len(),
        d.state_shaped(mi, st),
        d.ref_ok(mi, e.slice.port),
        d.slice_valid(mi, e.slice),
        d.valid_bit(mi, pref, b),
    ensures
        code(d.event_after(st, e), pref, b) == if covers(e.slice, pref, b) {
            if e.action is MarkUnused {
                2u8
            } else {
                1u8
            }
        } else {
            code(st, pref, b)
        },
        d.state_shaped(mi, d.event_after(st, e)),
{
    let m = d.module(mi);
    match pref {
        PortRef::ModDef { port } => {
            assert(st.0[port as int].len() == m.ports@[port as int].spec_width());
        },
        PortRef::ModInst { inst, port } => {
            assert(st.1[inst as int].len() == d.module(m.instances@[inst as int] as int).ports@.len());
            assert(st.1[inst as int][port as int].len() == d.module(m.instances@[inst as int] as int).ports@[port as int].spec_width());
        },
    }
    match e.slice.port {
        PortRef::ModDef { port } => {
            assert(st.0[port as int].len() == m.ports@[port as int].spec_width());
        },
        PortRef::ModInst { inst, port } => {
            assert(st.1[inst as int].len() == d.module(m.instances@[inst as int] as int).ports@.len());
            assert(st.1[inst as int][port as int].len() == d.module(m.instances@[inst as int] as int).ports@[port as int].spec_width());
        },
    }
    let n = d.event_after(st, e);
    assert(d.state_shaped(mi, n)) by {
        assert forall|i: int| 0 <= i < m.instances@.len() implies #[trigger] n.1[i].len() == d.module(m.instances@[i] as int).ports@.len() by {
            assert(st.1[i].len() == d.module(m.instances@[i] as int).ports@.len());
        }
        assert forall|i: int, p: int|
            0 <= i < m.instances@.len() && 0 <= p < d.module(m.instances@[i] as int).ports@.len() implies #[trigger] n.1[i][p].len()
                == d.module(m.instances@[i] as int).ports@[p].spec_width() by {
            assert(st.1[i][p].len() == d.module(m.instances@[i] as int).ports@[p].spec_width());
            assert(st.1[i].len() == d.module(m.instances@[i] as int).ports@.len());
        }
        assert forall|p: int| 0 <= p < m.ports@.len() implies #[trigger] n.0[p].len() == m.ports@[p].spec_width() by {
            assert(st.0[p].len() == m.ports@[p].spec_width());
        }
    }
}

/// One more event counts once more on each bit its slice covers.
proof fn lemma_count_push(es: Seq<Event>, e: Event, pref: PortRef, b: int, act: Action)
    ensures
        ev_count(es.push(e), pref, b, act) == ev_count(es, pref, b, act) + if covers(e.slice, pref, b)
            && e.action == act {
            1nat
        } else {
            0nat
        },
{
    assert(es.push(e).drop_last() =~= es);
}

/// An event on a state that reflects the events `q` meets no fault exactly
/// when it acts in the right direction and keeps every bit within the
/// limits; the state after it then reflects `q` with the event added.
proof fn lemma_event(d: Design, mi: int, st: BitState, q: Seq<Event>, e: Event)
    requires
        0 <= mi < d.modules@.len(),
        d.ref_ok(mi, e.slice.port),
        d.slice_valid(mi, e.slice),
        d.reflects(mi, st, q),
    ensures
        (d.event_fault(mi, st, e) is None) <==> (d.event_direction_ok(mi, e) && d.limits_ok(mi, q.push(e))),
        d.event_fault(mi, st, e) is None ==> d.reflects(mi, d.event_after(st, e), q.push(e)),
{
    let s = e.slice;
    let pp = s.port;
    let q2 = q.push(e);
    if !d.event_direction_ok(mi, e) {
        return;
    }
    // bits the event does not cover keep their counts and codes
    assert forall|pref: PortRef, b: int| d.valid_bit(mi, pref, b) && !covers(s, pref, b) implies #[trigger] bit_limits(q2, pref, b)
        && code_of(q2, pref, b) == code_of(q, pref, b) by {
        lemma_count_push(q, e, pref, b, Action::Drive);
        lemma_count_push(q, e, pref, b, Action::Use);
        lemma_count_push(q, e, pref, b, Action::MarkUnused);
        assert(bit_limits(q, pref, b));
    }
    // on a covered bit, the code before tells whether the event fits
    assert forall|b: int| s.lsb <= b <= s.msb implies {
        &&& d.valid_bit(mi, pp, b)
        &&& (#[trigger] bit_limits(q2, pp, b) <==> match e.action {
            Action::Drive => code(st, pp, b) == 0,
            Action::Use => code(st, pp, b) != 2,
            Action::MarkUnused => code(st, pp, b) == 0,
        })
        &&& (bit_limits(q2, pp, b) ==> code_of(q2, pp, b) == if e.action is MarkUnused {
            2u8
        } else {
            1u8
        })
    } by {
        lemma_count_push(q, e, pp, b, Action::Drive);
        lemma_count_push(q, e, pp, b, Action::Use);
        lemma_count_push(q, e, pp, b, Action::MarkUnused);
        lemma_direction_counts(d, mi, q, pp, b);
        assert(bit_limits(q, pp, b));
        assert(code(st, pp, b) == code_of(q, pp, b));
    }
    let fault = d.event_fault(mi, st, e);
    if fault is None {
        assert forall|pref: PortRef, b: int| d.valid_bit(mi, pref, b) implies #[trigger] bit_limits(q2, pref, b) by {
            if covers(s, pref, b) {
                assert(bit_limits(q2, pp, b));
            }
        }
        assert(d.directions_ok(mi, q2)) by {
            assert forall|k: int| 0 <= k < q2.len() implies #[trigger] d.event_direction_ok(mi, q2[k]) by {
                if k < q.len() {
                    assert(q2[k] == q[k]);
                }
            }
        }
        let n = d.event_after(st, e);
        assert forall|pref: PortRef, b: int| d.valid_bit(mi, pref, b) implies #[trigger] code(n, pref, b) == code_of(q2, pref, b) by {
            lemma_code_after(d, mi, st, e, pref, b);
            if covers(s, pref, b) {
                assert(bit_limits(q2, pp, b));
            } else {
                assert(bit_limits(q2, pref, b));
                assert(code(st, pref, b) == code_of(q, pref, b));
            }
        }
        lemma_code_after(d, mi, st, e, pp, s.lsb as int);
    } else {
        let b = choose|b: int| s.lsb <= b <= s.msb && match e.action {
            Action::Drive => code(st, pp, b) != 0,
            Action::Use => code(st, pp, b) == 2,
            Action::MarkUnused => code(st, pp, b) != 0,
        };
        assert(!bit_limits(q2, pp, b));
    }
}

/// Fewer events stay within the limits where more do.
proof fn lemma_limits_prefix(d: Design, mi: int, q: Seq<Event>, r: Seq<Event>)
    requires
        d.limits_ok(mi, q + r),
    ensures
        d.limits_ok(mi, q),
    decreases r.len(),
{
    if r.len() > 0 {
        let r2 = r.drop_last();
        assert((q + r) =~= (q + r2).push(r.last()));
        assert forall|pref: PortRef, b: int| d.valid_bit(mi, pref, b) implies #[trigger] bit_limits(q + r2, pref, b) by {
            lemma_count_push(q + r2, r.last(), pref, b, Action::Drive);
            lemma_count_push(q + r2, r.last(), pref, b, Action::Use);
            lemma_count_push(q + r2, r.last(), pref, b, Action::MarkUnused);
            assert(bit_limits(q + r, pref, b));
        }
        lemma_limits_prefix(d, mi, q, r2);
    } else {
        assert(q + r =~= q);
    }
}

/// The events of `q + r` act in the right direction exactly when those
/// of `q` and those of `r` do.
proof fn lemma_directions_concat(d: Design, mi: int, q: Seq<Event>, r: Seq<Event>)
    ensures
        d.directions_ok(mi, q + r) <==> d.directions_ok(mi, q) && d.directions_ok(mi, r),
{
    if d.directions_ok(mi, q + r) {
        assert forall|k: int| 0 <= k < q.len() implies #[trigger] d.event_direction_ok(mi, q[k]) by {
            assert((q + r)[k] == q[k]);
        }
        assert forall|k: int| 0 <= k < r.len() implies #[trigger] d.event_direction_ok(mi, r[k]) by {
            assert((q + r)[q.len() + k] == r[k]);
        }
    }
    if d.directions_ok(mi, q) && d.directions_ok(mi, r) {
        assert forall|k: int| 0 <= k < (q + r).len() implies #[trigger] d.event_direction_ok(mi, (q + r)[k]) by {
            if k < q.len() {
                assert((q + r)[k] == q[k]);
            } else {
                assert((q + r)[k] == r[k - q.len()]);
            }
        }
    }
}

/// Events run on a state that reflects `pre` meet no fault exactly when
/// they act in the right direction and keep every bit within the limits;
/// the state after them then reflects `pre + es`.
proof fn lemma_run_events(d: Design, mi: int, st: BitState, pre: Seq<Event>, es: Seq<Event>)
    requires
        0 <= mi < d.modules@.len(),
        d.reflects(mi, st, pre),
        forall|k: int| 0 <= k < es.len() ==> d.ref_ok(mi, (#[trigger] es[k]).slice.port) && d.slice_valid(mi, es[k].slice),
    ensures
        (d.run_events(mi, st, es) is Ok) <==> (d.directions_ok(mi, es) && d.limits_ok(mi, pre + es)),
        d.run_events(mi, st, es) matches Ok(st2) ==> d.reflects(mi, st2, pre + es),
    decreases es.len(),
{
    if es.len() == 0 {
        assert(pre + es =~= pre);
    } else {
        let es2 = es.drop_last();
        let e = es.last();
        assert(e == es[es.len() - 1]);
        assert forall|k: int| 0 <= k < es2.len() implies d.ref_ok(mi, (#[trigger] es2[k]).slice.port) && d.slice_valid(mi, es2[k].slice) by {
            assert(es2[k] == es[k]);
        }
        lemma_run_events(d, mi, st, pre, es2);
        assert(pre + es =~= (pre + es2).push(e));
        assert(es =~= es2 + seq![e]);
        lemma_directions_concat(d, mi, es2, seq![e]);
        assert(d.directions_ok(mi, seq![e]) <==> d.event_direction_ok(mi, e)) by {
            if d.event_direction_ok(mi, e) {
                assert forall|k: int| 0 <= k < seq![e].len() implies #[trigger] d.event_direction_ok(mi, seq![e][k]) by {}
            }
            if d.directions_ok(mi, seq![e]) {
                assert(d.event_direction_ok(mi, seq![e][0]));
            }
        }
        match d.run_events(mi, st, es2) {
            Ok(s2) => {
                lemma_event(d, mi, s2, pre + es2, e);
            },
            Err(_) => {
                if d.limits_ok(mi, pre + es) {
                    assert((pre + es2) + seq![e] =~= pre + es);
                    lemma_limits_prefix(d, mi, pre + es2, seq![e]);
                }
            },
        }
    }
}

/// All events of some items.
proof fn lemma_all_events_ok(d: Design, mi: int, items: Seq<Item>)
    requires
        d.wf(),
        0 <= mi < d.modules@.len(),
        forall|k: int| 0 <= k < items.len() ==> d.item_ok(mi, #[trigger] items[k]),
        d.items_ok(mi, items),
    ensures
        forall|k: int|
            0 <= k < d.all_events(mi, items).len() ==> d.ref_ok(mi, (#[trigger] d.all_events(mi, items)[k]).slice.port)
                && d.slice_valid(mi, d.all_events(mi, items)[k].slice),
    decreases items.len(),
{
    if items.len() > 0 {
        let i2 = items.drop_last();
        assert forall|k: int| 0 <= k < i2.len() implies d.item_ok(mi, #[trigger] i2[k]) by {
            assert(i2[k] == items[k]);
        }
        assert forall|k: int| 0 <= k < i2.len() implies (#[trigger] d.item_fault(mi, i2[k])) is None by {
            assert(i2[k] == items[k]);
        }
        lemma_all_events_ok(d, mi, i2);
        let last = items[items.len() - 1];
        assert(d.item_ok(mi, last));
        assert(d.item_fault(mi, last) is None);
        lemma_events_ok(d, mi, last);
        let a = d.all_events(mi, i2);
        let ev = d.events(mi, last);
        assert forall|k: int| 0 <= k < (a + ev).len() implies d.ref_ok(mi, (#[trigger] (a + ev)[k]).slice.port) && d.slice_valid(mi, (a + ev)[k].slice) by {
            if k >= a.len() {
                assert((a + ev)[k] == ev[k - a.len()]);
            }
        }
    }
}

/// Items run from the initial state meet no fault exactly when none shows
/// a fault of its own and their events act in the right direction within
/// the limits; the state after them then reflects all their events.
proof fn lemma_run_items(d: Design, mi: int, items: Seq<Item>)
    requires
        d.wf(),
        0 <= mi < d.modules@.len(),
        forall|k: int| 0 <= k < items.len() ==> d.item_ok(mi, #[trigger] items[k]),
    ensures
        (d.run_items(mi, items) is Ok) <==> (d.items_ok(mi, items) && d.directions_ok(mi, d.all_events(mi, items))
            && d.limits_ok(mi, d.all_events(mi, items))),
        d.run_items(mi, items) matches Ok(st) ==> d.reflects(mi, st, d.all_events(mi, items)),
    decreases items.len(),
{
    if items.len() == 0 {
        let init = d.init_state(mi);
        let m = d.module(mi);
        assert(d.state_shaped(mi, init));
        assert forall|pref: PortRef, b: int| d.valid_bit(mi, pref, b) implies #[trigger] code(init, pref, b) == code_of(Seq::<Event>::empty(), pref, b) by {
            match pref {
                PortRef::ModDef { port } => {},
                PortRef::ModInst { inst, port } => {},
            }
        }
    } else {
        let i2 = items.drop_last();
        let last = items[items.len() - 1];
        assert(items.last() == last);
        assert forall|k: int| 0 <= k < i2.len() implies d.item_ok(mi, #[trigger] i2[k]) by {
            assert(i2[k] == items[k]);
        }
        lemma_run_items(d, mi, i2);
        let pre = d.all_events(mi, i2);
        let ev = d.events(mi, last);
        assert(d.all_events(mi, items) == pre + ev);
        lemma_directions_concat(d, mi, pre, ev);
        assert(d.items_ok(mi, items) <==> d.items_ok(mi, i2) && d.item_fault(mi, last) is None) by {
            if d.items_ok(mi, items) {
                assert forall|k: int| 0 <= k < i2.len() implies (#[trigger] d.item_fault(mi, i2[k])) is None by {
                    assert(i2[k] == items[k]);
                }
                assert(d.item_fault(mi, items[items.len() - 1]) is None);
            }
            if d.items_ok(mi, i2) && d.item_fault(mi, last) is None {
                assert forall|k: int| 0 <= k < items.len() implies (#[trigger] d.item_fault(mi, items[k])) is None by {
                    if k < i2.len() {
                        assert(i2[k] == items[k]);
                    }
                }
            }
        }
        match d.run_items(mi, i2) {
            Ok(st) => {
                if d.item_fault(mi, last) is None {
                    assert(d.item_ok(mi, last));
                    lemma_events_ok(d, mi, last);
                    lemma_run_events(d, mi, st, pre, ev);
                }
            },
            Err(_) => {
                if d.limits_ok(mi, pre + ev) {
                    lemma_limits_prefix(d, mi, pre, ev);
                }
            },
        }
    }
}

/// No port of `refs` falls short exactly when the first one that does is
/// none.
proof fn lemma_first_short_none(d: Design, mi: int, st: BitState, refs: Seq<PortRef>, driven: bool)
    ensures
        d.first_short(mi, st, refs, driven) is None <==> forall|j: int|
            0 <= j < refs.len() ==> !d.port_short(mi, st, #[trigger] refs[j], driven),
    decreases refs.len(),
{
    if refs.len() > 0 {
        let r2 = refs.drop_last();
        lemma_first_short_none(d, mi, st, r2, driven);
        if d.first_short(mi, st, refs, driven) is None {
            assert forall|j: int| 0 <= j < refs.len() implies !d.port_short(mi, st, #[trigger] refs[j], driven) by {
                if j < r2.len() {
                    assert(r2[j] == refs[j]);
                }
            }
        } else {
            if d.first_short(mi, st, r2, driven) is Some {
                let j = choose|j: int| 0 <= j < r2.len() && d.port_short(mi, st, #[trigger] r2[j], driven);
                assert(r2[j] == refs[j]);
            } else {
                assert(d.port_short(mi, st, refs[refs.len() - 1], driven));
            }
        }
    }
}

/// Port `p` of instance `i`.
pub open spec fn inst_ref(i: int, p: int) -> PortRef {
    PortRef::ModInst { inst: i as usize, port: p as usize }
}

/// The ports of the first `k` instances are ports inside module `mi`, and
/// each port of each of those instances is among them.
proof fn lemma_inst_port_refs(d: Design, mi: int, k: int)
    requires
        d.wf(),
        0 <= mi < d.modules@.len(),
        0 <= k <= d.module(mi).instances@.len(),
    ensures
        forall|j: int| 0 <= j < d.inst_port_refs(mi, k).len() ==> d.ref_ok(mi, #[trigger] d.inst_port_refs(mi, k)[j]),
        forall|i: int, p: int|
            0 <= i < k && 0 <= p < d.module(d.module(mi).instances@[i] as int).ports@.len() ==> d.inst_port_refs(mi, k).contains(
                #[trigger] inst_ref(i, p),
            ),
    decreases k,
{
    if k > 0 {
        lemma_inst_port_refs(d, mi, k - 1);
        let sub = d.module(mi).instances@[k - 1] as int;
        assert(sub < mi);
        assert(d.module(sub).ports@.len() <= usize::MAX);
        let a = d.inst_port_refs(mi, k - 1);
        let n = d.module(d.module(mi).instances@[k - 1] as int).ports@.len();
        let b = Seq::new(n, |p: int| PortRef::ModInst { inst: (k - 1) as usize, port: p as usize });
        assert(d.inst_port_refs(mi, k) == a + b);
        assert forall|j: int| 0 <= j < (a + b).len() implies d.ref_ok(mi, #[trigger] (a + b)[j]) by {
            if j >= a.len() {
                assert((a + b)[j] == b[j - a.len()]);
            } else {
                assert((a + b)[j] == a[j]);
            }
        }
        assert forall|i: int, p: int|
            0 <= i < k && 0 <= p < d.module(d.module(mi).instances@[i] as int).ports@.len() implies (a + b).contains(
                #[trigger] inst_ref(i, p),
            ) by {
            let x = inst_ref(i, p);
            if i < k - 1 {
                let j = choose|j: int| 0 <= j < a.len() && a[j] == x;
                assert((a + b)[j] == x);
            } else {
                assert((a + b)[a.len() + p] == x);
            }
        }
    }
}

/// The ports validation checks are exactly the ports inside module `mi`.
proof fn lemma_port_refs(d: Design, mi: int)
    requires
        d.wf(),
        0 <= mi < d.modules@.len(),
    ensures
        forall|j: int| 0 <= j < d.port_refs(mi).len() ==> d.ref_ok(mi, #[trigger] d.port_refs(mi)[j]),
        forall|pref: PortRef| d.ref_ok(mi, pref) ==> #[trigger] d.port_refs(mi).contains(pref),
{
    let m = d.module(mi);
    lemma_inst_port_refs(d, mi, m.instances@.len() as int);
    let a = Seq::new(m.ports@.len(), |p: int| PortRef::ModDef { port: p as usize });
    let b = d.inst_port_refs(mi, m.instances@.len() as int);
    assert(d.port_refs(mi) == a + b);
    assert forall|j: int| 0 <= j < (a + b).len() implies d.ref_ok(mi, #[trigger] (a + b)[j]) by {
        if j >= a.len() {
            assert((a + b)[j] == b[j - a.len()]);
        }
    }
    assert forall|pref: PortRef| d.ref_ok(mi, pref) implies #[trigger] (a + b).contains(pref) by {
        match pref {
            PortRef::ModDef { port } => {
                assert((a + b)[port as int] == pref);
            },
            PortRef::ModInst { inst, port } => {
                assert(pref == inst_ref(inst as int, port as int));
                assert(b.contains(inst_ref(inst as int, port as int)));
                let j = choose|j: int| 0 <= j < b.len() && b[j] == pref;
                assert((a + b)[a.len() + j] == pref);
            },
        }
    }
}

/// Module `mi` shows no fault of its own exactly when it is sound.
proof fn lemma_module_fault(d: Design, mi: int)
    requires
        d.wf(),
        0 <= mi < d.modules@.len(),
    ensures
        d.module_fault(mi) is None <==> d.module_sound(mi),
{
    let items = d.module(mi).items();
    let es = d.all_events(mi, items);
    let refs = d.port_refs(mi);
    assert forall|k: int| 0 <= k < items.len() implies d.item_ok(mi, #[trigger] items[k]) by {}
    lemma_run_items(d, mi, items);
    lemma_port_refs(d, mi);
    // a sound module keeps every bit within the limits
    if d.module_sound(mi) {
        assert forall|pref: PortRef, b: int| d.valid_bit(mi, pref, b) implies #[trigger] bit_limits(es, pref, b) by {
            assert(d.bit_sound(mi, es, pref, b));
            lemma_direction_counts(d, mi, es, pref, b);
        }
    }
    match d.run_items(mi, items) {
        Ok(st) => {
            lemma_first_short_none(d, mi, st, refs, true);
            lemma_first_short_none(d, mi, st, refs, false);
            // on a state that reflects the events, a bit is touched exactly
            // when it is sound
            assert forall|pref: PortRef, b: int| d.valid_bit(mi, pref, b) implies (#[trigger] code(st, pref, b) != 0) <==> d.bit_sound(mi, es, pref, b) by {
                lemma_direction_counts(d, mi, es, pref, b);
                assert(bit_limits(es, pref, b));
            }
            if d.module_fault(mi) is None {
                assert forall|pref: PortRef, b: int| d.valid_bit(mi, pref, b) implies #[trigger] d.bit_sound(mi, es, pref, b) by {
                    assert(refs.contains(pref));
                    let j = choose|j: int| 0 <= j < refs.len() && refs[j] == pref;
                    assert(!d.port_short(mi, st, refs[j], d.must_be_driven(mi, pref)));
                    assert(code(st, pref, b) != 0);
                }
            }
            if d.module_sound(mi) {
                assert forall|j: int| 0 <= j < refs.len() implies !d.port_short(mi, st, #[trigger] refs[j], true) by {
                    let pref = refs[j];
                    assert(d.ref_ok(mi, pref));
                    assert forall|b: int| 0 <= b < d.port_width(mi, pref) implies code(st, pref, b) != 0 by {
                        assert(d.valid_bit(mi, pref, b));
                        assert(d.bit_sound(mi, es, pref, b));
                    }
                }
                assert forall|j: int| 0 <= j < refs.len() implies !d.port_short(mi, st, #[trigger] refs[j], false) by {
                    let pref = refs[j];
                    assert(d.ref_ok(mi, pref));
                    assert forall|b: int| 0 <= b < d.port_width(mi, pref) implies code(st, pref, b) != 0 by {
                        assert(d.valid_bit(mi, pref, b));
                        assert(d.bit_sound(mi, es, pref, b));
                    }
                }
            }
        },
        Err(_) => {},
    }
}

/// Validating module `mi` finds no fault exactly when it is valid: each
/// input bit inside each module it descends into is driven exactly once,
/// and each output bit is used or marked unused.
pub proof fn lemma_validation_law(d: Design, mi: int)
    requires
        d.wf(),
    ensures
        d.spec_first_error(mi) is None <==> d.spec_valid(mi),
    decreases mi, 1int, 0int,
{
    if 0 <= mi < d.modules@.len() && d.module(mi).usage == Usage::EmitDefinitionAndDescend {
        lemma_instances_law(d, mi, d.module(mi).instances@.len() as int);
        lemma_module_fault(d, mi);
    }
}

/// The definitions of the first `k` instances of module `mi` show no fault
/// exactly when they are valid.
proof fn lemma_instances_law(d: Design, mi: int, k: int)
    requires
        d.wf(),
    ensures
        d.first_instance_error(mi, k) is None <==> d.instances_valid(mi, k),
    decreases mi, 0int, k,
{
    if 0 < k && 0 <= mi < d.modules@.len() && k <= d.module(mi).instances@.len() {
        lemma_instances_law(d, mi, k - 1);
        let sub = d.module(mi).instances@[k - 1] as int;
        if sub < mi {
            lemma_validation_law(d, sub);
        }
    }
}

} // verus!
