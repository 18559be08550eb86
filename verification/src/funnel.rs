use vstd::prelude::*;

use crate::io::IO;

verus! {

/// Whether a port belongs to the module being built or to an instance
/// inside it.
#[derive(Clone, Copy, Debug, PartialEq, Eq, Structural)]
pub enum PortKind {
    ModDef,
    ModInst,
}

/// What the funnel knows of a port slice: the direction of its port, the
/// kind of port, and the width of the slice.
#[derive(Clone, Copy, Debug, PartialEq, Eq, Structural)]
pub struct FunnelPort {
    pub io: IO,
    pub kind: PortKind,
    pub width: usize,
}

impl FunnelPort {
    /// The slice drives a signal inside the module: an input of the module
    /// itself, or an output of an instance.
    pub open spec fn spec_is_driver(self) -> bool {
        match self.kind {
            PortKind::ModDef => self.io is Input,
            PortKind::ModInst => self.io is Output,
        }
    }

    /// Whether the slice drives a signal inside the module.
    pub fn is_driver(&self) -> (r: bool)
        ensures
            r == self.spec_is_driver(),
    {
        match self.kind {
            PortKind::ModDef => matches!(self.io, IO::Input(_)),
            PortKind::ModInst => matches!(self.io, IO::Output(_)),
        }
    }
}

/// One of the two sides of a funnel.
#[derive(Clone, Copy, Debug, PartialEq, Eq, Structural)]
pub enum Side {
    A,
    B,
}

/// One of the two channels of a funnel: from side A's input to side B's
/// output, or from side B's input to side A's output.
#[derive(Clone, Copy, Debug, PartialEq, Eq, Structural)]
pub enum Channel {
    AToB,
    BToA,
}

/// Why a funnel cannot be built or used as asked.
#[derive(Clone, Copy, Debug, PartialEq, Eq, Structural)]
pub enum FunnelError {
    /// Both ports of a side are inputs.
    BothInputs(Side),
    /// Both ports of a side are outputs.
    BothOutputs(Side),
    /// A side has an inout port.
    InOutPort(Side),
    /// Side A's input and side B's output differ in width.
    AInBOutWidthMismatch,
    /// Side A's output and side B's input differ in width.
    AOutBInWidthMismatch,
    /// The two slices to connect differ in width.
    WidthMismatch,
    /// Both slices to connect drive.
    TwoDrivers,
    /// Neither slice to connect drives.
    NoDriver,
    /// The channel lacks `missing` bits for the connection.
    OutOfCapacity { channel: Channel, missing: usize },
    /// The channel still has `remaining` bits unused.
    NotFull { channel: Channel, remaining: usize },
}

/// A run of bits of a funnel slice: `width` bits from `offset` up.
#[derive(Clone, Copy, Debug, PartialEq, Eq, Structural)]
pub struct Span {
    pub offset: usize,
    pub width: usize,
}

/// A connection the funnel decided on: bits `span` of the channel carry the
/// signal. On the a -> b channel, the span of side A's input connects to
/// the driving slice and the same span of side B's output to the other; on
/// the b -> a channel, the span of side A's output connects to the slice
/// on side A's end and the same span of side B's input to the driver.
#[derive(Clone, Copy, Debug, PartialEq, Eq, Structural)]
pub struct FunnelConnection {
    pub channel: Channel,
    pub span: Span,
}

/// The bits of each channel that no connection used: on the a -> b channel
/// the span of side A's input and that of side B's output, on the b -> a
/// channel the span of side B's input and that of side A's output.
#[derive(Clone, Copy, Debug)]
pub struct FunnelRemainder {
    pub a2b: Option<(Span, Span)>,
    pub b2a: Option<(Span, Span)>,
}

/// Routes many narrow connections between two sides through a pair of wide
/// channels, filling each channel from bit 0 up.
#[derive(Clone, Copy, Debug, PartialEq, Eq, Structural)]
pub struct Funnel {
    pub a_in: FunnelPort,
    pub a_out: FunnelPort,
    pub b_in: FunnelPort,
    pub b_out: FunnelPort,
    pub a_in_offset: usize,
    pub a_out_offset: usize,
}

/// Orders the two ports of one side as (input, output).
pub open spec fn spec_side_ports(side: Side, p0: FunnelPort, p1: FunnelPort) -> Result<
    (FunnelPort, FunnelPort),
    FunnelError,
> {
    match (p0.io, p1.io) {
        (IO::Input(_), IO::Output(_)) => Ok((p0, p1)),
        (IO::Output(_), IO::Input(_)) => Ok((p1, p0)),
        (IO::Input(_), IO::Input(_)) => Err(FunnelError::BothInputs(side)),
        (IO::Output(_), IO::Output(_)) => Err(FunnelError::BothOutputs(side)),
        _ => Err(FunnelError::InOutPort(side)),
    }
}

fn side_ports(side: Side, p0: FunnelPort, p1: FunnelPort) -> (r: Result<
    (FunnelPort, FunnelPort),
    FunnelError,
>)
    ensures
        r == spec_side_ports(side, p0, p1),
{
    match (p0.io, p1.io) {
        (IO::Input(_), IO::Output(_)) => Ok((p0, p1)),
        (IO::Output(_), IO::Input(_)) => Ok((p1, p0)),
        (IO::Input(_), IO::Input(_)) => Err(FunnelError::BothInputs(side)),
        (IO::Output(_), IO::Output(_)) => Err(FunnelError::BothOutputs(side)),
        _ => Err(FunnelError::InOutPort(side)),
    }
}

impl Funnel {
    /// Bits of the a -> b channel still free.
    pub open spec fn a2b_free(self) -> int {
        self.a_in.width - self.a_in_offset
    }

    /// Bits of the b -> a channel still free.
    pub open spec fn b2a_free(self) -> int {
        self.a_out.width - self.a_out_offset
    }

    /// The channels pair up in width and neither is used past its end.
    pub open spec fn wf(self) -> bool {
        &&& self.a_in.width == self.b_out.width
        &&& self.a_out.width == self.b_in.width
        &&& self.a_in_offset <= self.a_in.width
        &&& self.a_out_offset <= self.a_out.width
    }

    /// The funnel built from two sides, or why none can be.
    pub open spec fn spec_new(a: (FunnelPort, FunnelPort), b: (FunnelPort, FunnelPort)) -> Result<
        Funnel,
        FunnelError,
    > {
        match spec_side_ports(Side::A, a.0, a.1) {
            Err(e) => Err(e),
            Ok((a_in, a_out)) => match spec_side_ports(Side::B, b.0, b.1) {
                Err(e) => Err(e),
                Ok((b_in, b_out)) => if a_in.width != b_out.width {
                    Err(FunnelError::AInBOutWidthMismatch)
                } else if a_out.width != b_in.width {
                    Err(FunnelError::AOutBInWidthMismatch)
                } else {
                    Ok(Funnel { a_in, a_out, b_in, b_out, a_in_offset: 0, a_out_offset: 0 })
                },
            },
        }
    }

    /// Builds a funnel between side `a` and side `b`, each given as an
    /// input and an output slice in either order. Each side needs exactly
    /// one input and one output, and each input must be as wide as the
    /// other side's output.
    pub fn new(a: (FunnelPort, FunnelPort), b: (FunnelPort, FunnelPort)) -> (r: Funnel)
        requires
            Funnel::spec_new(a, b) is Ok,
        ensures
            Funnel::spec_new(a, b) == Ok::<Funnel, FunnelError>(r),
            r.wf(),
    {
        Funnel::try_new(a, b).unwrap()
    }

    /// Builds a funnel like `new`, or says why the two sides cannot form
    /// one.
    pub fn try_new(a: (FunnelPort, FunnelPort), b: (FunnelPort, FunnelPort)) -> (r: Result<
        Funnel,
        FunnelError,
    >)
        ensures
            r == Funnel::spec_new(a, b),
            r matches Ok(f) ==> f.wf(),
    {
        let (a_in, a_out) = match side_ports(Side::A, a.0, a.1) {
            Ok(p) => p,
            Err(e) => return Err(e),
        };
        let (b_in, b_out) = match side_ports(Side::B, b.0, b.1) {
            Ok(p) => p,
            Err(e) => return Err(e),
        };
        if a_in.width != b_out.width {
            return Err(FunnelError::AInBOutWidthMismatch);
        }
        if a_out.width != b_in.width {
            return Err(FunnelError::AOutBInWidthMismatch);
        }
        Ok(Funnel { a_in, a_out, b_in, b_out, a_in_offset: 0, a_out_offset: 0 })
    }

    /// What connecting `a` to `b` decides: the channel and span, or why the
    /// connection is refused.
    pub open spec fn spec_connect(self, a: FunnelPort, b: FunnelPort) -> Result<
        FunnelConnection,
        FunnelError,
    > {
        if a.width != b.width {
            Err(FunnelError::WidthMismatch)
        } else if a.spec_is_driver() {
            if b.spec_is_driver() {
                Err(FunnelError::TwoDrivers)
            } else if a.width > self.a2b_free() {
                Err(
                    FunnelError::OutOfCapacity {
                        channel: Channel::AToB,
                        missing: (a.width - self.a2b_free()) as usize,
                    },
                )
            } else {
                Ok(
                    FunnelConnection {
                        channel: Channel::AToB,
                        span: Span { offset: self.a_in_offset, width: a.width },
                    },
                )
            }
        } else if b.spec_is_driver() {
            if a.width > self.b2a_free() {
                Err(
                    FunnelError::OutOfCapacity {
                        channel: Channel::BToA,
                        missing: (a.width - self.b2a_free()) as usize,
                    },
                )
            } else {
                Ok(
                    FunnelConnection {
                        channel: Channel::BToA,
                        span: Span { offset: self.a_out_offset, width: a.width },
                    },
                )
            }
        } else {
            Err(FunnelError::NoDriver)
        }
    }

    /// The funnel after a connection: the channel it used moves past its
    /// span.
    pub open spec fn spec_after_connect(self, c: FunnelConnection) -> Funnel {
        match c.channel {
            Channel::AToB => Funnel { a_in_offset: (c.span.offset + c.span.width) as usize, ..self },
            Channel::BToA => Funnel {
                a_out_offset: (c.span.offset + c.span.width) as usize,
                ..self
            },
        }
    }

    /// Connects slice `a` to slice `b` through the funnel. The driving
    /// slice decides the channel: the next free bits of that channel carry
    /// the signal. The slices must be equally wide, exactly one of them
    /// must drive, and the channel must have enough free bits.
    pub fn connect(&mut self, a: &FunnelPort, b: &FunnelPort) -> (r: FunnelConnection)
        requires
            old(self).wf(),
            old(self).spec_connect(*a, *b) is Ok,
        ensures
            final(self).wf(),
            old(self).spec_connect(*a, *b) == Ok::<FunnelConnection, FunnelError>(r),
            *final(self) == old(self).spec_after_connect(r),
    {
        self.try_connect(a, b).unwrap()
    }

    /// Connects like `connect`, or says why the connection is refused:
    /// the widths differ, both or neither slice drives, or the channel has
    /// too few free bits. A refused connection leaves the funnel unchanged.
    pub fn try_connect(&mut self, a: &FunnelPort, b: &FunnelPort) -> (r: Result<
        FunnelConnection,
        FunnelError,
    >)
        requires
            old(self).wf(),
        ensures
            final(self).wf(),
            r == old(self).spec_connect(*a, *b),
            r matches Ok(c) ==> *final(self) == old(self).spec_after_connect(c),
            r is Err ==> *final(self) == *old(self),
    {
        if a.width != b.width {
            return Err(FunnelError::WidthMismatch);
        }
        if a.is_driver() {
            if b.is_driver() {
                return Err(FunnelError::TwoDrivers);
            }
            let free = self.a_in.width - self.a_in_offset;
            if a.width > free {
                return Err(
                    FunnelError::OutOfCapacity { channel: Channel::AToB, missing: a.width - free },
                );
            }
            let span = Span { offset: self.a_in_offset, width: a.width };
            self.a_in_offset = self.a_in_offset + a.width;
            Ok(FunnelConnection { channel: Channel::AToB, span })
        } else if b.is_driver() {
            let free = self.a_out.width - self.a_out_offset;
            if a.width > free {
                return Err(
                    FunnelError::OutOfCapacity { channel: Channel::BToA, missing: a.width - free },
                );
            }
            let span = Span { offset: self.a_out_offset, width: a.width };
            self.a_out_offset = self.a_out_offset + a.width;
            Ok(FunnelConnection { channel: Channel::BToA, span })
        } else {
            Err(FunnelError::NoDriver)
        }
    }

    /// Hands out the unused bits of the a -> b channel, as the span of side
    /// A's input and the span of side B's output, and marks the channel
    /// full; `None` if it is full already.
    pub fn a2b_yield_remaining(&mut self) -> (r: Option<(Span, Span)>)
        requires
            old(self).wf(),
        ensures
            final(self).wf(),
            final(self).a2b_free() == 0,
            final(self).a_out_offset == old(self).a_out_offset,
            final(self).a_in == old(self).a_in && final(self).a_out == old(self).a_out,
            final(self).b_in == old(self).b_in && final(self).b_out == old(self).b_out,
            old(self).a2b_free() == 0 ==> r is None,
            old(self).a2b_free() > 0 ==> r == Some(
                (
                    Span {
                        offset: old(self).a_in_offset,
                        width: (old(self).a_in.width - old(self).a_in_offset) as usize,
                    },
                    Span {
                        offset: old(self).a_in_offset,
                        width: (old(self).b_out.width - old(self).a_in_offset) as usize,
                    },
                ),
            ),
    {
        if self.a_in_offset < self.a_in.width {
            let a_in_span = Span {
                offset: self.a_in_offset,
                width: self.a_in.width - self.a_in_offset,
            };
            let b_out_span = Span {
                offset: self.a_in_offset,
                width: self.b_out.width - self.a_in_offset,
            };
            self.a_in_offset = self.a_in.width;
            Some((a_in_span, b_out_span))
        } else {
            None
        }
    }

    /// Hands out the unused bits of the b -> a channel, as the span of side
    /// B's input and the span of side A's output, and marks the channel
    /// full; `None` if it is full already.
    pub fn b2a_yield_remaining(&mut self) -> (r: Option<(Span, Span)>)
        requires
            old(self).wf(),
        ensures
            final(self).wf(),
            final(self).b2a_free() == 0,
            final(self).a_in_offset == old(self).a_in_offset,
            final(self).a_in == old(self).a_in && final(self).a_out == old(self).a_out,
            final(self).b_in == old(self).b_in && final(self).b_out == old(self).b_out,
            old(self).b2a_free() == 0 ==> r is None,
            old(self).b2a_free() > 0 ==> r == Some(
                (
                    Span {
                        offset: old(self).a_out_offset,
                        width: (old(self).b_in.width - old(self).a_out_offset) as usize,
                    },
                    Span {
                        offset: old(self).a_out_offset,
                        width: (old(self).a_out.width - old(self).a_out_offset) as usize,
                    },
                ),
            ),
    {
        if self.a_out_offset < self.a_out.width {
            let b_in_span = Span {
                offset: self.a_out_offset,
                width: self.b_in.width - self.a_out_offset,
            };
            let a_out_span = Span {
                offset: self.a_out_offset,
                width: self.a_out.width - self.a_out_offset,
            };
            self.a_out_offset = self.a_out.width;
            Some((b_in_span, a_out_span))
        } else {
            None
        }
    }

    /// The funnel with both channels used to the end.
    pub open spec fn spec_filled(self) -> Funnel {
        Funnel { a_in_offset: self.a_in.width, a_out_offset: self.a_out.width, ..self }
    }

    /// Hands out the unused bits of both channels, for the caller to tie
    /// the input spans to 0 and mark the output spans unused; afterwards
    /// both channels are full.
    pub fn tieoff_remaining(&mut self) -> (r: FunnelRemainder)
        requires
            old(self).wf(),
        ensures
            final(self).wf(),
            *final(self) == old(self).spec_filled(),
            r.a2b is Some <==> old(self).a2b_free() > 0,
            r.b2a is Some <==> old(self).b2a_free() > 0,
            r.a2b matches Some((a_in_span, b_out_span)) ==> a_in_span.offset == old(
                self,
            ).a_in_offset && a_in_span.offset + a_in_span.width == old(self).a_in.width
                && b_out_span == a_in_span,
            r.b2a matches Some((b_in_span, a_out_span)) ==> a_out_span.offset == old(
                self,
            ).a_out_offset && a_out_span.offset + a_out_span.width == old(self).a_out.width
                && b_in_span == a_out_span,
    {
        let a2b = self.a2b_yield_remaining();
        let b2a = self.b2a_yield_remaining();
        FunnelRemainder { a2b, b2a }
    }

    /// What checking that a channel is full gives.
    pub open spec fn spec_check_full(self, channel: Channel) -> Result<(), FunnelError> {
        let free = match channel {
            Channel::AToB => self.a2b_free(),
            Channel::BToA => self.b2a_free(),
        };
        if free == 0 {
            Ok(())
        } else {
            Err(FunnelError::NotFull { channel, remaining: free as usize })
        }
    }

    /// Holds only where every bit of the a -> b channel is used.
    pub fn assert_a2b_full(&self)
        requires
            self.wf(),
            self.spec_check_full(Channel::AToB) is Ok,
    {
    }

    /// Holds only where every bit of the b -> a channel is used.
    pub fn assert_b2a_full(&self)
        requires
            self.wf(),
            self.spec_check_full(Channel::BToA) is Ok,
    {
    }

    /// Holds only where both channels are full.
    pub fn assert_full(&self)
        requires
            self.wf(),
            self.spec_check_full(Channel::AToB) is Ok,
            self.spec_check_full(Channel::BToA) is Ok,
    {
    }

    /// Checks that every bit of the a -> b channel is used.
    pub fn check_a2b_full(&self) -> (r: Result<(), FunnelError>)
        requires
            self.wf(),
        ensures
            r == self.spec_check_full(Channel::AToB),
    {
        if self.a_in_offset == self.a_in.width {
            Ok(())
        } else {
            Err(
                FunnelError::NotFull {
                    channel: Channel::AToB,
                    remaining: self.a_in.width - self.a_in_offset,
                },
            )
        }
    }

    /// Checks that every bit of the b -> a channel is used.
    pub fn check_b2a_full(&self) -> (r: Result<(), FunnelError>)
        requires
            self.wf(),
        ensures
            r == self.spec_check_full(Channel::BToA),
    {
        if self.a_out_offset == self.a_out.width {
            Ok(())
        } else {
            Err(
                FunnelError::NotFull {
                    channel: Channel::BToA,
                    remaining: self.a_out.width - self.a_out_offset,
                },
            )
        }
    }

    /// Checks that both channels are full, the a -> b channel first.
    pub fn check_full(&self) -> (r: Result<(), FunnelError>)
        requires
            self.wf(),
        ensures
            r == match self.spec_check_full(Channel::AToB) {
                Err(e) => Err(e),
                Ok(()) => self.spec_check_full(Channel::BToA),
            },
    {
        self.check_a2b_full()?;
        self.check_b2a_full()
    }
}

/// Connections accepted one after the other on the same channel get
/// adjacent spans that never overlap: the second starts where the first
/// ends.
pub proof fn lemma_connections_do_not_overlap(
    f: Funnel,
    a1: FunnelPort,
    b1: FunnelPort,
    a2: FunnelPort,
    b2: FunnelPort,
)
    requires
        f.wf(),
        f.spec_connect(a1, b1) is Ok,
        f.spec_after_connect(f.spec_connect(a1, b1)->Ok_0).spec_connect(a2, b2) is Ok,
        f.spec_connect(a1, b1)->Ok_0.channel == f.spec_after_connect(
            f.spec_connect(a1, b1)->Ok_0,
        ).spec_connect(a2, b2)->Ok_0.channel,
    ensures
        ({
            let c1 = f.spec_connect(a1, b1)->Ok_0;
            let c2 = f.spec_after_connect(c1).spec_connect(a2, b2)->Ok_0;
            c2.span.offset == c1.span.offset + c1.span.width
        }),
{
}

/// Once the remaining bits are handed out, the funnel passes the check
/// that both channels are full.
pub proof fn lemma_tieoff_makes_full(f: Funnel)
    requires
        f.wf(),
    ensures
        f.spec_filled().spec_check_full(Channel::AToB) == Ok::<(), FunnelError>(()),
        f.spec_filled().spec_check_full(Channel::BToA) == Ok::<(), FunnelError>(()),
{
}

/// The port is an input of the module being built.
pub open spec fn is_module_input(p: FunnelPort) -> bool {
    p.kind == PortKind::ModDef && p.io is Input
}

/// The port is an output of the module being built.
pub open spec fn is_module_output(p: FunnelPort) -> bool {
    p.kind == PortKind::ModDef && p.io is Output
}

/// The port is an input of an instance inside the module.
pub open spec fn is_instance_input(p: FunnelPort) -> bool {
    p.kind == PortKind::ModInst && p.io is Input
}

/// The port is an output of an instance inside the module.
pub open spec fn is_instance_output(p: FunnelPort) -> bool {
    p.kind == PortKind::ModInst && p.io is Output
}

/// Inside the module, signals come from the module's own inputs and from
/// instance outputs, and go to the module's own outputs and to instance
/// inputs. So, between two equally wide slices: a source on side A and a
/// sink on side B go through on the a -> b channel at its next free bit
/// when it has room; a sink on side A and a source on side B go through
/// on the b -> a channel likewise; two sources are refused as two drivers,
/// and two sinks as having none.
pub proof fn lemma_connect_by_direction(f: Funnel, a: FunnelPort, b: FunnelPort)
    requires
        f.wf(),
        a.width == b.width,
    ensures
        (is_module_input(a) || is_instance_output(a)) && (is_module_output(b) || is_instance_input(b))
            && a.width <= f.a2b_free() ==> f.spec_connect(a, b) == Ok::<FunnelConnection, FunnelError>(
            FunnelConnection {
                channel: Channel::AToB,
                span: Span { offset: f.a_in_offset, width: a.width },
            },
        ),
        (is_module_output(a) || is_instance_input(a)) && (is_module_input(b) || is_instance_output(b))
            && a.width <= f.b2a_free() ==> f.spec_connect(a, b) == Ok::<FunnelConnection, FunnelError>(
            FunnelConnection {
                channel: Channel::BToA,
                span: Span { offset: f.a_out_offset, width: a.width },
            },
        ),
        (is_module_input(a) || is_instance_output(a)) && (is_module_input(b) || is_instance_output(b))
            ==> f.spec_connect(a, b) == Err::<FunnelConnection, FunnelError>(FunnelError::TwoDrivers),
        (is_module_output(a) || is_instance_input(a)) && (is_module_output(b) || is_instance_input(b))
            ==> f.spec_connect(a, b) == Err::<FunnelConnection, FunnelError>(FunnelError::NoDriver),
{
}

} // verus!
