use vstd::prelude::*;

verus! {

/// The direction (`Input`, `Output` or `InOut`) and bit width of a port.
#[derive(Clone, Copy, Debug, PartialEq, Eq, Structural)]
pub enum IO {
    Input(usize),
    Output(usize),
    InOut(usize),
}

impl IO {
    pub open spec fn spec_width(self) -> usize {
        match self {
            IO::Input(w) => w,
            IO::Output(w) => w,
            IO::InOut(w) => w,
        }
    }

    pub open spec fn spec_flip(self) -> IO {
        match self {
            IO::Input(w) => IO::Output(w),
            IO::Output(w) => IO::Input(w),
            IO::InOut(w) => IO::InOut(w),
        }
    }

    /// The direction keyword used in LEF and DEF.
    pub open spec fn direction_keyword(self) -> Seq<char> {
        match self {
            IO::Input(_) => "INPUT"@,
            IO::Output(_) => "OUTPUT"@,
            IO::InOut(_) => "INOUT"@,
        }
    }

    /// Returns the width of the port in bits.
    pub fn width(&self) -> (r: usize)
        ensures
            r == self.spec_width(),
    {
        match self {
            IO::Input(width) => *width,
            IO::Output(width) => *width,
            IO::InOut(width) => *width,
        }
    }

    /// Returns the same width with the opposite direction; `InOut` stays.
    pub fn flip(&self) -> (r: IO)
        ensures
            r == self.spec_flip(),
    {
        match self {
            IO::Input(width) => IO::Output(*width),
            IO::Output(width) => IO::Input(*width),
            IO::InOut(width) => IO::InOut(*width),
        }
    }

    /// Returns the same direction with a different width.
    pub fn with_width(&self, width: usize) -> (r: IO)
        ensures
            r.spec_width() == width,
            (self is Input) == (r is Input),
            (self is Output) == (r is Output),
            (self is InOut) == (r is InOut),
    {
        match self {
            IO::Input(_) => IO::Input(width),
            IO::Output(_) => IO::Output(width),
            IO::InOut(_) => IO::InOut(width),
        }
    }

    /// The DEF direction keyword.
    pub fn to_def_direction(&self) -> (r: String)
        ensures
            r@ == self.direction_keyword(),
    {
        match self {
            IO::Input(_) => String::from_str("INPUT"),
            IO::Output(_) => String::from_str("OUTPUT"),
            IO::InOut(_) => String::from_str("INOUT"),
        }
    }

    /// The LEF direction keyword.
    pub fn to_lef_direction(&self) -> (r: String)
        ensures
            r@ == self.direction_keyword(),
    {
        match self {
            IO::Input(_) => String::from_str("INPUT"),
            IO::Output(_) => String::from_str("OUTPUT"),
            IO::InOut(_) => String::from_str("INOUT"),
        }
    }
}

/// Flipping a direction twice gives it back, and flipping keeps the width.
pub proof fn lemma_flip_involution(io: IO)
    ensures
        io.spec_flip().spec_flip() == io,
        io.spec_flip().spec_width() == io.spec_width(),
{
}

/// Whether a port drives a net, receives from it, or both.
#[derive(Clone, Copy, Debug, PartialEq, Eq, Structural)]
pub enum PortDirectionality {
    Driver,
    Receiver,
    InOut,
}

impl PortDirectionality {
    /// Two ports can be connected when one drives and the other receives, or
    /// when either is bidirectional.
    pub open spec fn spec_compatible_with(self, other: PortDirectionality) -> bool {
        match (self, other) {
            (PortDirectionality::InOut, _) => true,
            (_, PortDirectionality::InOut) => true,
            (PortDirectionality::Driver, PortDirectionality::Receiver) => true,
            (PortDirectionality::Receiver, PortDirectionality::Driver) => true,
            _ => false,
        }
    }

    pub fn compatible_with(&self, other: &PortDirectionality) -> (r: bool)
        ensures
            r == self.spec_compatible_with(*other),
    {
        match (self, other) {
            (PortDirectionality::InOut, _) => true,
            (_, PortDirectionality::InOut) => true,
            (PortDirectionality::Driver, PortDirectionality::Receiver) => true,
            (PortDirectionality::Receiver, PortDirectionality::Driver) => true,
            _ => false,
        }
    }
}

/// Compatibility of directionalities does not depend on the order.
pub proof fn lemma_compatible_symmetric(a: PortDirectionality, b: PortDirectionality)
    ensures
        a.spec_compatible_with(b) == b.spec_compatible_with(a),
{
}

/// The type of a parameter: signed or unsigned, with a bit width.
#[derive(Clone, Copy, Debug, PartialEq, Eq, Structural)]
pub enum ParameterType {
    Signed(usize),
    Unsigned(usize),
}

impl ParameterType {
    pub fn width(&self) -> (r: usize)
        ensures
            r == match *self {
                ParameterType::Signed(w) => w,
                ParameterType::Unsigned(w) => w,
            },
    {
        match self {
            ParameterType::Signed(width) => *width,
            ParameterType::Unsigned(width) => *width,
        }
    }

    pub fn signed(&self) -> (r: bool)
        ensures
            r == (*self is Signed),
    {
        match self {
            ParameterType::Signed(_) => true,
            ParameterType::Unsigned(_) => false,
        }
    }
}

} // verus!
