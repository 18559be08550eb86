use vstd::prelude::*;

use crate::text::{int_decimal, nat_decimal, push_i64, push_str, push_usize, string_push};
use crate::transform::Orientation;

verus! {

/// Options that affect both LEF and DEF generation.
#[derive(Debug, Clone, PartialEq, Eq)]
pub struct LefDefOptions {
    /// Hierarchy separator. Default: "/".
    pub divider_char: String,
    /// Bus bit characters. Default: "[]".
    pub bus_bit_chars: String,
    /// Micron database units. Default: 1.
    pub units_microns: i64,
    /// If true, the hierarchical path omits the top-level module name.
    pub omit_top_module_in_hierarchy: bool,
    /// If true, include pins in LEF/DEF output.
    pub include_pins: bool,
    /// If true, include obstructions in LEF output.
    pub include_obstructions: bool,
    /// If true, include labels in LEF output.
    pub include_labels: bool,
}

impl Default for LefDefOptions {
    fn default() -> (r: LefDefOptions)
        ensures
            r.divider_char@ == "/"@,
            r.bus_bit_chars@ == "[]"@,
            r.units_microns == 1,
            r.omit_top_module_in_hierarchy,
            r.include_pins,
            r.include_obstructions,
            !r.include_labels,
    {
        LefDefOptions {
            divider_char: String::from_str("/"),
            bus_bit_chars: String::from_str("[]"),
            units_microns: 1,
            omit_top_module_in_hierarchy: true,
            include_pins: true,
            include_obstructions: true,
            include_labels: false,
        }
    }
}

/// The eight DEF placement orientations.
#[derive(Debug, Clone, Copy, PartialEq, Eq, Structural)]
pub enum DefOrientation {
    N,
    S,
    E,
    W,
    FN,
    FS,
    FE,
    FW,
}

impl DefOrientation {
    /// The DEF keyword of an orientation.
    pub open spec fn keyword(self) -> Seq<char> {
        match self {
            DefOrientation::N => "N"@,
            DefOrientation::S => "S"@,
            DefOrientation::E => "E"@,
            DefOrientation::W => "W"@,
            DefOrientation::FN => "FN"@,
            DefOrientation::FS => "FS"@,
            DefOrientation::FE => "FE"@,
            DefOrientation::FW => "FW"@,
        }
    }

    /// The DEF orientation of a placement orientation: rotations map to the
    /// compass points N, W, S, E, and mirrorings to their flipped forms.
    pub open spec fn spec_from_orientation(o: Orientation) -> DefOrientation {
        match o {
            Orientation::R0 => DefOrientation::N,
            Orientation::R180 => DefOrientation::S,
            Orientation::R90 => DefOrientation::W,
            Orientation::R270 => DefOrientation::E,
            Orientation::MY => DefOrientation::FN,
            Orientation::MX => DefOrientation::FS,
            Orientation::MX90 => DefOrientation::FW,
            Orientation::MY90 => DefOrientation::FE,
        }
    }

    pub fn as_str(&self) -> (r: &'static str)
        ensures
            r@ == self.keyword(),
    {
        match self {
            DefOrientation::N => "N",
            DefOrientation::S => "S",
            DefOrientation::E => "E",
            DefOrientation::W => "W",
            DefOrientation::FN => "FN",
            DefOrientation::FS => "FS",
            DefOrientation::FE => "FE",
            DefOrientation::FW => "FW",
        }
    }

    pub fn from_orientation(o: Orientation) -> (r: DefOrientation)
        ensures
            r == DefOrientation::spec_from_orientation(o),
    {
        match o {
            Orientation::R0 => DefOrientation::N,
            Orientation::R180 => DefOrientation::S,
            Orientation::R90 => DefOrientation::W,
            Orientation::R270 => DefOrientation::E,
            Orientation::MY => DefOrientation::FN,
            Orientation::MX => DefOrientation::FS,
            Orientation::MX90 => DefOrientation::FW,
            Orientation::MY90 => DefOrientation::FE,
        }
    }
}

/// Distinct placement orientations have distinct DEF orientations.
pub proof fn lemma_def_orientation_injective(a: Orientation, b: Orientation)
    ensures
        DefOrientation::spec_from_orientation(a) == DefOrientation::spec_from_orientation(b) ==> a
            == b,
{
}

/// A LEF shape: a polygon on a layer, in the macro's coordinates.
#[derive(Debug, Clone, PartialEq, Eq)]
pub struct LefShape {
    pub layer: String,
    pub polygon: Vec<(i64, i64)>,
}

/// A point in DEF.
#[derive(Debug, Clone, PartialEq, Eq)]
pub struct DefPoint {
    pub x: i64,
    pub y: i64,
}

impl DefPoint {
    /// `( x y )`.
    pub open spec fn text(self) -> Seq<char> {
        "( "@ + int_decimal(self.x as int) + " "@ + int_decimal(self.y as int) + " )"@
    }

    /// Appends the DEF text of the point.
    pub fn write_to(&self, s: &mut String)
        ensures
            final(s)@ == old(s)@ + self.text(),
    {
        push_str(s, "( ");
        push_i64(s, self.x);
        push_str(s, " ");
        push_i64(s, self.y);
        push_str(s, " )");
        assert(final(s)@ =~= old(s)@ + self.text());
    }

    /// The DEF text of the point.
    pub fn to_string(&self) -> (r: String)
        ensures
            r@ == self.text(),
    {
        let mut s = String::new();
        self.write_to(&mut s);
        assert(s@ =~= self.text());
        s
    }
}

/// The texts of `points`, separated by single spaces.
pub open spec fn points_text(points: Seq<DefPoint>) -> Seq<char>
    decreases points.len(),
{
    if points.len() == 0 {
        Seq::empty()
    } else if points.len() == 1 {
        points[0].text()
    } else {
        points_text(points.drop_last()) + " "@ + points.last().text()
    }
}

/// The outline of the design in DEF.
#[derive(Debug, Clone, PartialEq, Eq)]
pub struct DefDieArea {
    pub points: Vec<DefPoint>,
}

impl DefDieArea {
    /// `DIEAREA ( x y ) ( x y ) ... ;`.
    pub open spec fn text(self) -> Seq<char> {
        "DIEAREA "@ + points_text(self.points@) + " ;"@
    }

    /// Appends the DEF text of the die area.
    pub fn write_to(&self, s: &mut String)
        ensures
            final(s)@ == old(s)@ + self.text(),
    {
        let ghost start = s@;
        push_str(s, "DIEAREA ");
        let n = self.points.len();
        for i in 0..n
            invariant
                n == self.points@.len(),
                s@ == start + "DIEAREA "@ + points_text(self.points@.take(i as int)),
        {
            let ghost before = s@;
            if i > 0 {
                push_str(s, " ");
            }
            self.points[i].write_to(s);
            proof {
                let t = self.points@.take(i + 1);
                assert(t.drop_last() =~= self.points@.take(i as int));
                assert(t.last() == self.points@[i as int]);
                if i == 0 {
                    assert(points_text(self.points@.take(0)) =~= Seq::<char>::empty());
                    assert(s@ =~= start + "DIEAREA "@ + points_text(t));
                } else {
                    assert(s@ =~= start + "DIEAREA "@ + points_text(t));
                }
            }
        }
        assert(self.points@.take(n as int) =~= self.points@);
        push_str(s, " ;");
        assert(final(s)@ =~= old(s)@ + self.text());
    }

    /// The DEF text of the die area.
    pub fn to_string(&self) -> (r: String)
        ensures
            r@ == self.text(),
    {
        let mut s = String::new();
        self.write_to(&mut s);
        assert(s@ =~= self.text());
        s
    }
}

/// A LEF pin: its name, direction keyword and shape.
#[derive(Debug, Clone, PartialEq, Eq)]
pub struct LefPin {
    pub name: String,
    pub direction: String,
    pub shape: LefShape,
}

/// A DEF pin with a rectangle given by two corners, placed at a position.
#[derive(Debug, PartialEq, Eq)]
pub struct DefPin {
    pub name: String,
    pub direction: String,
    pub pin_use: String,
    pub layer: String,
    pub shape: (DefPoint, DefPoint),
    pub position: DefPoint,
    pub orientation: DefOrientation,
}

impl Clone for DefPin {
    fn clone(&self) -> (r: DefPin) {
        DefPin {
            name: self.name.clone(),
            direction: self.direction.clone(),
            pin_use: self.pin_use.clone(),
            layer: self.layer.clone(),
            shape: (self.shape.0.clone(), self.shape.1.clone()),
            position: self.position.clone(),
            orientation: self.orientation,
        }
    }
}

impl DefPin {
    /// `- name + NET name + DIRECTION d + USE u + LAYER l (a) (b) + FIXED (p) o ;`.
    #[verifier::opaque]
    pub open spec fn text(self) -> Seq<char> {
        "- "@ + self.name@ + " + NET "@ + self.name@ + " + DIRECTION "@ + self.direction@
            + " + USE "@ + self.pin_use@ + " + LAYER "@ + self.layer@ + " "@ + self.shape.0.text()
            + " "@ + self.shape.1.text() + " + FIXED "@ + self.position.text() + " "@
            + self.orientation.keyword() + " ;"@
    }

    /// Appends the DEF text of the pin.
    #[verifier::rlimit(40)]
    pub fn write_to(&self, s: &mut String)
        ensures
            final(s)@ == old(s)@ + self.text(),
    {
        push_str(s, "- ");
        push_str(s, self.name.as_str());
        push_str(s, " + NET ");
        push_str(s, self.name.as_str());
        push_str(s, " + DIRECTION ");
        push_str(s, self.direction.as_str());
        push_str(s, " + USE ");
        push_str(s, self.pin_use.as_str());
        push_str(s, " + LAYER ");
        push_str(s, self.layer.as_str());
        push_str(s, " ");
        self.shape.0.write_to(s);
        push_str(s, " ");
        self.shape.1.write_to(s);
        push_str(s, " + FIXED ");
        self.position.write_to(s);
        push_str(s, " ");
        push_str(s, self.orientation.as_str());
        push_str(s, " ;");
        reveal(DefPin::text);
        assert(final(s)@ =~= old(s)@ + self.text());
    }

    /// The DEF text of the pin.
    pub fn to_string(&self) -> (r: String)
        ensures
            r@ == self.text(),
    {
        let mut s = String::new();
        self.write_to(&mut s);
        assert(s@ =~= self.text());
        s
    }
}

/// A LEF macro: its name, size, outline and pins.
#[derive(Debug, Clone, PartialEq, Eq)]
pub struct LefComponent {
    pub name: String,
    pub width: i64,
    pub height: i64,
    pub shape: LefShape,
    pub pins: Vec<LefPin>,
}

/// A placed instance of a macro in DEF.
#[derive(Debug, Clone, PartialEq, Eq)]
pub struct DefComponent {
    pub inst_name: String,
    pub macro_name: String,
    pub x: i64,
    pub y: i64,
    pub orientation: DefOrientation,
}

impl DefComponent {
    /// `- inst macro + PLACED ( x y ) o ;`.
    #[verifier::opaque]
    pub open spec fn text(self) -> Seq<char> {
        "- "@ + self.inst_name@ + " "@ + self.macro_name@ + " + PLACED ( "@ + int_decimal(
            self.x as int,
        ) + " "@ + int_decimal(self.y as int) + " ) "@ + self.orientation.keyword() + " ;"@
    }

    /// Appends the DEF text of the component.
    pub fn write_to(&self, s: &mut String)
        ensures
            final(s)@ == old(s)@ + self.text(),
    {
        push_str(s, "- ");
        push_str(s, self.inst_name.as_str());
        push_str(s, " ");
        push_str(s, self.macro_name.as_str());
        push_str(s, " + PLACED ( ");
        push_i64(s, self.x);
        push_str(s, " ");
        push_i64(s, self.y);
        push_str(s, " ) ");
        push_str(s, self.orientation.as_str());
        push_str(s, " ;");
        reveal(DefComponent::text);
        assert(final(s)@ =~= old(s)@ + self.text());
    }

    /// The DEF text of the component.
    pub fn to_string(&self) -> (r: String)
        ensures
            r@ == self.text(),
    {
        let mut s = String::new();
        self.write_to(&mut s);
        assert(s@ =~= self.text());
        s
    }
}

/// Each pin's text on a line of its own, indented by two spaces.
pub open spec fn pin_lines(pins: Seq<DefPin>) -> Seq<char>
    decreases pins.len(),
{
    if pins.len() == 0 {
        Seq::empty()
    } else {
        pin_lines(pins.drop_last()) + "  "@ + pins.last().text() + "\n"@
    }
}

/// Each component's text on a line of its own, indented by two spaces.
pub open spec fn component_lines(components: Seq<DefComponent>) -> Seq<char>
    decreases components.len(),
{
    if components.len() == 0 {
        Seq::empty()
    } else {
        component_lines(components.drop_last()) + "  "@ + components.last().text() + "\n"@
    }
}

/// The text of a minimal DEF file: a header, the die area if there is one,
/// the pins when they are included and there are any, the components when
/// there are any, and the end line.
pub open spec fn def_text(
    design_name: Seq<char>,
    die_area: Option<DefDieArea>,
    pins: Seq<DefPin>,
    components: Seq<DefComponent>,
    opts: LefDefOptions,
) -> Seq<char> {
    let header = "VERSION 5.8 ;\n"@ + "DIVIDERCHAR \""@ + opts.divider_char@ + "\" ;\n"@
        + "BUSBITCHARS \""@ + opts.bus_bit_chars@ + "\" ;\n"@ + "DESIGN "@ + design_name
        + " ;\n"@ + "UNITS DISTANCE MICRONS "@ + int_decimal(opts.units_microns as int)
        + " ;\n\n"@;
    let die = match die_area {
        Some(d) => d.text() + "\n"@,
        None => Seq::empty(),
    };
    let pin_section = if opts.include_pins && pins.len() > 0 {
        "PINS "@ + nat_decimal(pins.len()) + " ;\n"@ + pin_lines(pins) + "END PINS\n"@
    } else {
        Seq::empty()
    };
    let component_section = if components.len() > 0 {
        "COMPONENTS "@ + nat_decimal(components.len()) + " ;\n"@ + component_lines(components)
            + "END COMPONENTS\n\n"@
    } else {
        Seq::empty()
    };
    header + die + pin_section + component_section + "END DESIGN\n"@
}

/// The DEF text ends with its sections in order: when there are
/// components, a `COMPONENTS` header whose count is the number of
/// components, one line per component, `END COMPONENTS`, then the end
/// line; when pins are included and there are any, a `PINS` header whose
/// count is the number of pins and one line per pin come before that,
/// each count taken from its own list alone.
#[verifier::rlimit(40)]
pub proof fn lemma_def_section_counts(
    design_name: Seq<char>,
    die_area: Option<DefDieArea>,
    pins: Seq<DefPin>,
    components: Seq<DefComponent>,
    opts: LefDefOptions,
)
    ensures
        components.len() > 0 ==> ("COMPONENTS "@ + nat_decimal(components.len()) + " ;\n"@
            + component_lines(components) + "END COMPONENTS\n\n"@ + "END DESIGN\n"@).is_suffix_of(
            def_text(design_name, die_area, pins, components, opts),
        ),
        components.len() == 0 && opts.include_pins && pins.len() > 0 ==> ("PINS "@ + nat_decimal(
            pins.len(),
        ) + " ;\n"@ + pin_lines(pins) + "END PINS\n"@ + "END DESIGN\n"@).is_suffix_of(
            def_text(design_name, die_area, pins, components, opts),
        ),
        components.len() > 0 && opts.include_pins && pins.len() > 0 ==> ("PINS "@ + nat_decimal(
            pins.len(),
        ) + " ;\n"@ + pin_lines(pins) + "END PINS\n"@ + "COMPONENTS "@ + nat_decimal(
            components.len(),
        ) + " ;\n"@ + component_lines(components) + "END COMPONENTS\n\n"@ + "END DESIGN\n"@).is_suffix_of(
            def_text(design_name, die_area, pins, components, opts),
        ),
{
    let t = def_text(design_name, die_area, pins, components, opts);
    let header = "VERSION 5.8 ;\n"@ + "DIVIDERCHAR \""@ + opts.divider_char@ + "\" ;\n"@
        + "BUSBITCHARS \""@ + opts.bus_bit_chars@ + "\" ;\n"@ + "DESIGN "@ + design_name
        + " ;\n"@ + "UNITS DISTANCE MICRONS "@ + int_decimal(opts.units_microns as int)
        + " ;\n\n"@;
    let die = match die_area {
        Some(d) => d.text() + "\n"@,
        None => Seq::<char>::empty(),
    };
    let ps = if opts.include_pins && pins.len() > 0 {
        "PINS "@ + nat_decimal(pins.len()) + " ;\n"@ + pin_lines(pins) + "END PINS\n"@
    } else {
        Seq::<char>::empty()
    };
    let cs = if components.len() > 0 {
        "COMPONENTS "@ + nat_decimal(components.len()) + " ;\n"@ + component_lines(components)
            + "END COMPONENTS\n\n"@
    } else {
        Seq::<char>::empty()
    };
    let end = "END DESIGN\n"@;
    assert(t == header + die + ps + cs + end);
    let pre1 = header + die + ps;
    assert(t =~= pre1 + (cs + end));
    assert((cs + end) =~= t.subrange(pre1.len() as int, t.len() as int));
    let pre2 = header + die;
    assert(t =~= pre2 + (ps + cs + end));
    assert((ps + cs + end) =~= t.subrange(pre2.len() as int, t.len() as int));
    if components.len() > 0 {
        assert(cs + end =~= "COMPONENTS "@ + nat_decimal(components.len()) + " ;\n"@
            + component_lines(components) + "END COMPONENTS\n\n"@ + "END DESIGN\n"@);
    } else {
        assert(cs + end =~= end);
    }
    if opts.include_pins && pins.len() > 0 {
        if components.len() > 0 {
            assert(ps + cs + end =~= "PINS "@ + nat_decimal(pins.len()) + " ;\n"@ + pin_lines(pins)
                + "END PINS\n"@ + "COMPONENTS "@ + nat_decimal(components.len()) + " ;\n"@
                + component_lines(components) + "END COMPONENTS\n\n"@ + "END DESIGN\n"@);
        } else {
            assert(ps + cs + end =~= "PINS "@ + nat_decimal(pins.len()) + " ;\n"@ + pin_lines(pins)
                + "END PINS\n"@ + "END DESIGN\n"@);
        }
    }
}

/// Component lines are written one per component, in order: those of two
/// lists one after the other are the lines of the first then those of the
/// second.
pub proof fn lemma_component_lines_concat(c1: Seq<DefComponent>, c2: Seq<DefComponent>)
    ensures
        component_lines(c1 + c2) == component_lines(c1) + component_lines(c2),
    decreases c2.len(),
{
    if c2.len() == 0 {
        assert(c1 + c2 =~= c1);
    } else {
        lemma_component_lines_concat(c1, c2.drop_last());
        assert((c1 + c2).drop_last() =~= c1 + c2.drop_last());
        assert(component_lines(c1 + c2) =~= component_lines(c1) + component_lines(c2));
    }
}

/// A single component gets the line `  <text>` and a newline.
pub proof fn lemma_component_line_single(x: DefComponent)
    ensures
        component_lines(seq![x]) == "  "@ + x.text() + "\n"@,
{
    assert(seq![x].drop_last() =~= Seq::<DefComponent>::empty());
    assert(seq![x].last() == x);
    assert(component_lines(Seq::<DefComponent>::empty()) == Seq::<char>::empty());
    assert(component_lines(seq![x]) =~= "  "@ + x.text() + "\n"@);
}

/// A single pin gets the line `  <text>` and a newline.
pub proof fn lemma_pin_line_single(x: DefPin)
    ensures
        pin_lines(seq![x]) == "  "@ + x.text() + "\n"@,
{
    assert(seq![x].drop_last() =~= Seq::<DefPin>::empty());
    assert(seq![x].last() == x);
    assert(pin_lines(Seq::<DefPin>::empty()) == Seq::<char>::empty());
    assert(pin_lines(seq![x]) =~= "  "@ + x.text() + "\n"@);
}

/// Pin lines are written one per pin, in order, in the same way.
pub proof fn lemma_pin_lines_concat(p1: Seq<DefPin>, p2: Seq<DefPin>)
    ensures
        pin_lines(p1 + p2) == pin_lines(p1) + pin_lines(p2),
    decreases p2.len(),
{
    if p2.len() == 0 {
        assert(p1 + p2 =~= p1);
    } else {
        lemma_pin_lines_concat(p1, p2.drop_last());
        assert((p1 + p2).drop_last() =~= p1 + p2.drop_last());
        assert(pin_lines(p1 + p2) =~= pin_lines(p1) + pin_lines(p2));
    }
}

/// When pins are not included, or there are none, the DEF text is the
/// same as with no pins at all.
pub proof fn lemma_def_excluded_pins_ignored(
    design_name: Seq<char>,
    die_area: Option<DefDieArea>,
    pins: Seq<DefPin>,
    components: Seq<DefComponent>,
    opts: LefDefOptions,
)
    requires
        !opts.include_pins || pins.len() == 0,
    ensures
        def_text(design_name, die_area, pins, components, opts) == def_text(
            design_name,
            die_area,
            Seq::<DefPin>::empty(),
            components,
            opts,
        ),
{
}

/// Appends each pin's line.
fn write_pin_lines(s: &mut String, pins: &[DefPin])
    ensures
        final(s)@ == old(s)@ + pin_lines(pins@),
{
    let ghost start = s@;
    for i in 0..pins.len()
        invariant
            s@ == start + pin_lines(pins@.take(i as int)),
    {
        push_str(s, "  ");
        pins[i].write_to(s);
        push_str(s, "\n");
        assert(pins@.take(i + 1).drop_last() =~= pins@.take(i as int));
        assert(s@ =~= start + pin_lines(pins@.take(i + 1)));
    }
    assert(pins@.take(pins@.len() as int) =~= pins@);
}

/// Appends each component's line.
fn write_component_lines(s: &mut String, components: &[DefComponent])
    ensures
        final(s)@ == old(s)@ + component_lines(components@),
{
    let ghost start = s@;
    for i in 0..components.len()
        invariant
            s@ == start + component_lines(components@.take(i as int)),
    {
        push_str(s, "  ");
        components[i].write_to(s);
        push_str(s, "\n");
        assert(components@.take(i + 1).drop_last() =~= components@.take(i as int));
        assert(s@ =~= start + component_lines(components@.take(i + 1)));
    }
    assert(components@.take(components@.len() as int) =~= components@);
}

/// Generate a minimal DEF string with placed components.
#[verifier::rlimit(40)]
pub fn generate_def(
    design_name: &str,
    die_area: Option<&DefDieArea>,
    pins: &[DefPin],
    components: &[DefComponent],
    opts: &LefDefOptions,
) -> (r: String)
    ensures
        r@ == def_text(
            design_name@,
            match die_area {
                Some(d) => Some(*d),
                None => None,
            },
            pins@,
            components@,
            *opts,
        ),
{
    let mut s = String::new();
    push_str(&mut s, "VERSION 5.8 ;\n");
    push_str(&mut s, "DIVIDERCHAR \"");
    push_str(&mut s, opts.divider_char.as_str());
    push_str(&mut s, "\" ;\n");
    push_str(&mut s, "BUSBITCHARS \"");
    push_str(&mut s, opts.bus_bit_chars.as_str());
    push_str(&mut s, "\" ;\n");
    push_str(&mut s, "DESIGN ");
    push_str(&mut s, design_name);
    push_str(&mut s, " ;\n");
    push_str(&mut s, "UNITS DISTANCE MICRONS ");
    push_i64(&mut s, opts.units_microns);
    push_str(&mut s, " ;\n\n");
    let ghost header = s@;
    if let Some(die_area) = die_area {
        die_area.write_to(&mut s);
        push_str(&mut s, "\n");
    }
    let ghost after_die = s@;
    if opts.include_pins && pins.len() > 0 {
        push_str(&mut s, "PINS ");
        push_usize(&mut s, pins.len());
        push_str(&mut s, " ;\n");
        write_pin_lines(&mut s, pins);
        push_str(&mut s, "END PINS\n");
    }
    let ghost after_pins = s@;
    if components.len() > 0 {
        push_str(&mut s, "COMPONENTS ");
        push_usize(&mut s, components.len());
        push_str(&mut s, " ;\n");
        write_component_lines(&mut s, components);
        push_str(&mut s, "END COMPONENTS\n\n");
    }
    push_str(&mut s, "END DESIGN\n");
    assert(s@ =~= def_text(
        design_name@,
        match die_area {
            Some(d) => Some(*d),
            None => None,
        },
        pins@,
        components@,
        *opts,
    ));
    s
}

/// The LEF/DEF name of one bit of a port: the port name alone for a
/// single-bit port, else the name followed by the bit in brackets.
pub open spec fn spec_lef_def_pin_name(
    port_name: Seq<char>,
    port_width: usize,
    bit: usize,
    open_char: char,
    close_char: char,
) -> Seq<char> {
    if port_width == 1 {
        port_name
    } else {
        port_name.push(open_char) + nat_decimal(bit as nat) + seq![close_char]
    }
}

/// Names one bit of a port in LEF/DEF: `name` for a single-bit port,
/// `name[bit]` (with the given brackets) otherwise.
pub fn lef_def_pin_name(
    port_name: &str,
    port_width: usize,
    bit: usize,
    open_char: char,
    close_char: char,
) -> (r: String)
    ensures
        r@ == spec_lef_def_pin_name(port_name@, port_width, bit, open_char, close_char),
{
    let mut s = String::new();
    push_str(&mut s, port_name);
    if port_width != 1 {
        string_push(&mut s, open_char);
        push_usize(&mut s, bit);
        string_push(&mut s, close_char);
    }
    s
}

} // verus!
