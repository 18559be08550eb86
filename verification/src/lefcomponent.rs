use vstd::prelude::*;

use crate::geometry::{spec_bbox, Coordinate, PhysicalPin};
use crate::io::IO;
use crate::lefdef::{lef_def_pin_name, spec_lef_def_pin_name, LefComponent, LefPin, LefShape};
use crate::parserports::{entries_view, find_entry, first_key};
use crate::pinplan::{find_pin, PinPlan, PlacedPin};
use crate::transform::fits_i64;

verus! {

/// Why a module's outline and pins cannot be written as a LEF macro.
#[derive(Debug, Clone, PartialEq, Eq)]
pub enum LefComponentError {
    /// The outline reaches below zero in x or y.
    NegativeCoordinates,
    /// A pin was placed on a port the module does not have.
    UnknownPort(String),
}

/// A LEF pin as plain values: name, direction keyword, layer and polygon.
pub type LefPinView = (Seq<char>, Seq<char>, Seq<char>, Seq<(i64, i64)>);

/// A LEF macro as plain values: name, width, height, outline layer,
/// outline polygon and pins.
pub type LefComponentView = (Seq<char>, i64, i64, Seq<char>, Seq<(i64, i64)>, Seq<LefPinView>);

pub open spec fn lef_pin_view(p: LefPin) -> LefPinView {
    (p.name@, p.direction@, p.shape.layer@, p.shape.polygon@)
}

pub open spec fn lef_component_view(c: LefComponent) -> LefComponentView {
    (c.name@, c.width, c.height, c.shape.layer@, c.shape.polygon@, c.pins@.map_values(|p: LefPin| lef_pin_view(p)))
}

/// Vertices as `(x, y)` pairs.
pub open spec fn xy_pairs(pts: Seq<Coordinate>) -> Seq<(i64, i64)> {
    pts.map_values(|c: Coordinate| (c.x, c.y))
}

/// The vertices of a pin's shape moved to the pin's position.
pub open spec fn placed_polygon(pin: PhysicalPin) -> Seq<(i64, i64)> {
    pin.polygon.pts().map_values(
        |c: Coordinate| ((c.x + pin.position.x) as i64, (c.y + pin.position.y) as i64),
    )
}

/// Every pin's shape can be moved to its position in `i64`.
pub open spec fn pins_fit(pins: Seq<PlacedPin>) -> bool {
    forall|i: int, j: int|
        0 <= i < pins.len() && 0 <= j < pins[i].pin.polygon.pts().len() ==> {
            let c = #[trigger] pins[i].pin.polygon.pts()[j];
            fits_i64(c.x + pins[i].pin.position.x) && fits_i64(c.y + pins[i].pin.position.y)
        }
}

/// The ports that hold pins, each once, in order of their first pin.
pub open spec fn port_order(pins: Seq<PlacedPin>) -> Seq<Seq<char>>
    decreases pins.len(),
{
    if pins.len() == 0 {
        Seq::empty()
    } else {
        let prev = port_order(pins.drop_last());
        let p = pins.last().port@;
        if prev.contains(p) {
            prev
        } else {
            prev.push(p)
        }
    }
}

/// The LEF pins of bits below `k` of port `port`, bit by bit, for the bits
/// that hold a pin.
pub open spec fn bit_pins(pins: Seq<PlacedPin>, port: Seq<char>, io: IO, open_char: char, close_char: char, k: int) -> Seq<LefPinView>
    decreases k,
{
    if k <= 0 {
        Seq::empty()
    } else {
        let prev = bit_pins(pins, port, io, open_char, close_char, k - 1);
        match find_pin(pins, port, (k - 1) as usize) {
            Some(i) => prev.push(
                (
                    spec_lef_def_pin_name(port, io.spec_width(), (k - 1) as usize, open_char, close_char),
                    io.direction_keyword(),
                    pins[i].pin.layer@,
                    placed_polygon(pins[i].pin),
                ),
            ),
            None => prev,
        }
    }
}

/// The LEF pins of the ports `order`, port by port; a port that `ports`
/// does not declare is reported.
pub open spec fn ordered_pins(
    pins: Seq<PlacedPin>,
    ports: Seq<(String, IO)>,
    order: Seq<Seq<char>>,
    open_char: char,
    close_char: char,
) -> Result<Seq<LefPinView>, Seq<char>>
    decreases order.len(),
{
    if order.len() == 0 {
        Ok(Seq::empty())
    } else {
        match ordered_pins(pins, ports, order.drop_last(), open_char, close_char) {
            Err(e) => Err(e),
            Ok(prev) => {
                let name = order.last();
                match first_key(entries_view(ports), name, 0) {
                    None => Err(name),
                    Some(i) => Ok(
                        prev + bit_pins(pins, name, ports[i].1, open_char, close_char, ports[i].1.spec_width() as int),
                    ),
                }
            },
        }
    }
}

/// The LEF macro of module `name` with the outline and pins of `plan`: as
/// wide and high as the outline's bounding box reaches, the outline on
/// `layer` (`OUTLINE` by default), and, where pins are included, one pin
/// per placed bit, port by port in order of their first pin and bit by bit,
/// its shape moved to its position. `Err(None)` stands for an outline
/// below zero, `Err(Some(port))` for a pin on an undeclared port.
pub open spec fn spec_lef_component(
    plan: PinPlan,
    name: Seq<char>,
    ports: Seq<(String, IO)>,
    layer: Option<Seq<char>>,
    open_char: char,
    close_char: char,
    include_pins: bool,
) -> Result<LefComponentView, Option<Seq<char>>> {
    let bbox = spec_bbox(plan.shape.pts());
    if bbox.min_x < 0 || bbox.min_y < 0 {
        Err(None)
    } else {
        let pins = if include_pins {
            ordered_pins(plan.pins@, ports, port_order(plan.pins@), open_char, close_char)
        } else {
            Ok(Seq::empty())
        };
        match pins {
            Err(p) => Err(Some(p)),
            Ok(pv) => Ok(
                (
                    name,
                    bbox.max_x,
                    bbox.max_y,
                    match layer {
                        Some(l) => l,
                        None => "OUTLINE"@,
                    },
                    xy_pairs(plan.shape.pts()),
                    pv,
                ),
            ),
        }
    }
}

/// The outcome as the spec states it.
pub open spec fn lef_outcome(r: Result<LefComponent, LefComponentError>) -> Result<LefComponentView, Option<Seq<char>>> {
    match r {
        Ok(c) => Ok(lef_component_view(c)),
        Err(LefComponentError::NegativeCoordinates) => Err(None),
        Err(LefComponentError::UnknownPort(p)) => Err(Some(p@)),
    }
}

/// The position of the first pin of port `port` on bit `bit`.
fn find_placed(pins: &Vec<PlacedPin>, port: &String, bit: usize) -> (r: Option<usize>)
    ensures
        match find_pin(pins@, port@, bit) {
            Some(i) => r == Some(i as usize),
            None => r is None,
        },
{
    let n = pins.len();
    let mut i: usize = 0;
    assert(pins@.take(0) =~= Seq::<PlacedPin>::empty());
    while i < n
        invariant
            n == pins@.len(),
            i <= n,
            find_pin(pins@.take(i as int), port@, bit) is None,
        decreases n - i,
    {
        assert(pins@.take(i + 1).drop_last() =~= pins@.take(i as int));
        assert(pins@.take(i + 1).last() == pins@[i as int]);
        if pins[i].bit == bit && pins[i].port == *port {
            proof {
                lemma_find_pin_prefix(pins@, port@, bit, i as int);
            }
            return Some(i);
        }
        i += 1;
    }
    assert(pins@.take(n as int) =~= pins@);
    None
}

/// Once a prefix holds the pin, the first one of all the pins is that one.
proof fn lemma_find_pin_prefix(pins: Seq<PlacedPin>, port: Seq<char>, bit: usize, k: int)
    requires
        0 <= k < pins.len(),
        find_pin(pins.take(k + 1), port, bit) is Some,
    ensures
        find_pin(pins, port, bit) == find_pin(pins.take(k + 1), port, bit),
    decreases pins.len() - k,
{
    if k + 1 < pins.len() {
        assert(pins.drop_last().take(k + 1) =~= pins.take(k + 1));
        lemma_find_pin_prefix(pins.drop_last(), port, bit, k);
    } else {
        assert(pins.take(k + 1) =~= pins);
    }
}

/// The shape of a pin moved to its position.
fn placed_pairs(pin: &PhysicalPin) -> (r: Vec<(i64, i64)>)
    requires
        forall|j: int|
            0 <= j < pin.polygon.pts().len() ==> fits_i64((#[trigger] pin.polygon.pts()[j]).x + pin.position.x)
                && fits_i64(pin.polygon.pts()[j].y + pin.position.y),
    ensures
        r@ == placed_polygon(*pin),
{
    let mut out: Vec<(i64, i64)> = Vec::new();
    let pts = &pin.polygon.0;
    for j in 0..pts.len()
        invariant
            pts@ == pin.polygon.pts(),
            forall|q: int|
                0 <= q < pin.polygon.pts().len() ==> fits_i64((#[trigger] pin.polygon.pts()[q]).x + pin.position.x)
                    && fits_i64(pin.polygon.pts()[q].y + pin.position.y),
            out@.len() == j,
            forall|q: int| 0 <= q < j ==> #[trigger] out@[q] == placed_polygon(*pin)[q],
    {
        let c = pts[j];
        assert(pin.polygon.pts()[j as int] == c);
        out.push((c.x + pin.position.x, c.y + pin.position.y));
    }
    assert(out@ =~= placed_polygon(*pin));
    out
}

/// The outline's vertices as pairs.
fn outline_pairs(pts: &Vec<Coordinate>) -> (r: Vec<(i64, i64)>)
    ensures
        r@ == xy_pairs(pts@),
{
    let mut out: Vec<(i64, i64)> = Vec::new();
    for j in 0..pts.len()
        invariant
            out@.len() == j,
            forall|q: int| 0 <= q < j ==> #[trigger] out@[q] == xy_pairs(pts@)[q],
    {
        out.push((pts[j].x, pts[j].y));
    }
    assert(out@ =~= xy_pairs(pts@));
    out
}

/// The ports that hold pins, each once, in order of their first pin.
fn ports_with_pins(pins: &Vec<PlacedPin>) -> (r: Vec<String>)
    ensures
        r@.map_values(|s: String| s@) == port_order(pins@),
{
    let mut order: Vec<String> = Vec::new();
    assert(pins@.take(0) =~= Seq::<PlacedPin>::empty());
    for i in 0..pins.len()
        invariant
            order@.map_values(|s: String| s@) == port_order(pins@.take(i as int)),
    {
        assert(pins@.take(i + 1).drop_last() =~= pins@.take(i as int));
        assert(pins@.take(i + 1).last() == pins@[i as int]);
        let ghost prev = order@.map_values(|s: String| s@);
        let mut seen = false;
        let mut j: usize = 0;
        while j < order.len()
            invariant
                i < pins@.len(),
                j <= order@.len(),
                prev == order@.map_values(|s: String| s@),
                seen <==> exists|q: int| 0 <= q < j && prev[q] == pins@[i as int].port@,
            decreases order@.len() - j,
        {
            assert(prev[j as int] == order@[j as int]@);
            if order[j] == pins[i].port {
                seen = true;
            }
            j += 1;
        }
        if !seen {
            order.push(pins[i].port.clone());
            assert(order@.map_values(|s: String| s@) =~= prev.push(pins@[i as int].port@));
        } else {
            assert(prev.contains(pins@[i as int].port@));
        }
    }
    assert(pins@.take(pins@.len() as int) =~= pins@);
    order
}

/// The LEF macro of module `name` with the outline and pins of `plan`,
/// or why it cannot be written: its outline reaches below zero, or a pin
/// sits on a port that `ports` does not declare.
pub fn lef_component(
    plan: &PinPlan,
    name: &str,
    ports: &Vec<(String, IO)>,
    layer: Option<&str>,
    open_char: char,
    close_char: char,
    include_pins: bool,
) -> (r: Result<LefComponent, LefComponentError>)
    requires
        pins_fit(plan.pins@),
    ensures
        lef_outcome(r) == spec_lef_component(
            *plan,
            name@,
            ports@,
            match layer {
                Some(l) => Some(l@),
                None => None,
            },
            open_char,
            close_char,
            include_pins,
        ),
{
    let bbox = plan.shape.bbox();
    if bbox.min_x < 0 || bbox.min_y < 0 {
        return Err(LefComponentError::NegativeCoordinates);
    }
    let mut lef_pins: Vec<LefPin> = Vec::new();
    let ghost pins = plan.pins@;
    let np = plan.pins.len();
    if include_pins {
        let order = ports_with_pins(&plan.pins);
        let ghost ov = order@.map_values(|s: String| s@);
        assert(ov.take(0) =~= Seq::<Seq<char>>::empty());
        assert(lef_pins@.map_values(|p: LefPin| lef_pin_view(p)) =~= Seq::<LefPinView>::empty());
        for k in 0..order.len()
            invariant
                pins == plan.pins@,
                np == pins.len(),
                pins_fit(pins),
                ov == order@.map_values(|s: String| s@),
                ov == port_order(pins),
                include_pins,
                bbox == spec_bbox(plan.shape.pts()),
                !(bbox.min_x < 0 || bbox.min_y < 0),
                ordered_pins(pins, ports@, ov.take(k as int), open_char, close_char) == Ok::<
                    Seq<LefPinView>,
                    Seq<char>,
                >(lef_pins@.map_values(|p: LefPin| lef_pin_view(p))),
        {
            assert(ov.take(k + 1).drop_last() =~= ov.take(k as int));
            assert(ov.take(k + 1).last() == order@[k as int]@);
            let port = &order[k];
            match find_entry(ports, port) {
                None => {
                    proof {
                        assert(ordered_pins(pins, ports@, ov.take(k + 1), open_char, close_char) == Err::<
                            Seq<LefPinView>,
                            Seq<char>,
                        >(port@));
                        lemma_ordered_pins_stops(pins, ports@, ov, open_char, close_char, k as int);
                        assert(ordered_pins(pins, ports@, port_order(pins), open_char, close_char) == Err::<
                            Seq<LefPinView>,
                            Seq<char>,
                        >(port@));
                    }
                    let pc = port.clone();
                    assert(pc@ == port@);
                    let ghost sl = match layer {
                        Some(l) => Some(l@),
                        None => None,
                    };
                    assert(spec_lef_component(*plan, name@, ports@, sl, open_char, close_char, include_pins)
                        == Err::<LefComponentView, Option<Seq<char>>>(Some(port@)));
                    return Err(LefComponentError::UnknownPort(pc));
                },
                Some(pi) => {
                    assert(entries_view(ports@)[pi as int].1 == ports@[pi as int].1);
                    let io = ports[pi].1;
                    let w = io.width();
                    let ghost base = lef_pins@.map_values(|p: LefPin| lef_pin_view(p));
                    for b in 0..w
                        invariant
                            pins == plan.pins@,
                            np == pins.len(),
                            pins_fit(pins),
                            w == io.spec_width(),
                            lef_pins@.map_values(|p: LefPin| lef_pin_view(p)) == base + bit_pins(
                                pins,
                                port@,
                                io,
                                open_char,
                                close_char,
                                b as int,
                            ),
                    {
                        let ghost before = lef_pins@.map_values(|p: LefPin| lef_pin_view(p));
                        match find_placed(&plan.pins, port, b) {
                            Some(i) => {
                                proof {
                                    crate::pinplan::lemma_find_pin(pins, port@, b);
                                    assert(find_pin(pins, port@, b) == Some(i as int));
                                }
                                let pin = &plan.pins[i].pin;
                                assert forall|j: int|
                                    0 <= j < pin.polygon.pts().len() implies fits_i64(
                                    (#[trigger] pin.polygon.pts()[j]).x + pin.position.x,
                                ) && fits_i64(pin.polygon.pts()[j].y + pin.position.y) by {
                                    assert(pins[i as int].pin.polygon.pts()[j] == pin.polygon.pts()[j]);
                                }
                                let pname = lef_def_pin_name(port.as_str(), w, b, open_char, close_char);
                                let polygon = placed_pairs(pin);
                                let lp = LefPin {
                                    name: pname,
                                    direction: io.to_lef_direction(),
                                    shape: LefShape { layer: pin.layer.clone(), polygon },
                                };
                                lef_pins.push(lp);
                                assert(lef_pins@.map_values(|p: LefPin| lef_pin_view(p)) =~= before.push(
                                    lef_pin_view(lp),
                                ));
                                assert(lef_pin_view(lp) == (
                                    spec_lef_def_pin_name(port@, io.spec_width(), b, open_char, close_char),
                                    io.direction_keyword(),
                                    pins[i as int].pin.layer@,
                                    placed_polygon(pins[i as int].pin),
                                ));
                                assert(base + bit_pins(pins, port@, io, open_char, close_char, b + 1) =~= (base
                                    + bit_pins(pins, port@, io, open_char, close_char, b as int)).push(lef_pin_view(lp)));
                            },
                            None => {
                                assert(bit_pins(pins, port@, io, open_char, close_char, b + 1) == bit_pins(
                                    pins,
                                    port@,
                                    io,
                                    open_char,
                                    close_char,
                                    b as int,
                                ));
                            },
                        }
                    }
                    assert(lef_pins@.map_values(|p: LefPin| lef_pin_view(p)) =~= base + bit_pins(
                        pins,
                        port@,
                        io,
                        open_char,
                        close_char,
                        w as int,
                    ));
                },
            }
        }
        assert(ov.take(ov.len() as int) =~= ov);
    } else {
        assert(lef_pins@.map_values(|p: LefPin| lef_pin_view(p)) =~= Seq::<LefPinView>::empty());
    }
    let layer_name = match layer {
        Some(l) => String::from_str(l),
        None => String::from_str("OUTLINE"),
    };
    proof {
        reveal_strlit("OUTLINE");
    }
    let polygon = outline_pairs(&plan.shape.0);
    let c = LefComponent {
        name: String::from_str(name),
        width: bbox.max_x,
        height: bbox.max_y,
        shape: LefShape { layer: layer_name, polygon },
        pins: lef_pins,
    };
    assert(lef_component_view(c).5 =~= c.pins@.map_values(|p: LefPin| lef_pin_view(p)));
    Ok(c)
}

/// Once a port in the order is undeclared, the pins of the whole order are
/// refused for it.
proof fn lemma_ordered_pins_stops(
    pins: Seq<PlacedPin>,
    ports: Seq<(String, IO)>,
    order: Seq<Seq<char>>,
    open_char: char,
    close_char: char,
    k: int,
)
    requires
        0 <= k < order.len(),
        ordered_pins(pins, ports, order.take(k + 1), open_char, close_char) is Err,
    ensures
        ordered_pins(pins, ports, order, open_char, close_char) == ordered_pins(
            pins,
            ports,
            order.take(k + 1),
            open_char,
            close_char,
        ),
    decreases order.len() - k,
{
    if k + 1 < order.len() {
        assert(order.drop_last().take(k + 1) =~= order.take(k + 1));
        lemma_ordered_pins_stops(pins, ports, order.drop_last(), open_char, close_char, k);
    } else {
        assert(order.take(k + 1) =~= order);
    }
}

/// The LEF macro of module `name`, for an outline that does not reach
/// below zero and pins only on declared ports.
pub fn to_lef_component(
    plan: &PinPlan,
    name: &str,
    ports: &Vec<(String, IO)>,
    layer: Option<&str>,
    open_char: char,
    close_char: char,
    include_pins: bool,
) -> (r: LefComponent)
    requires
        pins_fit(plan.pins@),
        spec_lef_component(
            *plan,
            name@,
            ports@,
            match layer {
                Some(l) => Some(l@),
                None => None,
            },
            open_char,
            close_char,
            include_pins,
        ) is Ok,
    ensures
        lef_outcome(Ok(r)) == spec_lef_component(
            *plan,
            name@,
            ports@,
            match layer {
                Some(l) => Some(l@),
                None => None,
            },
            open_char,
            close_char,
            include_pins,
        ),
{
    lef_component(plan, name, ports, layer, open_char, close_char, include_pins).unwrap()
}

} // verus!
