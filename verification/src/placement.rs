use vstd::arithmetic::div_mod::lemma_fundamental_div_mod;
use vstd::prelude::*;

use crate::geometry::{bbox_corners, spec_bbox, BoundingBox, Coordinate, Polygon};
use crate::lefdef::{DefComponent, DefOrientation};
use crate::transform::{fits_i64, Mat3};

verus! {

/// Why a placed macro breaks a grid rule.
#[derive(Clone, Copy, Debug, PartialEq, Eq, Structural)]
pub enum GridError {
    /// Its lower-left corner is off the X placement grid.
    OffXGrid,
    /// Its lower-left corner is off the Y placement grid.
    OffYGrid,
    /// Its width is not a multiple of the X size grid.
    WidthOffGrid,
    /// Its height is not a multiple of the Y size grid.
    HeightOffGrid,
}

/// The box that a `width` by `height` macro covers once placed by `m`.
pub open spec fn placed_bbox(width: i64, height: i64, m: Mat3) -> BoundingBox {
    spec_bbox(
        bbox_corners(0, 0, width, height).map_values(|p: Coordinate| Polygon::spec_transform_point(m, p)),
    )
}

/// The placement grid check: the lower-left corner on both grids.
pub open spec fn spec_placement_grid(b: BoundingBox, grid: Option<(i64, i64)>) -> Result<(), GridError> {
    match grid {
        Some((gx, gy)) => if b.min_x % gx != 0 {
            Err(GridError::OffXGrid)
        } else if b.min_y % gy != 0 {
            Err(GridError::OffYGrid)
        } else {
            Ok(())
        },
        None => Ok(()),
    }
}

/// The size grid check: width and height multiples of the grid.
pub open spec fn spec_size_grid(b: BoundingBox, grid: Option<(i64, i64)>) -> Result<(), GridError> {
    match grid {
        Some((gx, gy)) => if (b.max_x - b.min_x) % (gx as int) != 0 {
            Err(GridError::WidthOffGrid)
        } else if (b.max_y - b.min_y) % (gy as int) != 0 {
            Err(GridError::HeightOffGrid)
        } else {
            Ok(())
        },
        None => Ok(()),
    }
}

/// Both grid checks, placement first.
pub open spec fn spec_grid_check(b: BoundingBox, placement: Option<(i64, i64)>, size: Option<(i64, i64)>) -> Result<(), GridError> {
    match spec_placement_grid(b, placement) {
        Err(e) => Err(e),
        Ok(()) => spec_size_grid(b, size),
    }
}

/// `a % g` can be taken on `i64`: `g` is not 0, and not -1 with `a` the
/// smallest value.
pub open spec fn rem_computable(a: int, g: i64) -> bool {
    g != 0 && !(g == -1 && a == i64::MIN)
}

/// Every remainder that the grid checks reach can be taken on `i64`.
pub open spec fn grid_computable(b: BoundingBox, placement: Option<(i64, i64)>, size: Option<(i64, i64)>) -> bool {
    &&& placement matches Some((gx, gy)) ==> {
        &&& rem_computable(b.min_x as int, gx)
        &&& b.min_x % gx == 0 ==> rem_computable(b.min_y as int, gy)
    }
    &&& (spec_placement_grid(b, placement) is Ok && size is Some) ==> {
        let (gx, gy) = size.unwrap();
        &&& fits_i64(b.max_x - b.min_x)
        &&& rem_computable(b.max_x - b.min_x, gx)
        &&& (b.max_x - b.min_x) % (gx as int) == 0 ==> {
            &&& fits_i64(b.max_y - b.min_y)
            &&& rem_computable(b.max_y - b.min_y, gy)
        }
    }
}

/// The absolute value of `x`.
pub open spec fn abs_int(x: int) -> int {
    if x < 0 {
        -x
    } else {
        x
    }
}

/// Divisibility does not depend on signs.
proof fn lemma_multiple_abs(a: int, g: int)
    requires
        g != 0,
    ensures
        (a % g == 0) <==> (abs_int(a) % abs_int(g) == 0),
{
    let aa = abs_int(a);
    let ag = abs_int(g);
    lemma_fundamental_div_mod(a, g);
    lemma_fundamental_div_mod(aa, ag);
    lemma_mod_bound_abs(a, g);
    lemma_mod_bound_abs(aa, ag);
    let q = a / g;
    let r = a % g;
    let q2 = aa / ag;
    let r2 = aa % ag;
    if r == 0 {
        assert(r2 == 0) by (nonlinear_arith)
            requires
                a == g * q,
                aa == ag * q2 + r2,
                0 <= r2 < ag,
                aa == abs_int(a),
                ag == abs_int(g),
        {
            assert(aa == ag * abs_int(q));
            assert(ag * (abs_int(q) - q2) == r2);
        }
    }
    if r2 == 0 {
        assert(r == 0) by (nonlinear_arith)
            requires
                a == g * q + r,
                0 <= r < ag,
                aa == ag * q2,
                aa == abs_int(a),
                ag == abs_int(g),
        {
            let k = if (a < 0) == (g < 0) { q2 } else { -q2 };
            assert(a == g * k);
            assert(g * (k - q) == r);
        }
    }
}

/// The Euclidean remainder lies in `[0, |g|)`.
proof fn lemma_mod_bound_abs(a: int, g: int)
    requires
        g != 0,
    ensures
        0 <= a % g < abs_int(g),
{
}

/// Whether `a` is a multiple of `g`.
fn is_multiple(a: i64, g: i64) -> (r: bool)
    requires
        rem_computable(a as int, g),
    ensures
        r == (a % g == 0),
{
    let ua: u64 = if a < 0 {
        (0i128 - a as i128) as u64
    } else {
        a as u64
    };
    let ug: u64 = if g < 0 {
        (0i128 - g as i128) as u64
    } else {
        g as u64
    };
    proof {
        lemma_multiple_abs(a as int, g as int);
    }
    ua % ug == 0
}

/// The DEF component of instance `inst_name` of a `width` by `height`
/// macro placed by `transform`: its lower-left corner and its orientation.
/// Unless `exempt`, its corner must lie on the placement grid and its size
/// be a multiple of the size grid, where those are given.
pub fn placement_to_def_component(
    inst_name: &str,
    macro_name: &str,
    transform: &Mat3,
    width: i64,
    height: i64,
    exempt: bool,
    check_grid_placement: Option<(i64, i64)>,
    check_grid_size: Option<(i64, i64)>,
) -> (r: Result<DefComponent, GridError>)
    requires
        transform.spec_as_orientation() is Some,
        forall|i: int|
            0 <= i < 4 ==> #[trigger] crate::geometry::transform_point_fits(
                *transform,
                bbox_corners(0, 0, width, height)[i],
            ),
        !exempt ==> grid_computable(
            placed_bbox(width, height, *transform),
            check_grid_placement,
            check_grid_size,
        ),
    ensures
        r is Ok <==> (exempt || spec_grid_check(
            placed_bbox(width, height, *transform),
            check_grid_placement,
            check_grid_size,
        ) is Ok),
        r matches Err(e) ==> spec_grid_check(
            placed_bbox(width, height, *transform),
            check_grid_placement,
            check_grid_size,
        ) == Err::<(), GridError>(e),
        r matches Ok(c) ==> {
            &&& c.inst_name@ == inst_name@
            &&& c.macro_name@ == macro_name@
            &&& c.x == placed_bbox(width, height, *transform).min_x
            &&& c.y == placed_bbox(width, height, *transform).min_y
            &&& c.orientation == DefOrientation::spec_from_orientation(
                transform.spec_as_orientation().unwrap(),
            )
        },
{
    let shape = Polygon::from_width_height(width, height);
    let placed = shape.apply_transform(transform);
    let bbox = placed.bbox();
    assert(placed.pts() =~= bbox_corners(0, 0, width, height).map_values(
        |p: Coordinate| Polygon::spec_transform_point(*transform, p),
    ));
    if !exempt {
        if let Some((gx, gy)) = check_grid_placement {
            if !is_multiple(bbox.min_x, gx) {
                return Err(GridError::OffXGrid);
            }
            if !is_multiple(bbox.min_y, gy) {
                return Err(GridError::OffYGrid);
            }
        }
        if let Some((gx, gy)) = check_grid_size {
            if !is_multiple(bbox.get_width(), gx) {
                return Err(GridError::WidthOffGrid);
            }
            if !is_multiple(bbox.get_height(), gy) {
                return Err(GridError::HeightOffGrid);
            }
        }
    }
    Ok(DefComponent {
        inst_name: inst_name.to_owned(),
        macro_name: macro_name.to_owned(),
        x: bbox.min_x,
        y: bbox.min_y,
        orientation: DefOrientation::from_orientation(transform.as_orientation()),
    })
}


} // verus!
