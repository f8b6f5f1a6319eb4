//! The render inputs: spatial tiles laid out along a spiral, and the rows of
//! the list baseline.
//!
//! Generation is integer-only. Coordinates, angles and factors are
//! fixed-point (see [`crate::fixed`]); the sines and cosines of the spiral
//! are not computed here but handed in by the caller, one unit
//! [`Direction`] per step, so that a workload is a function of its
//! parameters and that table alone.

use vstd::prelude::*;
use crate::fixed::{fixed_mul, lemma_product_fits, multiply};

verus! {

/// A square of side `cell_size` whose top-left corner is `(x, y)`.
#[derive(Clone, Copy, Debug, PartialEq, Eq, Structural)]
pub struct Tile {
    /// Position of the tile among the tiles generated with it, from 0.
    pub id: usize,
    pub x: i64,
    pub y: i64,
}

/// One row of the list baseline.
#[derive(Clone, Copy, Debug, PartialEq, Eq, Structural)]
pub struct Row {
    /// Position of the row in the list, from 0.
    pub index: usize,
    pub value: u32,
}

/// A point of the unit circle: the cosine and sine of one angle.
#[derive(Clone, Copy, Debug, PartialEq, Eq, Structural)]
pub struct Direction {
    pub cos: i64,
    pub sin: i64,
}

/// Why a configuration cannot be run.
#[derive(Clone, Copy, Debug, PartialEq, Eq, Structural)]
pub enum ConfigError {
    /// The angle step is zero or negative.
    NonPositiveAngleStep,
    /// The radius step factor is zero or negative.
    NonPositiveRadiusStepFactor,
    /// Cell size times radius step factor rounds to no growth at all, so
    /// the spiral would never leave its centre.
    StalledRadius,
    /// The direction table does not hold one entry per step.
    DirectionCount,
    /// A count (rows, warm-up trials, measured trials) is negative.
    NegativeCount,
    /// The per-trial timeout is negative.
    NegativeTimeout,
}

/// Parameters of the spiral layout.
#[derive(Clone, Copy, Debug, PartialEq, Eq, Structural)]
pub struct SpiralParams {
    pub canvas_width: i64,
    pub canvas_height: i64,
    pub cell_size: i64,
    /// Angle gained per step, in radians.
    pub angle_step: i64,
    /// Radius gained per step, as a fraction of the cell size.
    pub radius_step_factor: i64,
}

/// What a benchmark run was configured with.
#[derive(Clone, Copy, Debug, PartialEq, Eq, Structural)]
pub enum WorkloadParams {
    Spiral(SpiralParams),
    List { rows: i64, fill_value: u32 },
}

/// The ordered items handed to every adapter.
#[derive(Debug)]
pub enum Workload {
    Tiles(Vec<Tile>),
    Rows(Vec<Row>),
}

impl SpiralParams {
    /// Radius gained per step; zero where the spiral cannot grow.
    pub open spec fn radius_step(self) -> int {
        if self.cell_size > 0 && self.radius_step_factor > 0 {
            fixed_mul(self.cell_size as int, self.radius_step_factor as int)
        } else {
            0
        }
    }

    /// The shorter side of the canvas. Steps are taken while twice the
    /// radius is below it.
    pub open spec fn short_side(self) -> int {
        if self.canvas_width <= self.canvas_height {
            self.canvas_width as int
        } else {
            self.canvas_height as int
        }
    }

    /// The first reason, if any, for which these parameters are refused.
    pub open spec fn config_error(self) -> Option<ConfigError> {
        if self.angle_step <= 0 {
            Some(ConfigError::NonPositiveAngleStep)
        } else if self.radius_step_factor <= 0 {
            Some(ConfigError::NonPositiveRadiusStepFactor)
        } else if self.radius_step() <= 0 {
            Some(ConfigError::StalledRadius)
        } else {
            None
        }
    }

    /// Radius at step `k`.
    pub open spec fn radius_at(self, k: nat) -> int {
        k * self.radius_step()
    }

    /// Angle at step `k`.
    pub open spec fn angle_at(self, k: nat) -> int {
        k * self.angle_step
    }

    /// Number of steps the spiral takes: the least `n` with
    /// `2 * radius_at(n) >= short_side()`.
    pub open spec fn step_count(self) -> nat {
        let side = self.short_side();
        let step = self.radius_step();
        if side <= 0 || step <= 0 {
            0
        } else {
            ((side + 2 * step - 1) / (2 * step)) as nat
        }
    }

    /// Whether the square at `(x, y)` lies within the canvas, borders
    /// included.
    pub open spec fn holds_square(self, x: int, y: int) -> bool {
        &&& 0 <= x <= self.canvas_width
        &&& 0 <= x + self.cell_size <= self.canvas_width
        &&& 0 <= y <= self.canvas_height
        &&& 0 <= y + self.cell_size <= self.canvas_height
    }

    /// Corner of the square that the spiral proposes at `radius` in
    /// direction `d`.
    pub open spec fn candidate(self, radius: int, d: Direction) -> (int, int) {
        (
            self.canvas_width / 2 + fixed_mul(d.cos as int, radius),
            self.canvas_height / 2 + fixed_mul(d.sin as int, radius),
        )
    }

    /// The candidate at `radius` in direction `d`, if its square lies
    /// within the canvas. Nothing is clamped.
    pub open spec fn placement(self, radius: int, d: Direction) -> Option<(i64, i64)> {
        let (x, y) = self.candidate(radius, d);
        if self.holds_square(x, y) {
            Some((x as i64, y as i64))
        } else {
            None
        }
    }

    /// Computes [`Self::radius_step`].
    pub fn growth(&self) -> (step: i128)
        ensures
            step == self.radius_step(),
    {
        if self.cell_size > 0 && self.radius_step_factor > 0 {
            multiply(self.cell_size, self.radius_step_factor)
        } else {
            0
        }
    }

    /// Accepts the parameters, or names the first fault in them.
    pub fn validate(&self) -> (result: Result<(), ConfigError>)
        ensures
            result == match self.config_error() {
                Some(e) => Err::<(), ConfigError>(e),
                None => Ok(()),
            },
    {
        if self.angle_step <= 0 {
            Err(ConfigError::NonPositiveAngleStep)
        } else if self.radius_step_factor <= 0 {
            Err(ConfigError::NonPositiveRadiusStepFactor)
        } else if self.growth() <= 0 {
            Err(ConfigError::StalledRadius)
        } else {
            Ok(())
        }
    }

    /// Number of steps, and so of directions, that generation takes.
    pub fn count_steps(&self) -> (result: Result<u64, ConfigError>)
        ensures
            match result {
                Ok(n) => self.config_error() is None && n == self.step_count(),
                Err(e) => self.config_error() == Some(e),
            },
    {
        match self.validate() {
            Err(e) => Err(e),
            Ok(()) => {
                let side: i64 = if self.canvas_width <= self.canvas_height {
                    self.canvas_width
                } else {
                    self.canvas_height
                };
                if side <= 0 {
                    return Ok(0);
                }
                let step: i128 = self.growth();
                proof {
                    lemma_product_fits(self.cell_size as int, self.radius_step_factor as int);
                    lemma_step_count_fits(side as int, step as int);
                }
                let n: i128 = (side as i128 + 2 * step - 1) / (2 * step);
                Ok(n as u64)
            },
        }
    }

    /// Angle at step `k`, for which the caller looks up the direction.
    pub fn angle(&self, k: u64) -> (angle: i128)
        ensures
            angle == self.angle_at(k as nat),
    {
        assert(-0x8000_0000_0000_0000_0000_0000_0000_0000 <= k * self.angle_step
            <= 0x7fff_ffff_ffff_ffff_ffff_ffff_ffff_ffff) by (nonlinear_arith)
            requires
                0 <= k <= 0xffff_ffff_ffff_ffff,
                -0x8000_0000_0000_0000 <= self.angle_step <= 0x7fff_ffff_ffff_ffff,
        ;
        (k as i128) * (self.angle_step as i128)
    }

    /// One step of the spiral: the tile corner proposed at `radius` in
    /// direction `d`, or `None` where the square would leave the canvas.
    pub fn place(&self, radius: i64, d: &Direction) -> (corner: Option<(i64, i64)>)
        ensures
            corner == self.placement(radius as int, *d),
    {
        let dx: i128 = multiply(d.cos, radius);
        let dy: i128 = multiply(d.sin, radius);
        proof {
            lemma_product_fits(d.cos as int, radius as int);
            lemma_product_fits(d.sin as int, radius as int);
        }
        let width: i128 = self.canvas_width as i128;
        let height: i128 = self.canvas_height as i128;
        let x: i128 = half(width) + dx;
        let y: i128 = half(height) + dy;
        let cell: i128 = self.cell_size as i128;
        if 0 <= x && x <= width && 0 <= x + cell && x + cell <= width && 0 <= y && y <= height
            && 0 <= y + cell && y + cell <= height {
            Some((x as i64, y as i64))
        } else {
            None
        }
    }
}

/// Half of `v`, rounded down.
fn half(v: i128) -> (h: i128)
    requires
        i64::MIN <= v <= i64::MAX,
    ensures
        h == v / 2,
{
    if v >= 0 {
        v / 2
    } else {
        (v - 1) / 2
    }
}

/// The quotient that counts the steps is at most `side`.
proof fn lemma_step_count_fits(side: int, step: int)
    requires
        side > 0,
        step > 0,
    ensures
        0 <= (side + 2 * step - 1) / (2 * step) <= side,
{
    let d = 2 * step;
    let q = (side + d - 1) / d;
    vstd::arithmetic::div_mod::lemma_fundamental_div_mod(side + d - 1, d);
    assert(d * q <= side + d - 1);
    assert(q <= side) by (nonlinear_arith)
        requires
            d * q <= side + d - 1,
            d >= 2,
            side > 0,
    ;
    assert(q >= 0) by (nonlinear_arith)
        requires
            d * q + (side + d - 1) % d == side + d - 1,
            (side + d - 1) % d < d,
            d >= 2,
            side > 0,
    ;
}

/// A step is taken exactly while twice its radius is below the shorter
/// side of the canvas.
pub proof fn lemma_step_count_is_loop_bound(p: SpiralParams, k: nat)
    requires
        p.config_error() is None,
    ensures
        k < p.step_count() <==> 2 * p.radius_at(k) < p.short_side(),
{
    let side = p.short_side();
    let step = p.radius_step();
    if side <= 0 {
        assert(k * step >= 0) by (nonlinear_arith)
            requires
                k >= 0,
                step > 0,
        ;
    } else {
        let d = 2 * step;
        let n = (side + d - 1) / d;
        vstd::arithmetic::div_mod::lemma_fundamental_div_mod(side + d - 1, d);
        let r = (side + d - 1) % d;
        assert(0 <= r < d);
        assert(d * n + r == side + d - 1);
        lemma_step_count_fits(side, step);
        if k < n {
            assert(d * k <= d * (n - 1)) by (nonlinear_arith)
                requires
                    k <= n - 1,
                    d > 0,
            ;
            assert(d * (n - 1) == d * n - d) by (nonlinear_arith);
        } else {
            assert(d * k >= d * n) by (nonlinear_arith)
                requires
                    k >= n,
                    d > 0,
            ;
        }
        assert(2 * (k * step) == d * k) by (nonlinear_arith)
            requires
                d == 2 * step,
        ;
    }
}

/// The tiles laid down by the first `k` steps.
pub open spec fn tiles_after(p: SpiralParams, dirs: Seq<Direction>, k: nat) -> Seq<Tile>
    decreases k,
{
    if k == 0 {
        Seq::empty()
    } else {
        let earlier = tiles_after(p, dirs, (k - 1) as nat);
        match p.placement(p.radius_at((k - 1) as nat), dirs[k - 1]) {
            Some((x, y)) => earlier.push(Tile { id: earlier.len() as usize, x, y }),
            None => earlier,
        }
    }
}

/// The tiles of the whole spiral: one step per direction.
pub open spec fn spiral_tiles(p: SpiralParams, dirs: Seq<Direction>) -> Seq<Tile> {
    tiles_after(p, dirs, dirs.len())
}

/// Why generation refuses its input, if it does.
pub open spec fn spiral_error(p: SpiralParams, table_len: nat) -> Option<ConfigError> {
    match p.config_error() {
        Some(e) => Some(e),
        None => if table_len != p.step_count() {
            Some(ConfigError::DirectionCount)
        } else {
            None
        },
    }
}

/// What generation returns for `p` and `dirs`.
pub open spec fn is_spiral_outcome(
    p: SpiralParams,
    dirs: Seq<Direction>,
    outcome: Result<Vec<Tile>, ConfigError>,
) -> bool {
    match outcome {
        Ok(tiles) => spiral_error(p, dirs.len()) is None && tiles@ == spiral_tiles(p, dirs),
        Err(e) => spiral_error(p, dirs.len()) == Some(e),
    }
}

/// No step lays down more than one tile.
pub proof fn lemma_tile_count(p: SpiralParams, dirs: Seq<Direction>, k: nat)
    ensures
        tiles_after(p, dirs, k).len() <= k,
    decreases k,
{
    if k > 0 {
        lemma_tile_count(p, dirs, (k - 1) as nat);
    }
}

/// Ids count the tiles from zero, in generation order, with no gap and no
/// repeat.
pub proof fn lemma_ids_are_positions(p: SpiralParams, dirs: Seq<Direction>, k: nat)
    requires
        k <= usize::MAX,
    ensures
        forall|i: int| 0 <= i < tiles_after(p, dirs, k).len() ==> (#[trigger] tiles_after(
            p,
            dirs,
            k,
        )[i]).id == i,
    decreases k,
{
    if k > 0 {
        lemma_ids_are_positions(p, dirs, (k - 1) as nat);
        lemma_tile_count(p, dirs, (k - 1) as nat);
    }
}

/// Every tile lies within the canvas together with its square.
pub proof fn lemma_tiles_within_canvas(p: SpiralParams, dirs: Seq<Direction>, k: nat)
    ensures
        forall|i: int|
            0 <= i < tiles_after(p, dirs, k).len() ==> {
                let t = #[trigger] tiles_after(p, dirs, k)[i];
                &&& 0 <= t.x <= p.canvas_width - p.cell_size
                &&& 0 <= t.y <= p.canvas_height - p.cell_size
            },
    decreases k,
{
    if k > 0 {
        lemma_tiles_within_canvas(p, dirs, (k - 1) as nat);
        let earlier = tiles_after(p, dirs, (k - 1) as nat);
        let radius = p.radius_at((k - 1) as nat);
        let (x, y) = p.candidate(radius, dirs[k - 1]);
        if p.holds_square(x, y) {
            assert(tiles_after(p, dirs, k) == earlier.push(
                Tile { id: earlier.len() as usize, x: x as i64, y: y as i64 },
            ));
        }
    }
}

/// Generation is a function of its input: two outcomes for the same
/// parameters and directions agree, in kind and tile for tile.
pub proof fn lemma_generation_repeats(
    p: SpiralParams,
    dirs: Seq<Direction>,
    first: Result<Vec<Tile>, ConfigError>,
    second: Result<Vec<Tile>, ConfigError>,
)
    requires
        is_spiral_outcome(p, dirs, first),
        is_spiral_outcome(p, dirs, second),
    ensures
        first is Ok <==> second is Ok,
        first is Ok ==> first->Ok_0@ == second->Ok_0@,
        first is Err ==> first->Err_0 == second->Err_0,
{
}

/// Lays tiles along a spiral from the centre of the canvas outward.
///
/// Step `k` stands at radius `k * radius_step` in direction
/// `directions[k]`, which the caller has looked up for the angle
/// [`SpiralParams::angle`]`(k)`. A tile is kept only where its whole square
/// lies within the canvas, and only kept tiles take an id.
///
/// Parameters with which the spiral would not end are refused, and so is
/// a table that does not hold one direction per step.
pub fn generate_spiral_tiles(params: &SpiralParams, directions: &Vec<Direction>) -> (result:
    Result<Vec<Tile>, ConfigError>)
    ensures
        is_spiral_outcome(*params, directions@, result),
        result matches Ok(tiles) ==> forall|i: int|
            0 <= i < tiles@.len() ==> {
                let t = #[trigger] tiles@[i];
                &&& t.id == i
                &&& 0 <= t.x <= params.canvas_width - params.cell_size
                &&& 0 <= t.y <= params.canvas_height - params.cell_size
            },
{
    let steps = match params.count_steps() {
        Ok(n) => n,
        Err(e) => {
            return Err(e);
        },
    };
    if directions.len() as u64 != steps {
        return Err(ConfigError::DirectionCount);
    }
    let step: i128 = params.growth();
    let mut tiles: Vec<Tile> = Vec::new();
    let mut radius: i128 = 0;
    let mut k: usize = 0;
    while k < directions.len()
        invariant
            params.config_error() is None,
            directions@.len() == params.step_count(),
            k <= directions@.len(),
            step == params.radius_step(),
            radius == params.radius_at(k as nat),
            tiles@ == tiles_after(*params, directions@, k as nat),
        decreases directions@.len() - k,
    {
        proof {
            lemma_step_count_is_loop_bound(*params, k as nat);
            lemma_product_fits(params.cell_size as int, params.radius_step_factor as int);
            assert(radius >= 0) by (nonlinear_arith)
                requires
                    radius == k * step,
                    step > 0,
                    k >= 0,
            ;
            assert((k + 1) * step == k * step + step) by (nonlinear_arith);
        }
        match params.place(radius as i64, &directions[k]) {
            Some((x, y)) => {
                let id: usize = tiles.len();
                tiles.push(Tile { id, x, y });
            },
            None => {},
        }
        radius = radius + step;
        k = k + 1;
    }
    proof {
        lemma_ids_are_positions(*params, directions@, directions@.len());
        lemma_tiles_within_canvas(*params, directions@, directions@.len());
    }
    Ok(tiles)
}

/// `count` rows of one value, each with its position.
pub open spec fn sequential_rows(count: nat, fill_value: u32) -> Seq<Row> {
    Seq::new(count, |i: int| Row { index: i as usize, value: fill_value })
}

/// The list baseline: `count` rows that each carry `fill_value` and their
/// own index. A negative count is refused.
pub fn generate_sequential_rows(count: i64, fill_value: u32) -> (result: Result<
    Vec<Row>,
    ConfigError,
>)
    ensures
        match result {
            Ok(rows) => count >= 0 && rows@ == sequential_rows(count as nat, fill_value),
            Err(e) => count < 0 && e == ConfigError::NegativeCount,
        },
{
    if count < 0 {
        return Err(ConfigError::NegativeCount);
    }
    let mut rows: Vec<Row> = Vec::new();
    let mut i: i64 = 0;
    while i < count
        invariant
            0 <= i <= count,
            rows@ == sequential_rows(i as nat, fill_value),
        decreases count - i,
    {
        let index: usize = rows.len();
        rows.push(Row { index, value: fill_value });
        i = i + 1;
    }
    Ok(rows)
}

} // verus!
