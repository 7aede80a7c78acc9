//! The pixel grid and its rasterization primitives.
//!
//! A `Screen` is a mutable canvas: a two-dimensional grid of colours indexed
//! `[x][y]`, with `x` increasing rightward and `y` increasing upward from the
//! bottom-left corner. Callers that work in a continuous coordinate plane
//! map their points into pixel coordinates before calling in here; every
//! function in this module works purely in pixel space.

use vstd::prelude::*;

use crate::colours::Colour;

verus! {

/// A discrete position on (or off) the pixel grid.
#[derive(Copy, Clone, Debug, PartialEq, Eq, Structural)]
pub struct PixelCoordinate {
    pub x: i32,
    pub y: i32,
}

impl PixelCoordinate {
    /// Creates a new PixelCoordinate.
    pub fn new(x: i32, y: i32) -> (c: PixelCoordinate)
        ensures
            c == (PixelCoordinate { x, y }),
    {
        PixelCoordinate { x, y }
    }
}

/// Represents an image: a grid of colours and its pixel resolution.
pub struct Screen {
    pub pixels: Vec<Vec<Colour>>,
    pub horizontal_resolution: u16,
    pub vertical_resolution: u16,
}

impl Screen {
    /// The mathematical contents of the grid: column `x` is `grid()[x]`,
    /// and the pixel at `(x, y)` is `grid()[x][y]`.
    pub open spec fn grid(self) -> Seq<Seq<Colour>> {
        self.pixels@.map_values(|column: Vec<Colour>| column@)
    }

    /// The colour of the pixel at `(x, y)`.
    pub open spec fn pixel(self, x: int, y: int) -> Colour {
        self.pixels@[x]@[y]
    }

    /// The grid matches the stated resolution: one column per horizontal
    /// pixel, each holding one colour per vertical pixel.
    pub open spec fn wf(self) -> bool {
        &&& self.pixels@.len() == self.horizontal_resolution
        &&& forall|x: int|
            0 <= x < self.pixels@.len() ==> (#[trigger] self.pixels@[x])@.len()
                == self.vertical_resolution
    }

    /// Whether `(x, y)` indexes a pixel of the grid.
    pub open spec fn on_screen(self, x: int, y: int) -> bool {
        &&& 0 <= x < self.horizontal_resolution
        &&& 0 <= y < self.vertical_resolution
    }

    /// Two screens have equal resolution fields.
    pub open spec fn same_resolution(self, other: Screen) -> bool {
        &&& self.horizontal_resolution == other.horizontal_resolution
        &&& self.vertical_resolution == other.vertical_resolution
    }

    /// Creates a blank screen of the given resolution, every pixel holding
    /// the default colour.
    pub fn new(
        horizontal_resolution: u16,
        vertical_resolution: u16,
        default_colour: Colour,
    ) -> (screen: Screen)
        ensures
            screen.wf(),
            screen.horizontal_resolution == horizontal_resolution,
            screen.vertical_resolution == vertical_resolution,
            forall|x: int, y: int|
                screen.on_screen(x, y) ==> screen.pixel(x, y) == default_colour,
    {
        let mut pixels: Vec<Vec<Colour>> = Vec::new();
        let mut x: u16 = 0;
        while x < horizontal_resolution
            invariant
                x <= horizontal_resolution,
                pixels@.len() == x,
                forall|i: int|
                    0 <= i < x ==> (#[trigger] pixels@[i])@.len() == vertical_resolution,
                forall|i: int, j: int|
                    0 <= i < x && 0 <= j < vertical_resolution ==> #[trigger] pixels@[i]@[j]
                        == default_colour,
            decreases horizontal_resolution - x,
        {
            let mut column: Vec<Colour> = Vec::new();
            let mut y: u16 = 0;
            while y < vertical_resolution
                invariant
                    y <= vertical_resolution,
                    column@.len() == y,
                    forall|j: int| 0 <= j < y ==> column@[j] == default_colour,
                decreases vertical_resolution - y,
            {
                column.push(default_colour);
                y = y + 1;
            }
            pixels.push(column);
            x = x + 1;
        }
        Screen { pixels, horizontal_resolution, vertical_resolution }
    }

    /// Reads the colour of one pixel.
    pub fn get_pixel(&self, x: usize, y: usize) -> (colour: Colour)
        requires
            self.wf(),
            self.on_screen(x as int, y as int),
        ensures
            colour == self.pixel(x as int, y as int),
    {
        self.pixels[x][y]
    }

    /// Overwrites the colour of one pixel, leaving every other pixel as it
    /// was.
    pub fn set_pixel(&mut self, x: usize, y: usize, colour: Colour)
        requires
            old(self).wf(),
            old(self).on_screen(x as int, y as int),
        ensures
            final(self).wf(),
            final(self).same_resolution(*old(self)),
            final(self).pixel(x as int, y as int) == colour,
            forall|i: int, j: int|
                old(self).on_screen(i, j) && !(i == x && j == y) ==> final(self).pixel(i, j)
                    == old(self).pixel(i, j),
            final(self).grid() == old(self).grid().update(
                x as int,
                old(self).grid()[x as int].update(y as int, colour),
            ),
    {
        self.pixels[x][y] = colour;
        proof {
            assert(self.grid() =~~= old(self).grid().update(
                x as int,
                old(self).grid()[x as int].update(y as int, colour),
            ));
        }
    }
}

impl Clone for Screen {
    /// Copies the screen: the copy shows the same grid at the same
    /// resolution. Scene chaining hands each concurrent frame its own copy
    /// of the shared starting screen.
    fn clone(&self) -> (cloned: Screen)
        ensures
            cloned.grid() == self.grid(),
            cloned.same_resolution(*self),
    {
        let mut pixels: Vec<Vec<Colour>> = Vec::new();
        let mut x: usize = 0;
        while x < self.pixels.len()
            invariant
                x <= self.pixels@.len(),
                pixels@.len() == x,
                forall|i: int| 0 <= i < x ==> #[trigger] pixels@[i]@ == self.pixels@[i]@,
            decreases self.pixels@.len() - x,
        {
            let column = &self.pixels[x];
            let mut copied_column: Vec<Colour> = Vec::new();
            let mut y: usize = 0;
            while y < column.len()
                invariant
                    y <= column@.len(),
                    copied_column@.len() == y,
                    forall|j: int| 0 <= j < y ==> copied_column@[j] == column@[j],
                decreases column@.len() - y,
            {
                copied_column.push(column[y]);
                y = y + 1;
            }
            proof {
                assert(copied_column@ =~= column@);
            }
            pixels.push(copied_column);
            x = x + 1;
        }
        let cloned = Screen {
            pixels,
            horizontal_resolution: self.horizontal_resolution,
            vertical_resolution: self.vertical_resolution,
        };
        proof {
            assert(cloned.grid() =~~= self.grid());
        }
        cloned
    }
}

/// Whether `(i, j)` lies in the square of side `2 * radius` whose corner
/// pixels are `(centre.x - radius, centre.y - radius)` (inclusive) and
/// `(centre.x + radius, centre.y + radius)` (exclusive).
pub open spec fn in_bounding_square(
    centre: PixelCoordinate,
    radius: u16,
    i: int,
    j: int,
) -> bool {
    &&& centre.x - radius <= i < centre.x + radius
    &&& centre.y - radius <= j < centre.y + radius
}

/// Whether `(i, j)` lies strictly within `radius` pixels of `centre`,
/// measured by squared Euclidean distance.
pub open spec fn within_radius(centre: PixelCoordinate, radius: u16, i: int, j: int) -> bool {
    (i - centre.x) * (i - centre.x) + (j - centre.y) * (j - centre.y) < radius * radius
}

/// The loop counters of the rasterization loops stay inside `i32`.
pub open spec fn square_fits_i32(centre: PixelCoordinate, radius: u16) -> bool {
    &&& centre.x - radius >= i32::MIN
    &&& centre.x + radius <= i32::MAX
    &&& centre.y - radius >= i32::MIN
    &&& centre.y + radius <= i32::MAX
}

proof fn lemma_square_bounded_by(a: int, b: int)
    requires
        -b <= a <= b,
    ensures
        0 <= a * a <= b * b,
{
    assert(0 <= a * a <= b * b) by (nonlinear_arith)
        requires
            -b <= a <= b,
    ;
}

impl Screen {
    /// Renders a hard-edged square of side `2 * radius` centred on `centre`:
    /// every pixel of the bounding square that lies on the screen is
    /// overwritten with `colour`, and no other pixel changes.
    pub fn render_point_square(&mut self, centre: PixelCoordinate, radius: u16, colour: Colour)
        requires
            old(self).wf(),
            square_fits_i32(centre, radius),
        ensures
            final(self).wf(),
            final(self).same_resolution(*old(self)),
            forall|i: int, j: int|
                old(self).on_screen(i, j) ==> final(self).pixel(i, j) == (if in_bounding_square(
                    centre,
                    radius,
                    i,
                    j,
                ) {
                    colour
                } else {
                    old(self).pixel(i, j)
                }),
    {
        let radius_px: i32 = radius as i32;
        let mut i: i32 = centre.x - radius_px;
        while i < centre.x + radius_px
            invariant
                self.wf(),
                self.same_resolution(*old(self)),
                square_fits_i32(centre, radius),
                radius_px == radius,
                centre.x - radius <= i,
                forall|a: int, b: int|
                    old(self).on_screen(a, b) ==> self.pixel(a, b) == (if in_bounding_square(
                        centre,
                        radius,
                        a,
                        b,
                    ) && a < i {
                        colour
                    } else {
                        old(self).pixel(a, b)
                    }),
            decreases centre.x + radius_px - i,
        {
            let mut j: i32 = centre.y - radius_px;
            while j < centre.y + radius_px
                invariant
                    self.wf(),
                    self.same_resolution(*old(self)),
                    square_fits_i32(centre, radius),
                    radius_px == radius,
                    centre.x - radius <= i < centre.x + radius,
                    centre.y - radius <= j,
                    forall|a: int, b: int|
                        old(self).on_screen(a, b) ==> self.pixel(a, b) == (if in_bounding_square(
                            centre,
                            radius,
                            a,
                            b,
                        ) && (a < i || (a == i && b < j)) {
                            colour
                        } else {
                            old(self).pixel(a, b)
                        }),
                decreases centre.y + radius_px - j,
            {
                if within_screen(PixelCoordinate::new(i, j), self) {
                    self.set_pixel(i as usize, j as usize, colour);
                }
                j = j + 1;
            }
            i = i + 1;
        }
    }

    /// Renders a hard-edged disc centred on `centre`: every pixel of the
    /// bounding square that lies on the screen and whose squared distance to
    /// `centre` is below `radius * radius` is overwritten with `colour`, and
    /// no other pixel changes.
    pub fn render_point_round(&mut self, centre: PixelCoordinate, radius: u16, colour: Colour)
        requires
            old(self).wf(),
            square_fits_i32(centre, radius),
        ensures
            final(self).wf(),
            final(self).same_resolution(*old(self)),
            forall|i: int, j: int|
                old(self).on_screen(i, j) ==> final(self).pixel(i, j) == (if in_bounding_square(
                    centre,
                    radius,
                    i,
                    j,
                ) && within_radius(centre, radius, i, j) {
                    colour
                } else {
                    old(self).pixel(i, j)
                }),
    {
        let radius_px: i32 = radius as i32;
        proof {
            lemma_square_bounded_by(radius as int, 65535);
        }
        let squared_radius: i64 = (radius as i64) * (radius as i64);
        let mut i: i32 = centre.x - radius_px;
        while i < centre.x + radius_px
            invariant
                self.wf(),
                self.same_resolution(*old(self)),
                square_fits_i32(centre, radius),
                radius_px == radius,
                squared_radius == radius * radius,
                centre.x - radius <= i,
                forall|a: int, b: int|
                    old(self).on_screen(a, b) ==> self.pixel(a, b) == (if in_bounding_square(
                        centre,
                        radius,
                        a,
                        b,
                    ) && within_radius(centre, radius, a, b) && a < i {
                        colour
                    } else {
                        old(self).pixel(a, b)
                    }),
            decreases centre.x + radius_px - i,
        {
            let mut j: i32 = centre.y - radius_px;
            while j < centre.y + radius_px
                invariant
                    self.wf(),
                    self.same_resolution(*old(self)),
                    square_fits_i32(centre, radius),
                    radius_px == radius,
                    squared_radius == radius * radius,
                    centre.x - radius <= i < centre.x + radius,
                    centre.y - radius <= j,
                    forall|a: int, b: int|
                        old(self).on_screen(a, b) ==> self.pixel(a, b) == (if in_bounding_square(
                            centre,
                            radius,
                            a,
                            b,
                        ) && within_radius(centre, radius, a, b) && (a < i || (a == i && b < j)) {
                            colour
                        } else {
                            old(self).pixel(a, b)
                        }),
                decreases centre.y + radius_px - j,
            {
                proof {
                    lemma_square_bounded_by(radius as int, 65535);
                    lemma_square_bounded_by(i - centre.x, radius as int);
                    lemma_square_bounded_by(j - centre.y, radius as int);
                }
                let dx: i64 = (i - centre.x) as i64;
                let dy: i64 = (j - centre.y) as i64;
                let squared_distance: i64 = dx * dx + dy * dy;
                if squared_distance < squared_radius && within_screen(
                    PixelCoordinate::new(i, j),
                    self,
                ) {
                    self.set_pixel(i as usize, j as usize, colour);
                }
                j = j + 1;
            }
            i = i + 1;
        }
    }

    /// Lists the pixels a round stroke of the given radius touches: exactly
    /// those that lie on the screen, inside the bounding square of `centre`,
    /// and strictly within `radius` pixels of it, each listed once, in
    /// row-major scan order.
    ///
    /// Distance-blended (anti-aliased) strokes recolour exactly these pixels,
    /// with a blend weight computed from each pixel's squared distance to the
    /// centre; a caller that blends in continuous arithmetic iterates this
    /// list, so that pixels at or beyond the radius keep their prior colour.
    pub fn pixels_within_radius(&self, centre: PixelCoordinate, radius: u16) -> (found: Vec<
        PixelCoordinate,
    >)
        requires
            self.wf(),
            square_fits_i32(centre, radius),
        ensures
            forall|k: int|
                0 <= k < found@.len() ==> {
                    &&& self.on_screen(#[trigger] found@[k].x as int, found@[k].y as int)
                    &&& in_bounding_square(centre, radius, found@[k].x as int, found@[k].y as int)
                    &&& within_radius(centre, radius, found@[k].x as int, found@[k].y as int)
                },
            forall|p: PixelCoordinate|
                self.on_screen(p.x as int, p.y as int) && in_bounding_square(
                    centre,
                    radius,
                    p.x as int,
                    p.y as int,
                ) && within_radius(centre, radius, p.x as int, p.y as int) ==> found@.contains(p),
            forall|k1: int, k2: int|
                0 <= k1 < k2 < found@.len() ==> scan_before(
                    #[trigger] found@[k1],
                    #[trigger] found@[k2],
                ),
            forall|k1: int, k2: int|
                0 <= k1 < k2 < found@.len() ==> found@[k1] != found@[k2],
    {
        let radius_px: i32 = radius as i32;
        proof {
            lemma_square_bounded_by(radius as int, 65535);
        }
        let squared_radius: i64 = (radius as i64) * (radius as i64);
        let mut found: Vec<PixelCoordinate> = Vec::new();
        let mut i: i32 = centre.x - radius_px;
        while i < centre.x + radius_px
            invariant
                self.wf(),
                square_fits_i32(centre, radius),
                radius_px == radius,
                squared_radius == radius * radius,
                centre.x - radius <= i,
                forall|k: int|
                    0 <= k < found@.len() ==> {
                        &&& self.on_screen(#[trigger] found@[k].x as int, found@[k].y as int)
                        &&& in_bounding_square(
                            centre,
                            radius,
                            found@[k].x as int,
                            found@[k].y as int,
                        )
                        &&& within_radius(centre, radius, found@[k].x as int, found@[k].y as int)
                        &&& found@[k].x < i
                    },
                forall|p: PixelCoordinate|
                    self.on_screen(p.x as int, p.y as int) && in_bounding_square(
                        centre,
                        radius,
                        p.x as int,
                        p.y as int,
                    ) && within_radius(centre, radius, p.x as int, p.y as int) && p.x < i
                        ==> found@.contains(p),
                forall|k1: int, k2: int|
                    0 <= k1 < k2 < found@.len() ==> scan_before(found@[k1], found@[k2]),
            decreases centre.x + radius_px - i,
        {
            let mut j: i32 = centre.y - radius_px;
            while j < centre.y + radius_px
                invariant
                    self.wf(),
                    square_fits_i32(centre, radius),
                    radius_px == radius,
                    squared_radius == radius * radius,
                    centre.x - radius <= i < centre.x + radius,
                    centre.y - radius <= j,
                    forall|k: int|
                        0 <= k < found@.len() ==> {
                            &&& self.on_screen(#[trigger] found@[k].x as int, found@[k].y as int)
                            &&& in_bounding_square(
                                centre,
                                radius,
                                found@[k].x as int,
                                found@[k].y as int,
                            )
                            &&& within_radius(
                                centre,
                                radius,
                                found@[k].x as int,
                                found@[k].y as int,
                            )
                            &&& (found@[k].x < i || (found@[k].x == i && found@[k].y < j))
                        },
                    forall|p: PixelCoordinate|
                        self.on_screen(p.x as int, p.y as int) && in_bounding_square(
                            centre,
                            radius,
                            p.x as int,
                            p.y as int,
                        ) && within_radius(centre, radius, p.x as int, p.y as int) && (p.x < i || (
                        p.x == i && p.y < j)) ==> found@.contains(p),
                    forall|k1: int, k2: int|
                        0 <= k1 < k2 < found@.len() ==> scan_before(found@[k1], found@[k2]),
                decreases centre.y + radius_px - j,
            {
                proof {
                    lemma_square_bounded_by(radius as int, 65535);
                    lemma_square_bounded_by(i - centre.x, radius as int);
                    lemma_square_bounded_by(j - centre.y, radius as int);
                }
                let dx: i64 = (i - centre.x) as i64;
                let dy: i64 = (j - centre.y) as i64;
                let squared_distance: i64 = dx * dx + dy * dy;
                let ghost prev_found = found@;
                let touched = squared_distance < squared_radius && within_screen(
                    PixelCoordinate::new(i, j),
                    self,
                );
                if touched {
                    found.push(PixelCoordinate::new(i, j));
                }
                proof {
                    assert forall|p: PixelCoordinate|
                        self.on_screen(p.x as int, p.y as int) && in_bounding_square(
                            centre,
                            radius,
                            p.x as int,
                            p.y as int,
                        ) && within_radius(centre, radius, p.x as int, p.y as int) && (p.x < i || (
                        p.x == i && p.y < j + 1)) implies found@.contains(p) by {
                        if p.x == i && p.y == j {
                            assert(touched);
                            assert(found@.last() == p);
                        } else {
                            assert(prev_found.contains(p));
                            let k = choose|k: int|
                                0 <= k < prev_found.len() && prev_found[k] == p;
                            assert(found@[k] == p);
                        }
                    }
                }
                j = j + 1;
            }
            i = i + 1;
        }
        proof {
            assert forall|k1: int, k2: int|
                0 <= k1 < k2 < found@.len() implies found@[k1] != found@[k2] by {
                assert(scan_before(found@[k1], found@[k2]));
            }
        }
        found
    }
}

/// A hard-edged stroke style: how a point's radius decides which pixels
/// are overwritten. The distance-blended (anti-aliased) style is not a
/// plain overwrite; callers resolve it pixel by pixel over
/// `pixels_within_radius`.
#[derive(Copy, Clone, Debug, PartialEq, Eq, Structural)]
pub enum StrokeStyle {
    Square,
    RoundAliased,
}

/// Whether a stroke of the given style and radius centred on `centre`
/// overwrites the pixel `(i, j)`.
pub open spec fn stroke_covers(
    style: StrokeStyle,
    centre: PixelCoordinate,
    radius: u16,
    i: int,
    j: int,
) -> bool {
    match style {
        StrokeStyle::Square => in_bounding_square(centre, radius, i, j),
        StrokeStyle::RoundAliased => in_bounding_square(centre, radius, i, j) && within_radius(
            centre,
            radius,
            i,
            j,
        ),
    }
}

/// `grid` with one stroke stamped on it: covered pixels take `colour`, all
/// others keep their value.
pub open spec fn stamped(
    grid: Seq<Seq<Colour>>,
    centre: PixelCoordinate,
    radius: u16,
    colour: Colour,
    style: StrokeStyle,
) -> Seq<Seq<Colour>> {
    Seq::new(
        grid.len(),
        |x: int|
            Seq::new(
                grid[x].len(),
                |y: int|
                    if stroke_covers(style, centre, radius, x, y) {
                        colour
                    } else {
                        grid[x][y]
                    },
            ),
    )
}

/// `grid` with one stroke per centre stamped on it, in the order the
/// centres are listed: a later stroke overwrites an earlier one where they
/// overlap.
pub open spec fn all_stamped(
    grid: Seq<Seq<Colour>>,
    centres: Seq<PixelCoordinate>,
    radius: u16,
    colour: Colour,
    style: StrokeStyle,
) -> Seq<Seq<Colour>>
    decreases centres.len(),
{
    if centres.len() == 0 {
        grid
    } else {
        all_stamped(
            stamped(grid, centres[0], radius, colour, style),
            centres.drop_first(),
            radius,
            colour,
            style,
        )
    }
}

impl Screen {
    /// Renders one hard-edged point stroke.
    pub fn render_point(&mut self, centre: PixelCoordinate, radius: u16, colour: Colour, style: StrokeStyle)
        requires
            old(self).wf(),
            square_fits_i32(centre, radius),
        ensures
            final(self).wf(),
            final(self).same_resolution(*old(self)),
            final(self).grid() == stamped(old(self).grid(), centre, radius, colour, style),
    {
        match style {
            StrokeStyle::Square => self.render_point_square(centre, radius, colour),
            StrokeStyle::RoundAliased => self.render_point_round(centre, radius, colour),
        }
        proof {
            let target = stamped(old(self).grid(), centre, radius, colour, style);
            assert forall|x: int, y: int|
                0 <= x < self.grid().len() && 0 <= y < self.grid()[x].len() implies self.grid(
            )[x][y] == target[x][y] by {
                assert(old(self).on_screen(x, y));
                assert(self.grid()[x][y] == self.pixel(x, y));
                assert(old(self).grid()[x][y] == old(self).pixel(x, y));
            }
            assert(self.grid() =~~= target);
        }
    }

    /// Renders one point stroke per centre, in the order the centres are
    /// listed, all with the same radius, colour and style: a sampled curve
    /// is rendered exactly this way, one stroke per sample.
    pub fn render_points(
        &mut self,
        centres: &Vec<PixelCoordinate>,
        radius: u16,
        colour: Colour,
        style: StrokeStyle,
    )
        requires
            old(self).wf(),
            forall|k: int|
                0 <= k < centres@.len() ==> square_fits_i32(#[trigger] centres@[k], radius),
        ensures
            final(self).wf(),
            final(self).same_resolution(*old(self)),
            final(self).grid() == all_stamped(old(self).grid(), centres@, radius, colour, style),
    {
        proof {
            assert(centres@.subrange(0, centres@.len() as int) =~= centres@);
        }
        let mut rendered: usize = 0;
        while rendered < centres.len()
            invariant
                self.wf(),
                self.same_resolution(*old(self)),
                rendered <= centres@.len(),
                forall|k: int|
                    0 <= k < centres@.len() ==> square_fits_i32(#[trigger] centres@[k], radius),
                all_stamped(old(self).grid(), centres@, radius, colour, style) == all_stamped(
                    self.grid(),
                    centres@.subrange(rendered as int, centres@.len() as int),
                    radius,
                    colour,
                    style,
                ),
            decreases centres@.len() - rendered,
        {
            let ghost remaining = centres@.subrange(rendered as int, centres@.len() as int);
            let ghost previous_grid = self.grid();
            self.render_point(centres[rendered], radius, colour, style);
            proof {
                assert(remaining[0] == centres@[rendered as int]);
                assert(self.grid() == stamped(
                    previous_grid,
                    remaining[0],
                    radius,
                    colour,
                    style,
                ));
                assert(all_stamped(previous_grid, remaining, radius, colour, style)
                    == all_stamped(self.grid(), remaining.drop_first(), radius, colour, style));
                assert(remaining.drop_first() =~= centres@.subrange(
                    rendered + 1,
                    centres@.len() as int,
                ));
            }
            rendered = rendered + 1;
        }
        proof {
            assert(centres@.subrange(centres@.len() as int, centres@.len() as int)
                =~= Seq::<PixelCoordinate>::empty());
        }
    }
}

/// `p` is scanned strictly before `q` by the row-major rasterization loops.
pub open spec fn scan_before(p: PixelCoordinate, q: PixelCoordinate) -> bool {
    p.x < q.x || (p.x == q.x && p.y < q.y)
}

/// Represents the rendering settings for a Polygon's fill.
pub struct PolygonFillRenderSettings {
    pub colour: Colour,
}

impl PolygonFillRenderSettings {
    /// Creates a new PolygonFillRenderSettings.
    pub fn new(colour: Colour) -> (settings: PolygonFillRenderSettings)
        ensures
            settings.colour == colour,
    {
        PolygonFillRenderSettings { colour }
    }
}

/// Determines if the provided PixelCoordinate lies on the screen.
pub fn within_screen(coordinates: PixelCoordinate, screen: &Screen) -> (r: bool)
    ensures
        r == screen.on_screen(coordinates.x as int, coordinates.y as int),
{
    coordinates.x >= 0 && coordinates.y >= 0 && coordinates.x < screen.horizontal_resolution
        as i32 && coordinates.y < screen.vertical_resolution as i32
}

} // verus!
