//! Stack-based 4-connected region recolouring.
//!
//! `Screen::fill` recolours exactly the connected component — under
//! 4-adjacency, through pixels of the seed's original colour — that is
//! reachable from the seed pixel, and touches nothing else. The fill walks
//! an explicit stack rather than the call stack, so arbitrarily large
//! regions cannot overflow it.

use vstd::prelude::*;

use crate::colours::Colour;
use crate::rendering::PixelCoordinate;
use crate::rendering::Screen;
use crate::rendering::within_screen;

verus! {

/// The mathematical cell a pixel coordinate denotes.
pub open spec fn cell(p: PixelCoordinate) -> (int, int) {
    (p.x as int, p.y as int)
}

/// 4-adjacency of grid cells: equal in one axis, one apart in the other.
pub open spec fn adjacent(p: (int, int), q: (int, int)) -> bool {
    ||| (p.0 == q.0 && (q.1 == p.1 + 1 || q.1 == p.1 - 1))
    ||| (p.1 == q.1 && (q.0 == p.0 + 1 || q.0 == p.0 - 1))
}

/// A walk across `screen`: every cell is on the screen and holds `colour`,
/// and consecutive cells are 4-adjacent.
pub open spec fn is_fill_path(screen: Screen, colour: Colour, path: Seq<(int, int)>) -> bool {
    &&& forall|k: int|
        0 <= k < path.len() ==> screen.on_screen((#[trigger] path[k]).0, path[k].1)
    &&& forall|k: int|
        0 <= k < path.len() ==> screen.pixel((#[trigger] path[k]).0, path[k].1) == colour
    &&& forall|k: int| 0 < k < path.len() ==> adjacent(path[k - 1], #[trigger] path[k])
}

/// `target` belongs to the connected component of `colour`-coloured cells of
/// `screen` that contains `seed`.
pub open spec fn fill_reaches(
    screen: Screen,
    colour: Colour,
    seed: (int, int),
    target: (int, int),
) -> bool {
    exists|path: Seq<(int, int)>|
        {
            &&& is_fill_path(screen, colour, path)
            &&& path.len() > 0
            &&& path.first() == seed
            &&& path.last() == target
        }
}

pub proof fn lemma_reaches_self(screen: Screen, colour: Colour, seed: (int, int))
    requires
        screen.on_screen(seed.0, seed.1),
        screen.pixel(seed.0, seed.1) == colour,
    ensures
        fill_reaches(screen, colour, seed, seed),
{
    let path: Seq<(int, int)> = seq![seed];
    assert(is_fill_path(screen, colour, path));
    assert(path.first() == seed && path.last() == seed);
}

pub proof fn lemma_reaches_step(
    screen: Screen,
    colour: Colour,
    seed: (int, int),
    reached: (int, int),
    next: (int, int),
)
    requires
        fill_reaches(screen, colour, seed, reached),
        adjacent(reached, next),
        screen.on_screen(next.0, next.1),
        screen.pixel(next.0, next.1) == colour,
    ensures
        fill_reaches(screen, colour, seed, next),
{
    let path = choose|path: Seq<(int, int)>|
        {
            &&& is_fill_path(screen, colour, path)
            &&& path.len() > 0
            &&& path.first() == seed
            &&& path.last() == reached
        };
    let extended = path.push(next);
    assert forall|k: int| 0 < k < extended.len() implies adjacent(
        extended[k - 1],
        #[trigger] extended[k],
    ) by {
        if k < path.len() {
            assert(extended[k] == path[k]);
            assert(extended[k - 1] == path[k - 1]);
        } else {
            assert(extended[k] == next);
            assert(extended[k - 1] == path.last());
        }
    }
    assert(is_fill_path(screen, colour, extended));
    assert(extended.first() == seed && extended.last() == next);
}

/// How many cells of `column` hold `colour`.
spec fn matching_in_column(column: Seq<Colour>, colour: Colour) -> nat
    decreases column.len(),
{
    if column.len() == 0 {
        0
    } else {
        matching_in_column(column.drop_last(), colour) + (if column.last() == colour {
            1nat
        } else {
            0nat
        })
    }
}

/// How many cells of `grid` hold `colour`.
spec fn matching_in_grid(grid: Seq<Seq<Colour>>, colour: Colour) -> nat
    decreases grid.len(),
{
    if grid.len() == 0 {
        0
    } else {
        matching_in_grid(grid.drop_last(), colour) + matching_in_column(grid.last(), colour)
    }
}

proof fn lemma_matching_in_column_update(column: Seq<Colour>, y: int, v: Colour, colour: Colour)
    requires
        0 <= y < column.len(),
    ensures
        matching_in_column(column.update(y, v), colour) + (if column[y] == colour {
            1nat
        } else {
            0nat
        }) == matching_in_column(column, colour) + (if v == colour {
            1nat
        } else {
            0nat
        }),
    decreases column.len(),
{
    let updated = column.update(y, v);
    if y == column.len() - 1 {
        assert(updated.drop_last() =~= column.drop_last());
        assert(updated.last() == v);
    } else {
        assert(updated.drop_last() =~= column.drop_last().update(y, v));
        assert(updated.last() == column.last());
        lemma_matching_in_column_update(column.drop_last(), y, v, colour);
    }
}

proof fn lemma_matching_in_grid_update(
    grid: Seq<Seq<Colour>>,
    x: int,
    newcol: Seq<Colour>,
    colour: Colour,
)
    requires
        0 <= x < grid.len(),
    ensures
        matching_in_grid(grid.update(x, newcol), colour) + matching_in_column(grid[x], colour)
            == matching_in_grid(grid, colour) + matching_in_column(newcol, colour),
    decreases grid.len(),
{
    let updated = grid.update(x, newcol);
    if x == grid.len() - 1 {
        assert(updated.drop_last() =~= grid.drop_last());
        assert(updated.last() == newcol);
    } else {
        assert(updated.drop_last() =~= grid.drop_last().update(x, newcol));
        assert(updated.last() == grid.last());
        lemma_matching_in_grid_update(grid.drop_last(), x, newcol, colour);
    }
}

/// The stack holds an entry whose cell is `c`.
spec fn stack_contains(stack: Seq<PixelCoordinate>, c: (int, int)) -> bool {
    exists|k: int| 0 <= k < stack.len() && cell(#[trigger] stack[k]) == c
}

/// Every cell still holding the original colour is neither the seed nor next
/// to a recoloured cell: the walk of the component is over.
spec fn no_frontier_left(
    original: Screen,
    current: Screen,
    initial_colour: Colour,
    seed: (int, int),
) -> bool {
    &&& forall|i: int, j: int|
        original.on_screen(i, j) && #[trigger] current.pixel(i, j) == initial_colour ==> (i, j)
            != seed
    &&& forall|i: int, j: int, a: int, b: int|
        original.on_screen(i, j) && #[trigger] current.pixel(i, j) == initial_colour
            && original.on_screen(a, b) && #[trigger] current.pixel(a, b) != original.pixel(a, b)
            ==> !adjacent((a, b), (i, j))
}

proof fn lemma_component_recoloured(
    original: Screen,
    current: Screen,
    initial_colour: Colour,
    desired_colour: Colour,
    seed: (int, int),
    path: Seq<(int, int)>,
)
    requires
        initial_colour != desired_colour,
        is_fill_path(original, initial_colour, path),
        path.len() > 0,
        path.first() == seed,
        forall|i: int, j: int|
            original.on_screen(i, j) ==> #[trigger] current.pixel(i, j) == original.pixel(i, j)
                || current.pixel(i, j) == desired_colour,
        no_frontier_left(original, current, initial_colour, seed),
    ensures
        current.pixel(path.last().0, path.last().1) == desired_colour,
    decreases path.len(),
{
    let last = path.last();
    assert(original.on_screen(last.0, last.1));
    assert(original.pixel(last.0, last.1) == initial_colour);
    if path.len() == 1 {
        assert(last == seed);
        assert(current.pixel(last.0, last.1) != initial_colour);
    } else {
        let shorter = path.drop_last();
        assert(is_fill_path(original, initial_colour, shorter));
        lemma_component_recoloured(
            original,
            current,
            initial_colour,
            desired_colour,
            seed,
            shorter,
        );
        let previous = shorter.last();
        assert(adjacent(previous, last));
        assert(current.pixel(previous.0, previous.1) == desired_colour);
        assert(original.pixel(previous.0, previous.1) == initial_colour);
        assert(current.pixel(previous.0, previous.1) != original.pixel(previous.0, previous.1));
        assert(current.pixel(last.0, last.1) != initial_colour);
    }
}

impl Screen {
    /// Fills a region of a screen which has a solid colour with another
    /// solid colour.
    ///
    /// If the seed pixel already holds `desired_colour` the screen comes
    /// back unchanged. Otherwise exactly the pixels 4-connected to the seed
    /// through its original colour are recoloured to `desired_colour`;
    /// pixels of that colour that are not connected to the seed keep it.
    pub fn fill(self, starting_location: PixelCoordinate, desired_colour: Colour) -> (result:
        Screen)
        requires
            self.wf(),
            self.on_screen(starting_location.x as int, starting_location.y as int),
        ensures
            result.wf(),
            result.same_resolution(self),
            self.pixel(starting_location.x as int, starting_location.y as int) == desired_colour
                ==> result.grid() == self.grid(),
            self.pixel(starting_location.x as int, starting_location.y as int) != desired_colour
                ==> forall|i: int, j: int|
                self.on_screen(i, j) ==> #[trigger] result.pixel(i, j) == (if fill_reaches(
                    self,
                    self.pixel(starting_location.x as int, starting_location.y as int),
                    cell(starting_location),
                    (i, j),
                ) {
                    desired_colour
                } else {
                    self.pixel(i, j)
                }),
    {
        let ghost original = self;
        let ghost seed = cell(starting_location);
        let mut screen = self;

        let initial_colour = screen.get_pixel(
            starting_location.x as usize,
            starting_location.y as usize,
        );

        if initial_colour != desired_colour {
            let mut current_checks: Vec<PixelCoordinate> = Vec::new();
            current_checks.push(starting_location);
            proof {
                lemma_reaches_self(original, initial_colour, seed);
                assert(cell(current_checks@[0]) == seed);
                assert(stack_contains(current_checks@, seed));
            }

            while current_checks.len() > 0
                invariant
                    original.wf(),
                    screen.wf(),
                    screen.same_resolution(original),
                    initial_colour != desired_colour,
                    original.on_screen(seed.0, seed.1),
                    original.pixel(seed.0, seed.1) == initial_colour,
                    seed == cell(starting_location),
                    // every change so far recoloured a reachable cell of the
                    // original colour to the desired colour
                    forall|i: int, j: int|
                        original.on_screen(i, j) ==> #[trigger] screen.pixel(i, j)
                            == original.pixel(i, j) || (original.pixel(i, j) == initial_colour
                            && screen.pixel(i, j) == desired_colour && fill_reaches(
                            original,
                            initial_colour,
                            seed,
                            (i, j),
                        )),
                    // stack entries that sit on an unspoiled cell of the
                    // original colour are reachable
                    forall|k: int|
                        0 <= k < current_checks@.len() ==> (original.on_screen(
                            cell(#[trigger] current_checks@[k]).0,
                            cell(current_checks@[k]).1,
                        ) && original.pixel(
                            cell(current_checks@[k]).0,
                            cell(current_checks@[k]).1,
                        ) == initial_colour ==> fill_reaches(
                            original,
                            initial_colour,
                            seed,
                            cell(current_checks@[k]),
                        )),
                    // the frontier is always on the stack: any cell of the
                    // original colour that is the seed or borders a
                    // recoloured cell has a stack entry
                    forall|i: int, j: int|
                        original.on_screen(i, j) && #[trigger] screen.pixel(i, j)
                            == initial_colour && ((i, j) == seed || exists|a: int, b: int|
                            original.on_screen(a, b) && #[trigger] screen.pixel(a, b)
                                != original.pixel(a, b) && adjacent((a, b), (i, j))) ==>
                            stack_contains(current_checks@, (i, j)),
                decreases matching_in_grid(screen.grid(), initial_colour), current_checks@.len(),
            {
                let current = current_checks[current_checks.len() - 1];
                let is_on_screen = within_screen(current, &screen);
                let mut is_original_colour = false;
                if is_on_screen {
                    is_original_colour = screen.get_pixel(
                        current.x as usize,
                        current.y as usize,
                    ) == initial_colour;
                }

                let ghost previous_screen = screen;
                let ghost previous_stack = current_checks@;

                if is_on_screen && is_original_colour {
                    proof {
                        // the cell is unspoiled, so it holds the original
                        // colour in the original screen and is reachable
                        assert(original.pixel(cell(current).0, cell(current).1)
                            == initial_colour);
                        assert(fill_reaches(original, initial_colour, seed, cell(current)));
                    }
                    screen.set_pixel(current.x as usize, current.y as usize, desired_colour);
                    proof {
                        let g = previous_screen.grid();
                        lemma_matching_in_column_update(
                            g[current.x as int],
                            current.y as int,
                            desired_colour,
                            initial_colour,
                        );
                        lemma_matching_in_grid_update(
                            g,
                            current.x as int,
                            g[current.x as int].update(current.y as int, desired_colour),
                            initial_colour,
                        );
                        assert(matching_in_grid(screen.grid(), initial_colour) + 1
                            == matching_in_grid(previous_screen.grid(), initial_colour));
                    }

                    current_checks.pop();
                    current_checks.push(PixelCoordinate::new(current.x, current.y + 1));
                    current_checks.push(PixelCoordinate::new(current.x + 1, current.y));
                    current_checks.push(PixelCoordinate::new(current.x, current.y - 1));
                    current_checks.push(PixelCoordinate::new(current.x - 1, current.y));

                    proof {
                        // stack soundness: old entries kept their property,
                        // and the four new neighbours are reachable through
                        // the freshly recoloured cell
                        assert forall|k: int|
                            0 <= k < current_checks@.len() && original.on_screen(
                                cell(#[trigger] current_checks@[k]).0,
                                cell(current_checks@[k]).1,
                            ) && original.pixel(
                                cell(current_checks@[k]).0,
                                cell(current_checks@[k]).1,
                            ) == initial_colour implies fill_reaches(
                            original,
                            initial_colour,
                            seed,
                            cell(current_checks@[k]),
                        ) by {
                            if k < previous_stack.len() - 1 {
                                assert(current_checks@[k] == previous_stack[k]);
                            } else {
                                let n = cell(current_checks@[k]);
                                assert(adjacent(cell(current), n));
                                lemma_reaches_step(
                                    original,
                                    initial_colour,
                                    seed,
                                    cell(current),
                                    n,
                                );
                            }
                        }
                        // the frontier invariant: cells bordering the newly
                        // recoloured cell were just pushed; all others keep
                        // their old witness, which was not the popped entry
                        assert forall|i: int, j: int|
                            original.on_screen(i, j) && #[trigger] screen.pixel(i, j)
                                == initial_colour && ((i, j) == seed || exists|a: int, b: int|
                                original.on_screen(a, b) && #[trigger] screen.pixel(a, b)
                                    != original.pixel(a, b) && adjacent((a, b), (i, j)))
                            implies stack_contains(current_checks@, (i, j)) by {
                            let len = current_checks@.len();
                            if adjacent(cell(current), (i, j)) {
                                assert(cell(current_checks@[len - 4]) == (
                                cell(current).0,
                                cell(current).1 + 1,
                                ));
                                assert(cell(current_checks@[len - 3]) == (
                                cell(current).0 + 1,
                                cell(current).1,
                                ));
                                assert(cell(current_checks@[len - 2]) == (
                                cell(current).0,
                                cell(current).1 - 1,
                                ));
                                assert(cell(current_checks@[len - 1]) == (
                                cell(current).0 - 1,
                                cell(current).1,
                                ));
                            } else {
                                assert((i, j) != cell(current));
                                assert(previous_screen.pixel(i, j) == initial_colour);
                                if (i, j) == seed {
                                    assert(stack_contains(previous_stack, (i, j)));
                                } else {
                                    let (a, b) = choose|a: int, b: int|
                                        original.on_screen(a, b) && #[trigger] screen.pixel(a, b)
                                            != original.pixel(a, b) && adjacent((a, b), (i, j));
                                    assert(previous_screen.pixel(a, b) != original.pixel(a, b));
                                    assert(stack_contains(previous_stack, (i, j)));
                                }
                                let k = choose|k: int|
                                    0 <= k < previous_stack.len() && cell(
                                        #[trigger] previous_stack[k],
                                    ) == (i, j);
                                assert(k != previous_stack.len() - 1);
                                assert(current_checks@[k] == previous_stack[k]);
                            }
                        }
                    }
                } else {
                    current_checks.pop();
                    proof {
                        assert forall|i: int, j: int|
                            original.on_screen(i, j) && #[trigger] screen.pixel(i, j)
                                == initial_colour && ((i, j) == seed || exists|a: int, b: int|
                                original.on_screen(a, b) && #[trigger] screen.pixel(a, b)
                                    != original.pixel(a, b) && adjacent((a, b), (i, j)))
                            implies stack_contains(current_checks@, (i, j)) by {
                            assert(stack_contains(previous_stack, (i, j)));
                            let k = choose|k: int|
                                0 <= k < previous_stack.len() && cell(
                                    #[trigger] previous_stack[k],
                                ) == (i, j);
                            if k == previous_stack.len() - 1 {
                                assert(cell(current) == (i, j));
                                assert(false);
                            } else {
                                assert(current_checks@[k] == previous_stack[k]);
                            }
                        }
                    }
                }
            }

            proof {
                assert(no_frontier_left(original, screen, initial_colour, seed));
                assert forall|i: int, j: int|
                    original.on_screen(i, j) && fill_reaches(
                        original,
                        initial_colour,
                        seed,
                        (i, j),
                    ) implies #[trigger] screen.pixel(i, j) == desired_colour by {
                    let path = choose|path: Seq<(int, int)>|
                        {
                            &&& is_fill_path(original, initial_colour, path)
                            &&& path.len() > 0
                            &&& path.first() == seed
                            &&& path.last() == (i, j)
                        };
                    lemma_component_recoloured(
                        original,
                        screen,
                        initial_colour,
                        desired_colour,
                        seed,
                        path,
                    );
                }
            }
        }

        screen
    }
}

} // verus!
