use vstd::prelude::*;

use grid::Grid;

use crate::cells::{fill_spots, is_rect, new_spots, set_spot, spot_at, spots_of};
use crate::enums::{Fertility, MoonDirection, SunDirection};
use crate::geometry::{
    at, combine_two_vecs, ray_cell, count_up, fill_new_vec, is_entry, merge_two_vecs, union_keep,
    lemma_union_keep,
};
use crate::sky::{placed, Moon, Sun};
use crate::spot::{fresh_spot, BoardSpot};

verus! {

/// The whole game board: a square grid of spots, the sun and the moon.
#[derive(Debug, PartialEq, Eq)]
pub struct Board {
    /// The spots of the board, row by row.
    pub board: Grid<BoardSpot>,
    /// The sun.
    pub sun: Sun,
    /// The moon.
    pub moon: Moon,
}

/// The step that sunlight takes on each cell for a heading, as
/// (row change, column change); row numbers grow southwards.
pub open spec fn sun_step(d: SunDirection) -> (i8, i8) {
    match d {
        SunDirection::North => (-1i8, 0i8),
        SunDirection::Northeast => (-1i8, 1i8),
        SunDirection::East => (0i8, 1i8),
        SunDirection::Southeast => (1i8, 1i8),
        SunDirection::South => (1i8, 0i8),
        SunDirection::Southwest => (1i8, -1i8),
        SunDirection::West => (0i8, -1i8),
        SunDirection::Northwest => (-1i8, -1i8),
    }
}

/// The two rays of moonlight: from the moon's first cell along the first
/// step, and from its second cell along the second.
pub open spec fn moon_rays(m: Moon) -> ((usize, usize), (i8, i8), (usize, usize), (i8, i8)) {
    let (d1, d2) = match m.direction {
        MoonDirection::North => ((-1i8, -1i8), (-1i8, 1i8)),
        MoonDirection::East => ((-1i8, 1i8), (1i8, 1i8)),
        MoonDirection::South => ((1i8, 1i8), (1i8, -1i8)),
        MoonDirection::West => ((1i8, -1i8), (-1i8, -1i8)),
    };
    ((m.row1, m.col1), d1, (m.row2, m.col2), d2)
}

/// Fertility of a cell of the starting board of side 7: one leaf on the
/// outer ring, one more for each ring further in.
pub open spec fn starting_fertility(r: int, c: int) -> Fertility {
    let ring = vstd::math::min(vstd::math::min(r, c), vstd::math::min(6 - r, 6 - c));
    if ring <= 0 {
        Fertility::OneLeaf
    } else if ring == 1 {
        Fertility::TwoLeaf
    } else if ring == 2 {
        Fertility::ThreeLeaf
    } else {
        Fertility::FourLeaf
    }
}

impl Board {
    /// The spots of the board, row by row.
    pub open spec fn spots(self) -> Seq<Seq<BoardSpot>> {
        spots_of(self.board)
    }

    /// Number of rows, which is also the number of columns.
    pub open spec fn side(self) -> int {
        self.spots().len() as int
    }

    /// The board is a non-empty square.
    pub open spec fn is_square(self) -> bool {
        self.side() >= 1 && is_rect(self.spots(), self.side(), self.side())
    }

    /// The board is square and the moon goes round it.
    pub open spec fn wf(self) -> bool {
        self.is_square() && self.moon.wf() && self.moon.grid_side_length == self.side()
    }

    /// Fills a 7 by 7 board for the start of a game: every spot empty, with
    /// one leaf on the outer ring, two on the next ring, three on the next,
    /// and four at the centre.
    pub fn initialize_board(&mut self)
        requires
            old(self).is_square(),
            old(self).side() == 7,
        ensures
            final(self).is_square(),
            final(self).side() == 7,
            forall|r: int, c: int|
                0 <= r < 7 && 0 <= c < 7 ==> #[trigger] final(self).spots()[r][c] == fresh_spot(
                    starting_fertility(r, c),
                ),
            final(self).sun == old(self).sun,
            final(self).moon == old(self).moon,
    {
        let one_leaf = BoardSpot::new(Fertility::OneLeaf);
        let two_leaf = BoardSpot::new(Fertility::TwoLeaf);
        let three_leaf = BoardSpot::new(Fertility::ThreeLeaf);
        let four_leaf = BoardSpot::new(Fertility::FourLeaf);

        fill_spots(&mut self.board, four_leaf);
        overwrite_row(&mut self.board, 2, three_leaf);
        overwrite_row(&mut self.board, 4, three_leaf);
        overwrite_col(&mut self.board, 2, three_leaf);
        overwrite_col(&mut self.board, 4, three_leaf);
        overwrite_row(&mut self.board, 1, two_leaf);
        overwrite_row(&mut self.board, 5, two_leaf);
        overwrite_col(&mut self.board, 1, two_leaf);
        overwrite_col(&mut self.board, 5, two_leaf);
        overwrite_row(&mut self.board, 0, one_leaf);
        overwrite_row(&mut self.board, 6, one_leaf);
        overwrite_col(&mut self.board, 0, one_leaf);
        overwrite_col(&mut self.board, 6, one_leaf);
    }

    /// The spot at a cell of the board.
    pub fn spot(&self, row: usize, col: usize) -> (r: BoardSpot)
        requires
            self.is_square(),
            row < self.side(),
            col < self.side(),
        ensures
            r == self.spots()[row as int][col as int],
    {
        *spot_at(&self.board, row, col)
    }

    /// Puts `spot` at a cell of the board; every other cell, the sun and
    /// the moon stay as they were.
    pub fn place(&mut self, row: usize, col: usize, spot: BoardSpot)
        requires
            old(self).is_square(),
            row < old(self).side(),
            col < old(self).side(),
        ensures
            final(self).spots() == old(self).spots().update(
                row as int,
                old(self).spots()[row as int].update(col as int, spot),
            ),
            final(self).is_square(),
            final(self).side() == old(self).side(),
            final(self).sun == old(self).sun,
            final(self).moon == old(self).moon,
    {
        set_spot(&mut self.board, row, col, spot);
        proof {
            let n = old(self).side();
            assert forall|i: int| 0 <= i < n implies #[trigger] self.spots()[i].len() == n by {
                if i != row {
                    assert(self.spots()[i] == old(self).spots()[i]);
                }
            }
        }
    }

    /// Moves the sun and the moon on to the next light phase.
    pub fn pass_sun_and_moon(&mut self)
        requires
            old(self).moon.wf(),
        ensures
            final(self).sun == old(self).sun.advanced(),
            final(self).moon == old(self).moon.advanced(),
            final(self).moon.wf(),
            final(self).spots() == old(self).spots(),
    {
        self.sun = self.sun.next();
        self.moon = self.moon.next();
    }

    /// Where sunlight enters the board and the step it takes: every entry
    /// cell once. A cardinal heading enters along one edge, a diagonal one
    /// along two.
    pub(crate) fn sun_grid_starts_directions(direction: SunDirection, rows: usize, cols: usize) -> (r: (
        Vec<(usize, usize)>,
        (i8, i8),
    ))
        requires
            rows >= 1,
            cols >= 1,
        ensures
            r.1 == sun_step(direction),
            forall|p: (usize, usize)|
                r.0@.contains(p) <==> is_entry(at(p), r.1, rows as int, cols as int),
            r.0@.no_duplicates(),
    {
        // bottom row
        let starts_north = merge_two_vecs(&fill_new_vec(cols, rows - 1), &count_up(cols));
        // leftmost column
        let starts_east = merge_two_vecs(&count_up(rows), &fill_new_vec(rows, 0));
        // top row
        let starts_south = merge_two_vecs(&fill_new_vec(cols, 0), &count_up(cols));
        // rightmost column
        let starts_west = merge_two_vecs(&count_up(rows), &fill_new_vec(rows, cols - 1));
        proof {
            assert forall|p: (usize, usize)|
                starts_north@.contains(p) <==> (p.0 == rows - 1 && p.1 < cols) by {
                if p.0 == rows - 1 && p.1 < cols {
                    assert(starts_north@[p.1 as int] == p);
                }
            }
            assert forall|p: (usize, usize)|
                starts_south@.contains(p) <==> (p.0 == 0 && p.1 < cols) by {
                if p.0 == 0 && p.1 < cols {
                    assert(starts_south@[p.1 as int] == p);
                }
            }
            assert forall|p: (usize, usize)|
                starts_east@.contains(p) <==> (p.1 == 0 && p.0 < rows) by {
                if p.1 == 0 && p.0 < rows {
                    assert(starts_east@[p.0 as int] == p);
                }
            }
            assert forall|p: (usize, usize)|
                starts_west@.contains(p) <==> (p.1 == cols - 1 && p.0 < rows) by {
                if p.1 == cols - 1 && p.0 < rows {
                    assert(starts_west@[p.0 as int] == p);
                }
            }
            lemma_union_keep(starts_north@, starts_east@);
            lemma_union_keep(starts_south@, starts_east@);
            lemma_union_keep(starts_south@, starts_west@);
            lemma_union_keep(starts_north@, starts_west@);
        }
        let r: (Vec<(usize, usize)>, (i8, i8)) = match direction {
            SunDirection::North => (starts_north, (-1, 0)),
            SunDirection::Northeast => (combine_two_vecs(&starts_north, &starts_east, true), (-1, 1)),
            SunDirection::East => (starts_east, (0, 1)),
            SunDirection::Southeast => (combine_two_vecs(&starts_south, &starts_east, true), (1, 1)),
            SunDirection::South => (starts_south, (1, 0)),
            SunDirection::Southwest => (combine_two_vecs(&starts_south, &starts_west, true), (1, -1)),
            SunDirection::West => (starts_west, (0, -1)),
            SunDirection::Northwest => (combine_two_vecs(&starts_north, &starts_west, true), (-1, -1)),
        };
        proof {
            assert forall|p: (usize, usize)|
                r.0@.contains(p) <==> is_entry(at(p), r.1, rows as int, cols as int) by {
                let q = at(p);
                let back = ray_cell(q, r.1, -1);
                assert(back == (q.0 - r.1.0, q.1 - r.1.1));
                let on_bottom = p.0 == rows - 1 && p.1 < cols;
                let on_top = p.0 == 0 && p.1 < cols;
                let on_left = p.1 == 0 && p.0 < rows;
                let on_right = p.1 == cols - 1 && p.0 < rows;
                match direction {
                    SunDirection::North => assert(r.0@.contains(p) <==> on_bottom),
                    SunDirection::Northeast => {
                        assert(r.0@ == union_keep(starts_north@, starts_east@));
                        assert(starts_north@.contains(p) <==> on_bottom);
                        assert(starts_east@.contains(p) <==> on_left);
                        assert(r.0@.contains(p) <==> (on_bottom || on_left));
                    },
                    SunDirection::East => assert(r.0@.contains(p) <==> on_left),
                    SunDirection::Southeast => {
                        assert(r.0@ == union_keep(starts_south@, starts_east@));
                        assert(starts_south@.contains(p) <==> on_top);
                        assert(starts_east@.contains(p) <==> on_left);
                        assert(r.0@.contains(p) <==> (on_top || on_left));
                    },
                    SunDirection::South => assert(r.0@.contains(p) <==> on_top),
                    SunDirection::Southwest => {
                        assert(r.0@ == union_keep(starts_south@, starts_west@));
                        assert(starts_south@.contains(p) <==> on_top);
                        assert(starts_west@.contains(p) <==> on_right);
                        assert(r.0@.contains(p) <==> (on_top || on_right));
                    },
                    SunDirection::West => assert(r.0@.contains(p) <==> on_right),
                    SunDirection::Northwest => {
                        assert(r.0@ == union_keep(starts_north@, starts_west@));
                        assert(starts_north@.contains(p) <==> on_bottom);
                        assert(starts_west@.contains(p) <==> on_right);
                        assert(r.0@.contains(p) <==> (on_bottom || on_right));
                    },
                }
            }
        }
        r
    }

    /// The moon's two rays: a start cell and a diagonal step for each.
    pub(crate) fn moon_grid_starts_directions(moon: &Moon) -> (r: ((usize, usize), (i8, i8), (usize, usize), (i8, i8)))
        ensures
            r == moon_rays(*moon),
    {
        let coord_1_start: (usize, usize) = (moon.row1, moon.col1);
        let coord_2_start: (usize, usize) = (moon.row2, moon.col2);
        let (direction_1, direction_2): ((i8, i8), (i8, i8)) = match moon.direction {
            MoonDirection::North => ((-1, -1), (-1, 1)),
            MoonDirection::East => ((-1, 1), (1, 1)),
            MoonDirection::South => ((1, 1), (1, -1)),
            MoonDirection::West => ((1, -1), (-1, -1)),
        };
        (coord_1_start, direction_1, coord_2_start, direction_2)
    }
}

/// Replaces every spot of row `row` with `v`.
fn overwrite_row(g: &mut Grid<BoardSpot>, row: usize, v: BoardSpot)
    requires
        is_rect(spots_of(*old(g)), 7, 7),
        row < 7,
    ensures
        is_rect(spots_of(*final(g)), 7, 7),
        forall|i: int, j: int|
            0 <= i < 7 && 0 <= j < 7 ==> #[trigger] spots_of(*final(g))[i][j] == if i == row {
                v
            } else {
                spots_of(*old(g))[i][j]
            },
{
    for c in 0..7usize
        invariant
            row < 7,
            is_rect(spots_of(*g), 7, 7),
            forall|i: int, j: int|
                0 <= i < 7 && 0 <= j < 7 ==> #[trigger] spots_of(*g)[i][j] == if i == row && j
                    < c {
                    v
                } else {
                    spots_of(*old(g))[i][j]
                },
    {
        set_spot(g, row, c, v);
    }
}

/// Replaces every spot of column `col` with `v`.
fn overwrite_col(g: &mut Grid<BoardSpot>, col: usize, v: BoardSpot)
    requires
        is_rect(spots_of(*old(g)), 7, 7),
        col < 7,
    ensures
        is_rect(spots_of(*final(g)), 7, 7),
        forall|i: int, j: int|
            0 <= i < 7 && 0 <= j < 7 ==> #[trigger] spots_of(*final(g))[i][j] == if j == col {
                v
            } else {
                spots_of(*old(g))[i][j]
            },
{
    for r in 0..7usize
        invariant
            col < 7,
            is_rect(spots_of(*g), 7, 7),
            forall|i: int, j: int|
                0 <= i < 7 && 0 <= j < 7 ==> #[trigger] spots_of(*g)[i][j] == if j == col && i
                    < r {
                    v
                } else {
                    spots_of(*old(g))[i][j]
                },
    {
        set_spot(g, r, col, v);
    }
}

impl Default for Board {
    fn default() -> (r: Board)
        ensures
            r.wf(),
            r.side() == 7,
            forall|i: int, j: int|
                0 <= i < 7 && 0 <= j < 7 ==> #[trigger] r.spots()[i][j] == fresh_spot(
                    Fertility::OneLeaf,
                ),
            r.sun.direction == SunDirection::Northeast,
            r.moon == placed(7, 0, false),
    {
        let b = Board { board: new_spots(7, 7), sun: Sun::default(), moon: Moon::new(7).unwrap() };
        b
    }
}

} // verus!
