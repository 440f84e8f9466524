use vstd::prelude::*;

use grid::Grid;

use crate::spot::{fresh_spot, BoardSpot};
use crate::enums::Fertility;

verus! {

#[verifier::external_type_specification]
#[verifier::external_body]
#[verifier::reject_recursive_types(T)]
pub struct ExGrid<T>(Grid<T>);

/// The spots of a board grid, row by row.
pub uninterp spec fn spots_of(g: Grid<BoardSpot>) -> Seq<Seq<BoardSpot>>;

/// The flags of a boolean grid, row by row.
pub uninterp spec fn flags_of(g: Grid<bool>) -> Seq<Seq<bool>>;

/// A rectangle of `rows` rows of `cols` values each.
pub open spec fn is_rect<T>(s: Seq<Seq<T>>, rows: int, cols: int) -> bool {
    s.len() == rows && forall|i: int| 0 <= i < rows ==> #[trigger] s[i].len() == cols
}

/// Relies on grid's `Grid::size`: the number of rows and of columns, whose
/// product never exceeds `usize::MAX`.
#[verifier::external_body]
pub(crate) fn spot_dims(g: &Grid<BoardSpot>) -> (r: (usize, usize))
    ensures
        spots_of(*g).len() > 0 ==> is_rect(spots_of(*g), r.0 as int, r.1 as int),
        spots_of(*g).len() == r.0,
        r.0 * r.1 <= usize::MAX,
{
    g.size()
}

/// Relies on grid's `Index<(usize, usize)>`: the spot at a row and column
/// inside the grid.
#[verifier::external_body]
pub(crate) fn spot_at(g: &Grid<BoardSpot>, row: usize, col: usize) -> (r: &BoardSpot)
    requires
        0 <= row < spots_of(*g).len(),
        0 <= col < spots_of(*g)[row as int].len(),
    ensures
        *r == spots_of(*g)[row as int][col as int],
{
    &g[(row, col)]
}

/// Relies on grid's `IndexMut<(usize, usize)>`: replaces the spot at a row
/// and column inside the grid.
#[verifier::external_body]
pub(crate) fn set_spot(g: &mut Grid<BoardSpot>, row: usize, col: usize, v: BoardSpot)
    requires
        0 <= row < spots_of(*old(g)).len(),
        0 <= col < spots_of(*old(g))[row as int].len(),
    ensures
        spots_of(*final(g)) == spots_of(*old(g)).update(
            row as int,
            spots_of(*old(g))[row as int].update(col as int, v),
        ),
{
    g[(row, col)] = v;
}

/// Relies on grid's `Grid::fill`: every spot becomes a copy of `v`.
#[verifier::external_body]
pub(crate) fn fill_spots(g: &mut Grid<BoardSpot>, v: BoardSpot)
    ensures
        spots_of(*final(g)).len() == spots_of(*old(g)).len(),
        forall|i: int|
            0 <= i < spots_of(*old(g)).len() ==> #[trigger] spots_of(*final(g))[i].len()
                == spots_of(*old(g))[i].len(),
        forall|i: int, j: int|
            0 <= i < spots_of(*old(g)).len() && 0 <= j < spots_of(*old(g))[i].len()
                ==> #[trigger] spots_of(*final(g))[i][j] == v,
{
    g.fill(v);
}

/// Relies on grid's `Grid::new`: a grid of the given size whose spots are all
/// `BoardSpot::default()`, an empty one-leaf spot.
#[verifier::external_body]
pub(crate) fn new_spots(rows: usize, cols: usize) -> (r: Grid<BoardSpot>)
    requires
        rows >= 1,
        cols >= 1,
        rows * cols <= usize::MAX,
    ensures
        spots_of(r) == Seq::new(rows as nat, |i: int| Seq::new(cols as nat, |j: int| fresh_spot(Fertility::OneLeaf))),
{
    Grid::new(rows, cols)
}

/// Relies on grid's `Grid::new`: a grid of the given size whose flags are all
/// `bool::default()`, that is `false`.
#[verifier::external_body]
pub(crate) fn new_flags(rows: usize, cols: usize) -> (r: Grid<bool>)
    requires
        rows >= 1,
        cols >= 1,
        rows * cols <= usize::MAX,
    ensures
        flags_of(r) == Seq::new(rows as nat, |i: int| Seq::new(cols as nat, |j: int| false)),
{
    Grid::new(rows, cols)
}

/// Relies on grid's `IndexMut<(usize, usize)>`: replaces the flag at a row
/// and column inside the grid.
#[verifier::external_body]
pub(crate) fn set_flag(g: &mut Grid<bool>, row: usize, col: usize, v: bool)
    requires
        0 <= row < flags_of(*old(g)).len(),
        0 <= col < flags_of(*old(g))[row as int].len(),
    ensures
        flags_of(*final(g)) == flags_of(*old(g)).update(
            row as int,
            flags_of(*old(g))[row as int].update(col as int, v),
        ),
{
    g[(row, col)] = v;
}

} // verus!
