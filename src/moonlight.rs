use vstd::prelude::*;
use vstd::set_lib::{lemma_int_range, lemma_len_subset, set_int_range};

use grid::Grid;

use crate::board::{moon_rays, Board};
use crate::cells::{flags_of, is_rect, new_flags, set_flag, spot_at, spot_dims};
use crate::enums::PieceType;
use crate::geometry::{
    at, contains_coord, get_adjacent_coords, lemma_push_contains, inside, leaves_board, neighbour, ray_cell, step,
    unit_step,
};
use crate::shadow::spot_in;
use crate::sky::Moon;
use crate::spot::BoardSpot;

verus! {

/// `q` is one of the eight cells around `p` on a board of side `n`.
pub open spec fn touching(p: (int, int), q: (int, int), n: int) -> bool {
    neighbour(p, q, n - 1, n - 1, true)
}

/// The cell `p` holds a moonstone.
pub open spec fn is_stone(spots: Seq<Seq<BoardSpot>>, p: (int, int)) -> bool {
    spot_in(spots, p).piece_type == PieceType::Moonstone
}

/// `path` is a chain of moonstones on the board, each touching the next.
pub open spec fn stone_chain(spots: Seq<Seq<BoardSpot>>, path: Seq<(int, int)>) -> bool {
    let n = spots.len() as int;
    &&& path.len() >= 1
    &&& forall|i: int| 0 <= i < path.len() ==> inside(#[trigger] path[i], n, n) && is_stone(spots, path[i])
    &&& forall|i: int| 0 <= i < path.len() - 1 ==> touching(#[trigger] path[i], path[i + 1], n)
}

/// Moonlight that reaches the moonstone at `m` is relayed to `x`: `x`
/// touches a moonstone that a chain of moonstones joins to `m`.
pub open spec fn relayed(spots: Seq<Seq<BoardSpot>>, m: (int, int), x: (int, int)) -> bool {
    exists|path: Seq<(int, int)>|
        #[trigger] stone_chain(spots, path) && path[0] == m && touching(path.last(), x, spots.len() as int)
}

/// The ray from `s` along `d` gets as far as its cell `t`: every cell up to
/// `t` is on the board and none of them holds the Great Elder Tree.
pub open spec fn ray_open(spots: Seq<Seq<BoardSpot>>, s: (int, int), d: (i8, i8), t: int) -> bool {
    forall|i: int|
        #![trigger ray_cell(s, d, i)]
        0 <= i <= t ==> inside(ray_cell(s, d, i), spots.len() as int, spots.len() as int)
            && spot_in(spots, ray_cell(s, d, i)).piece_type != PieceType::GreatElderTree
}

/// What the ray lights from its cell `t`: that cell itself, or, where it is
/// a moonstone, whatever the moonstone relays to.
pub open spec fn ray_hit(spots: Seq<Seq<BoardSpot>>, s: (int, int), d: (i8, i8), t: int, x: (int, int)) -> bool {
    if is_stone(spots, ray_cell(s, d, t)) {
        relayed(spots, ray_cell(s, d, t), x)
    } else {
        ray_cell(s, d, t) == x
    }
}

/// The ray from `s` along `d` lights the cell `x`.
pub open spec fn ray_lights(spots: Seq<Seq<BoardSpot>>, s: (int, int), d: (i8, i8), x: (int, int)) -> bool {
    exists|t: int| 0 <= t && #[trigger] ray_open(spots, s, d, t) && ray_hit(spots, s, d, t, x)
}

/// The cell `x` is lit by one of the moon's two rays.
pub open spec fn moon_lit_at(spots: Seq<Seq<BoardSpot>>, m: Moon, x: (int, int)) -> bool {
    let (s1, d1, s2, d2) = moon_rays(m);
    ray_lights(spots, at(s1), d1, x) || ray_lights(spots, at(s2), d2, x)
}

/// The moonlight of every cell of a square board.
pub open spec fn moonlight_map(spots: Seq<Seq<BoardSpot>>, m: Moon) -> Seq<Seq<bool>> {
    Seq::new(spots.len(), |r: int| Seq::new(spots.len(), |c: int| moon_lit_at(spots, m, (r, c))))
}

/// The cell with the integer coordinates of `p`.
pub open spec fn cell_of(p: (int, int)) -> (usize, usize) {
    (p.0 as usize, p.1 as usize)
}

/// A moonstone that relayed light reaches passes it on to its neighbours.
proof fn lemma_relay_extend(spots: Seq<Seq<BoardSpot>>, m: (int, int), y: (int, int), z: (int, int))
    requires
        relayed(spots, m, y),
        inside(y, spots.len() as int, spots.len() as int),
        is_stone(spots, y),
        touching(y, z, spots.len() as int),
    ensures
        relayed(spots, m, z),
{
    let n = spots.len() as int;
    let path = choose|path: Seq<(int, int)>|
        #[trigger] stone_chain(spots, path) && path[0] == m && touching(path.last(), y, n);
    let longer = path.push(y);
    assert forall|i: int| 0 <= i < longer.len() implies inside(#[trigger] longer[i], n, n) && is_stone(spots, longer[i]) by {
        if i < path.len() {
            assert(longer[i] == path[i]);
        }
    }
    assert forall|i: int| 0 <= i < longer.len() - 1 implies touching(#[trigger] longer[i], longer[i + 1], n) by {
        if i < path.len() - 1 {
            assert(longer[i] == path[i] && longer[i + 1] == path[i + 1]);
        } else {
            assert(longer[i] == path.last());
        }
    }
    assert(stone_chain(spots, longer));
    assert(longer[0] == m);
}

/// Every cell of a moonstone chain from `m` but the first is in a queue
/// that holds the neighbours of `m` and of each of its moonstones.
proof fn lemma_chain_queued(
    spots: Seq<Seq<BoardSpot>>,
    m: (int, int),
    q: Seq<(usize, usize)>,
    path: Seq<(int, int)>,
    j: int,
)
    requires
        forall|p: (usize, usize)|
            #![trigger touching(m, at(p), spots.len() as int)]
            touching(m, at(p), spots.len() as int) ==> q.contains(p),
        forall|k: int, p: (usize, usize)|
            #![trigger touching(at(q[k]), at(p), spots.len() as int)]
            0 <= k < q.len() && is_stone(spots, at(q[k])) && touching(at(q[k]), at(p), spots.len() as int)
                ==> q.contains(p),
        spots.len() <= usize::MAX,
        stone_chain(spots, path),
        path[0] == m,
        1 <= j < path.len(),
    ensures
        q.contains(cell_of(path[j])),
    decreases j,
{
    let n = spots.len() as int;
    assert(touching(path[j - 1], path[j], n));
    assert(inside(path[j], n, n));
    assert(at(cell_of(path[j])) == path[j]);
    if j == 1 {
        assert(touching(m, at(cell_of(path[1])), n));
    } else {
        lemma_chain_queued(spots, m, q, path, j - 1);
        let k = q.index_of(cell_of(path[j - 1]));
        assert(inside(path[j - 1], n, n));
        assert(q[k] == cell_of(path[j - 1]));
        assert(at(q[k]) == path[j - 1]);
        assert(touching(at(q[k]), at(cell_of(path[j])), n));
    }
}

/// A queue closed as above holds every cell that `m` relays to.
proof fn lemma_queue_complete(spots: Seq<Seq<BoardSpot>>, m: (int, int), q: Seq<(usize, usize)>, x: (int, int))
    requires
        forall|p: (usize, usize)|
            #![trigger touching(m, at(p), spots.len() as int)]
            touching(m, at(p), spots.len() as int) ==> q.contains(p),
        forall|k: int, p: (usize, usize)|
            #![trigger touching(at(q[k]), at(p), spots.len() as int)]
            0 <= k < q.len() && is_stone(spots, at(q[k])) && touching(at(q[k]), at(p), spots.len() as int)
                ==> q.contains(p),
        spots.len() <= usize::MAX,
        relayed(spots, m, x),
    ensures
        q.contains(cell_of(x)),
{
    let n = spots.len() as int;
    let path = choose|path: Seq<(int, int)>|
        #[trigger] stone_chain(spots, path) && path[0] == m && touching(path.last(), x, n);
    let l = path.len() - 1;
    assert(touching(path[l], x, n));
    assert(at(cell_of(x)) == x);
    if l == 0 {
        assert(touching(m, at(cell_of(x)), n));
    } else {
        lemma_chain_queued(spots, m, q, path, l);
        let k = q.index_of(cell_of(path[l]));
        assert(inside(path[l], n, n));
        assert(q[k] == cell_of(path[l]));
        assert(at(q[k]) == path[l]);
        assert(touching(at(q[k]), at(cell_of(x)), n));
    }
}

/// A sequence of distinct cells of a board of side `n` has at most `n * n` of them.
proof fn lemma_distinct_cells_bound(q: Seq<(usize, usize)>, n: int)
    requires
        n >= 1,
        q.no_duplicates(),
        forall|i: int| 0 <= i < q.len() ==> (#[trigger] q[i]).0 < n && q[i].1 < n,
    ensures
        q.len() <= n * n,
{
    let codes = q.map_values(|p: (usize, usize)| p.0 * n + p.1);
    assert forall|i: int, j: int| 0 <= i < codes.len() && 0 <= j < codes.len() && i != j implies codes[i] != codes[j] by {
        let (a, b) = (q[i].0 as int, q[i].1 as int);
        let (c, e) = (q[j].0 as int, q[j].1 as int);
        if a * n + b == c * n + e {
            assert(a == c && b == e) by (nonlinear_arith)
                requires
                    a * n + b == c * n + e,
                    0 <= b < n,
                    0 <= e < n,
                    0 <= a,
                    0 <= c,
            ;
        }
    }
    assert forall|i: int| 0 <= i < codes.len() implies 0 <= #[trigger] codes[i] < n * n by {
        let (a, b) = (q[i].0 as int, q[i].1 as int);
        assert(0 <= a * n + b < n * n) by (nonlinear_arith)
            requires
                0 <= a < n,
                0 <= b < n,
        ;
    }
    codes.unique_seq_to_set();
    lemma_int_range(0, n * n);
    assert(codes.to_set().subset_of(set_int_range(0, n * n)));
    lemma_len_subset(codes.to_set(), set_int_range(0, n * n));
}

impl Board {
    /// Relays moonlight from the moonstone at `(row, col)`: a breadth-first
    /// walk marks every cell around it lit and goes on from each moonstone
    /// it reaches; no cell is queued twice.
    fn relay_moonlight(&self, is_lit: &mut Grid<bool>, row: usize, col: usize, n: usize)
        requires
            self.is_square(),
            n == self.side(),
            inside((row as int, col as int), n as int, n as int),
            is_stone(self.spots(), (row as int, col as int)),
            is_rect(flags_of(*old(is_lit)), n as int, n as int),
        ensures
            is_rect(flags_of(*final(is_lit)), n as int, n as int),
            forall|i: int, j: int|
                0 <= i < n && 0 <= j < n ==> #[trigger] flags_of(*final(is_lit))[i][j] == (flags_of(
                    *old(is_lit),
                )[i][j] || relayed(self.spots(), (row as int, col as int), (i, j))),
    {
        let ghost spots = self.spots();
        let ghost m = (row as int, col as int);
        let ghost nn = n as int;
        let mut adjacents_queue = get_adjacent_coords(row, col, n - 1, n - 1, true);
        let mut adjacents_queue_index: usize = 0;
        proof {
            assert forall|k: int| 0 <= k < adjacents_queue@.len() implies relayed(spots, m, at(#[trigger] adjacents_queue@[k])) by {
                let path = seq![m];
                assert(stone_chain(spots, path));
                assert(adjacents_queue@.contains(adjacents_queue@[k]));
            }
        }
        while adjacents_queue_index < adjacents_queue.len()
            invariant
                self.is_square(),
                spots == self.spots(),
                nn == n,
                n == spots.len(),
                inside(m, nn, nn),
                is_stone(spots, m),
                m == (row as int, col as int),
                adjacents_queue_index <= adjacents_queue.len(),
                adjacents_queue@.no_duplicates(),
                forall|k: int|
                    0 <= k < adjacents_queue@.len() ==> inside(at(#[trigger] adjacents_queue@[k]), nn, nn),
                forall|k: int|
                    0 <= k < adjacents_queue@.len() ==> relayed(spots, m, at(#[trigger] adjacents_queue@[k])),
                forall|q: (usize, usize)|
                    #![trigger touching(m, at(q), nn)]
                    touching(m, at(q), nn) ==> adjacents_queue@.contains(q),
                forall|k: int, q: (usize, usize)|
                    #![trigger touching(at(adjacents_queue@[k]), at(q), nn)]
                    0 <= k < adjacents_queue_index && is_stone(spots, at(adjacents_queue@[k])) && touching(
                        at(adjacents_queue@[k]),
                        at(q),
                        nn,
                    ) ==> adjacents_queue@.contains(q),
                is_rect(flags_of(*is_lit), nn, nn),
                forall|i: int, j: int|
                    0 <= i < n && 0 <= j < n ==> #[trigger] flags_of(*is_lit)[i][j] == (flags_of(
                        *old(is_lit),
                    )[i][j] || adjacents_queue@.take(adjacents_queue_index as int).contains(
                        (i as usize, j as usize),
                    )),
            decreases n * n - adjacents_queue_index,
        {
            proof {
                lemma_distinct_cells_bound(adjacents_queue@, nn);
            }
            let ghost queue_before = adjacents_queue@;
            let ghost idx = adjacents_queue_index as int;
            let coord = adjacents_queue[adjacents_queue_index];
            let this_spot = spot_at(&self.board, coord.0, coord.1);
            if this_spot.piece_type == PieceType::Moonstone {
                let these_adjacents = get_adjacent_coords(coord.0, coord.1, n - 1, n - 1, true);
                for a in 0..these_adjacents.len()
                    invariant
                        spots == self.spots(),
                        nn == n,
                        n == spots.len(),
                        inside(at(coord), nn, nn),
                        is_stone(spots, at(coord)),
                        relayed(spots, m, at(coord)),
                        forall|q: (usize, usize)|
                            these_adjacents@.contains(q) <==> touching(at(coord), at(q), nn),
                        queue_before.len() <= adjacents_queue@.len(),
                        adjacents_queue@.take(queue_before.len() as int) == queue_before,
                        adjacents_queue@.no_duplicates(),
                        forall|k: int|
                            0 <= k < adjacents_queue@.len() ==> inside(at(#[trigger] adjacents_queue@[k]), nn, nn),
                        forall|k: int|
                            0 <= k < adjacents_queue@.len() ==> relayed(spots, m, at(#[trigger] adjacents_queue@[k])),
                        forall|k: int| 0 <= k < a ==> adjacents_queue@.contains(#[trigger] these_adjacents@[k]),
                        forall|q: (usize, usize)|
                            #[trigger] queue_before.contains(q) ==> adjacents_queue@.contains(q),
                {
                    let this_adjacent = these_adjacents[a];
                    proof {
                        assert(these_adjacents@.contains(this_adjacent));
                    }
                    if !contains_coord(&adjacents_queue, this_adjacent) {
                        let ghost prev = adjacents_queue@;
                        adjacents_queue.push(this_adjacent);
                        proof {
                            lemma_push_contains(prev, this_adjacent);
                            lemma_relay_extend(spots, m, at(coord), at(this_adjacent));
                            assert(adjacents_queue@.take(queue_before.len() as int) == prev.take(
                                queue_before.len() as int,
                            ));
                            assert forall|k: int| 0 <= k < adjacents_queue@.len() implies inside(
                                at(#[trigger] adjacents_queue@[k]),
                                nn,
                                nn,
                            ) && relayed(spots, m, at(adjacents_queue@[k])) by {
                                if k < prev.len() {
                                    assert(adjacents_queue@[k] == prev[k]);
                                }
                            }
                        }
                    }
                }
                proof {
                    assert forall|q: (usize, usize)|
                        #![trigger touching(at(adjacents_queue@[idx]), at(q), nn)]
                        touching(at(adjacents_queue@[idx]), at(q), nn) implies adjacents_queue@.contains(q) by {
                        assert(adjacents_queue@[idx] == coord);
                        assert(these_adjacents@.contains(q));
                        let k = these_adjacents@.index_of(q);
                        assert(adjacents_queue@.contains(these_adjacents@[k]));
                    }
                }
            }
            proof {
                assert(adjacents_queue@.take(queue_before.len() as int) == queue_before);
                assert forall|k: int| 0 <= k < queue_before.len() implies adjacents_queue@[k] == queue_before[k] by {
                    assert(adjacents_queue@.take(queue_before.len() as int)[k] == adjacents_queue@[k]);
                }
                assert(adjacents_queue@.take(idx) == queue_before.take(idx));
                assert(adjacents_queue@.take(idx + 1) == queue_before.take(idx).push(coord));
                lemma_push_contains(queue_before.take(idx), coord);
                assert forall|q: (usize, usize)| #[trigger] queue_before.contains(q) implies adjacents_queue@.contains(q) by {
                    let k = queue_before.index_of(q);
                    assert(adjacents_queue@[k] == q);
                }
            }
            set_flag(is_lit, coord.0, coord.1, true);
            adjacents_queue_index += 1;
            proof {
                assert forall|k: int, q: (usize, usize)|
                    #![trigger touching(at(adjacents_queue@[k]), at(q), nn)]
                    0 <= k < adjacents_queue_index && is_stone(spots, at(adjacents_queue@[k])) && touching(
                        at(adjacents_queue@[k]),
                        at(q),
                        nn,
                    ) implies adjacents_queue@.contains(q) by {
                    if k < idx {
                        assert(adjacents_queue@[k] == queue_before[k]);
                        assert(touching(at(queue_before[k]), at(q), nn));
                        assert(queue_before.contains(q));
                    }
                }
                assert forall|q: (usize, usize)|
                    #![trigger touching(m, at(q), nn)]
                    touching(m, at(q), nn) implies adjacents_queue@.contains(q) by {
                    assert(queue_before.contains(q));
                }
            }
        }
        proof {
            assert(adjacents_queue@.take(adjacents_queue@.len() as int) == adjacents_queue@);
            assert forall|i: int, j: int|
                0 <= i < n && 0 <= j < n implies #[trigger] flags_of(*is_lit)[i][j] == (flags_of(
                    *old(is_lit),
                )[i][j] || relayed(spots, m, (i, j))) by {
                let c = (i as usize, j as usize);
                assert(at(c) == (i, j));
                if relayed(spots, m, (i, j)) {
                    lemma_queue_complete(spots, m, adjacents_queue@, (i, j));
                }
                if adjacents_queue@.contains(c) {
                    let k = adjacents_queue@.index_of(c);
                    assert(relayed(spots, m, at(adjacents_queue@[k])));
                }
            }
        }
    }

    /// Shines one ray of moonlight from `start` along `d` until it leaves
    /// the board or meets the Great Elder Tree, lighting each cell it
    /// crosses; a moonstone on the way relays the light around it instead.
    fn light_moon_ray(&self, is_lit: &mut Grid<bool>, start: (usize, usize), d: (i8, i8), n: usize)
        requires
            self.is_square(),
            n == self.side(),
            inside(at(start), n as int, n as int),
            unit_step(d),
            is_rect(flags_of(*old(is_lit)), n as int, n as int),
        ensures
            is_rect(flags_of(*final(is_lit)), n as int, n as int),
            forall|i: int, j: int|
                0 <= i < n && 0 <= j < n ==> #[trigger] flags_of(*final(is_lit))[i][j] == (flags_of(
                    *old(is_lit),
                )[i][j] || ray_lights(self.spots(), at(start), d, (i, j))),
    {
        let ghost spots = self.spots();
        let ghost s = at(start);
        let ghost nn = n as int;
        let mut cur_row = start.0;
        let mut cur_col = start.1;
        let ghost mut t: int = 0;
        let mut done = false;
        while !done
            invariant
                self.is_square(),
                spots == self.spots(),
                nn == n,
                n == spots.len(),
                unit_step(d),
                inside(s, nn, nn),
                0 <= t <= n,
                !done ==> inside(ray_cell(s, d, t), nn, nn),
                !done ==> (cur_row as int, cur_col as int) == ray_cell(s, d, t),
                !done ==> ray_open(spots, s, d, t - 1),
                done ==> !ray_open(spots, s, d, t),
                is_rect(flags_of(*is_lit), nn, nn),
                forall|i: int, j: int|
                    0 <= i < n && 0 <= j < n ==> #[trigger] flags_of(*is_lit)[i][j] == (flags_of(
                        *old(is_lit),
                    )[i][j] || exists|u: int|
                        0 <= u < t && #[trigger] ray_open(spots, s, d, u) && ray_hit(spots, s, d, u, (i, j))),
            decreases n + 1 - t, if done { 0int } else { 1int },
        {
            let ghost before = flags_of(*is_lit);
            let this_spot = spot_at(&self.board, cur_row, cur_col);
            if this_spot.piece_type == PieceType::GreatElderTree {
                done = true;
            } else {
                proof {
                    assert(ray_open(spots, s, d, t));
                }
                if this_spot.piece_type == PieceType::Moonstone {
                    self.relay_moonlight(is_lit, cur_row, cur_col, n);
                } else {
                    set_flag(is_lit, cur_row, cur_col, true);
                }
                proof {
                    assert forall|i: int, j: int| 0 <= i < n && 0 <= j < n implies #[trigger] flags_of(*is_lit)[i][j] == (
                    flags_of(*old(is_lit))[i][j] || exists|u: int|
                        0 <= u < t + 1 && #[trigger] ray_open(spots, s, d, u) && ray_hit(spots, s, d, u, (i, j))) by {
                        if ray_hit(spots, s, d, t, (i, j)) {
                            assert(0 <= t < t + 1 && ray_open(spots, s, d, t) && ray_hit(spots, s, d, t, (i, j)));
                        }
                        if exists|u: int|
                            0 <= u < t + 1 && #[trigger] ray_open(spots, s, d, u) && ray_hit(spots, s, d, u, (i, j)) {
                            let u = choose|u: int|
                                0 <= u < t + 1 && #[trigger] ray_open(spots, s, d, u) && ray_hit(spots, s, d, u, (i, j));
                            if u < t {
                                assert(before[i][j]);
                            }
                        }
                    }
                }
                if leaves_board(cur_row, cur_col, d, n, n) {
                    done = true;
                    proof {
                        assert(!inside(ray_cell(s, d, t + 1), nn, nn));
                    }
                } else {
                    cur_row = step(cur_row, d.0);
                    cur_col = step(cur_col, d.1);
                }
                proof {
                    t = t + 1;
                }
            }
        }
        proof {
            assert forall|i: int, j: int| 0 <= i < n && 0 <= j < n implies #[trigger] flags_of(*is_lit)[i][j] == (
            flags_of(*old(is_lit))[i][j] || ray_lights(spots, s, d, (i, j))) by {
                if ray_lights(spots, s, d, (i, j)) {
                    let u = choose|u: int| 0 <= u && #[trigger] ray_open(spots, s, d, u) && ray_hit(spots, s, d, u, (i, j));
                    if u >= t {
                        assert(ray_open(spots, s, d, t));
                    }
                }
            }
        }
    }

    /// Which cells of the board the moon lights: along each of its two rays,
    /// every cell up to the edge of the board or the Great Elder Tree, and
    /// around every moonstone such a ray reaches, whatever the moonstones
    /// joined to it relay.
    pub fn moon_lit(&self) -> (r: Grid<bool>)
        requires
            self.wf(),
        ensures
            flags_of(r) == moonlight_map(self.spots(), self.moon),
    {
        let (rows, cols) = spot_dims(&self.board);
        proof {
            assert(self.spots()[0].len() == cols);
        }
        let mut is_lit = new_flags(rows, cols);
        let (coord_1_start, direction_1, coord_2_start, direction_2) = Board::moon_grid_starts_directions(
            &self.moon,
        );
        self.light_moon_ray(&mut is_lit, coord_1_start, direction_1, rows);
        self.light_moon_ray(&mut is_lit, coord_2_start, direction_2, rows);
        proof {
            let m = moonlight_map(self.spots(), self.moon);
            let n = rows as int;
            assert forall|i: int| 0 <= i < n implies #[trigger] flags_of(is_lit)[i] =~= m[i] by {}
            assert(flags_of(is_lit) =~= m);
        }
        is_lit
    }
}

} // verus!
