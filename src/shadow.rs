use vstd::prelude::*;

use grid::Grid;

use crate::board::{sun_step, Board};
use crate::cells::{flags_of, is_rect, new_flags, set_flag, spot_at, spot_dims};
use crate::enums::{tree_height, PieceType};
use crate::geometry::{at, inside, lemma_concat_contains, lemma_push_contains, is_entry, leaves_board, ray_cell, step, unit_step};
use crate::spot::BoardSpot;

verus! {

/// The spot at a cell.
pub open spec fn spot_in(spots: Seq<Seq<BoardSpot>>, p: (int, int)) -> BoardSpot {
    spots[p.0][p.1]
}

/// A shadow of height `h` darkens `target`: any spot without a tree, and a
/// tree no taller than `h`.
pub open spec fn darkens(h: int, target: BoardSpot) -> bool {
    match target.tree {
        Some(t) => tree_height(t.size) <= h,
        None => true,
    }
}

/// The shadow of `src` reaches `k` cells beyond it and darkens `target`
/// there. A tree casts a shadow as tall as its size over as many cells,
/// its own included; the Great Elder Tree one of height 4 over `reach`
/// cells; a moonstone one of height 1 over its own cell.
pub open spec fn casts_onto(src: BoardSpot, k: int, target: BoardSpot, reach: int) -> bool {
    ||| (src.tree is Some && k < tree_height(src.tree->Some_0.size) && darkens(
        tree_height(src.tree->Some_0.size) as int,
        target,
    ))
    ||| (src.piece_type == PieceType::GreatElderTree && k < reach && darkens(4, target))
    ||| (src.piece_type == PieceType::Moonstone && k < 1 && darkens(1, target))
}

/// With light travelling along `d`, cell `p` is in shadow: the spot some
/// `k >= 0` cells back towards the light casts onto it.
pub open spec fn shaded_at(spots: Seq<Seq<BoardSpot>>, d: (i8, i8), reach: int, p: (int, int)) -> bool {
    exists|k: int|
        #![trigger ray_cell(p, d, -k)]
        0 <= k && inside(ray_cell(p, d, -k), spots.len() as int, spots.len() as int) && casts_onto(
            spot_in(spots, ray_cell(p, d, -k)),
            k,
            spot_in(spots, p),
            reach,
        )
}

/// The shadow of every cell of a square board.
pub open spec fn shadow_map(spots: Seq<Seq<BoardSpot>>, d: (i8, i8), reach: int) -> Seq<Seq<bool>> {
    Seq::new(
        spots.len(),
        |r: int| Seq::new(spots.len(), |c: int| shaded_at(spots, d, reach, (r, c))),
    )
}

/// The (height, cells left) records of the shadows a spot starts; one of
/// no length is left out.
spec fn shadow_records(s: BoardSpot, reach: usize) -> Seq<(usize, usize)> {
    let tree_part = match s.tree {
        Some(t) => if tree_height(t.size) > 0 {
            seq![(tree_height(t.size) as usize, tree_height(t.size) as usize)]
        } else {
            Seq::empty()
        },
        None => Seq::empty(),
    };
    let elder_part = if s.piece_type == PieceType::GreatElderTree {
        seq![(4usize, reach)]
    } else {
        Seq::empty()
    };
    let stone_part = if s.piece_type == PieceType::Moonstone {
        seq![(1usize, 1usize)]
    } else {
        Seq::empty()
    };
    tree_part + elder_part + stone_part
}

/// The records after one cell: each shortened by one, those used up dropped.
spec fn decay(s: Seq<(usize, usize)>) -> Seq<(usize, usize)>
    decreases s.len(),
{
    if s.len() == 0 {
        s
    } else {
        let rest = decay(s.drop_last());
        if s.last().1 > 1 {
            rest.push((s.last().0, (s.last().1 - 1) as usize))
        } else {
            rest
        }
    }
}

/// The shadows still active when a ray from `s` reaches its cell `t`.
spec fn pending(spots: Seq<Seq<BoardSpot>>, s: (int, int), d: (i8, i8), reach: usize, t: nat) -> Seq<
    (usize, usize),
>
    decreases t,
{
    if t == 0 {
        Seq::empty()
    } else {
        decay(
            pending(spots, s, d, reach, (t - 1) as nat) + shadow_records(
                spot_in(spots, ray_cell(s, d, t - 1)),
                reach,
            ),
        )
    }
}

/// A spot casts onto a cell `k` steps on exactly when one of its records
/// reaches further than `k` and darkens that cell; every record has some
/// length.
proof fn lemma_records_cast(src: BoardSpot, k: int, target: BoardSpot, reach: usize)
    requires
        0 <= k,
        reach >= 1,
    ensures
        casts_onto(src, k, target, reach as int) <==> exists|x: (usize, usize)|
            #[trigger] shadow_records(src, reach).contains(x) && x.1 > k && darkens(
                x.0 as int,
                target,
            ),
        forall|x: (usize, usize)| #[trigger] shadow_records(src, reach).contains(x) ==> x.1 >= 1,
{
    let recs = shadow_records(src, reach);
    if casts_onto(src, k, target, reach as int) {
        if src.tree is Some && k < tree_height(src.tree->Some_0.size) && darkens(
            tree_height(src.tree->Some_0.size) as int,
            target,
        ) {
            assert(recs[0] == (
                tree_height(src.tree->Some_0.size) as usize,
                tree_height(src.tree->Some_0.size) as usize,
            ));
            assert(recs.contains(recs[0]));
        } else if src.piece_type == PieceType::GreatElderTree && k < reach && darkens(4, target) {
            let i = recs.len() - 1 - (if src.piece_type == PieceType::Moonstone { 1int } else { 0 });
            assert(recs[i] == (4usize, reach));
            assert(recs.contains(recs[i]));
        } else {
            assert(recs[recs.len() - 1] == (1usize, 1usize));
            assert(recs.contains(recs[recs.len() - 1]));
        }
    }
}

proof fn lemma_decay_contains(s: Seq<(usize, usize)>)
    ensures
        forall|e: (usize, usize)|
            decay(s).contains(e) <==> exists|x: (usize, usize)|
                #[trigger] s.contains(x) && x.1 > 1 && e == (x.0, (x.1 - 1) as usize),
    decreases s.len(),
{
    if s.len() > 0 {
        let s0 = s.drop_last();
        let l = s.last();
        let l2 = (l.0, (l.1 - 1) as usize);
        lemma_decay_contains(s0);
        assert(s == s0.push(l));
        lemma_push_contains(s0, l);
        lemma_push_contains(decay(s0), l2);
        assert forall|e: (usize, usize)|
            decay(s).contains(e) <==> exists|x: (usize, usize)|
                #[trigger] s.contains(x) && x.1 > 1 && e == (x.0, (x.1 - 1) as usize) by {
            if exists|x: (usize, usize)|
                #[trigger] s.contains(x) && x.1 > 1 && e == (x.0, (x.1 - 1) as usize) {
                let x = choose|x: (usize, usize)|
                    #[trigger] s.contains(x) && x.1 > 1 && e == (x.0, (x.1 - 1) as usize);
                if x != l {
                    assert(s0.contains(x));
                }
            }
            if decay(s0).contains(e) {
                let x = choose|x: (usize, usize)|
                    #[trigger] s0.contains(x) && x.1 > 1 && e == (x.0, (x.1 - 1) as usize);
                assert(s.contains(x));
            }
            if l.1 > 1 && e == l2 {
                assert(s.contains(l));
            }
        }
    }
}

/// A shadow is active at cell `t` of a ray exactly when some cell `i < t`
/// of the ray started it and it reaches beyond `t - i` cells.
proof fn lemma_pending_contains(
    spots: Seq<Seq<BoardSpot>>,
    s: (int, int),
    d: (i8, i8),
    reach: usize,
    t: nat,
)
    ensures
        forall|e: (usize, usize)|
            pending(spots, s, d, reach, t).contains(e) <==> exists|i: int, x: (usize, usize)|
                0 <= i < t && #[trigger] shadow_records(spot_in(spots, ray_cell(s, d, i)), reach).contains(x)
                    && x.1 > t - i && e == (x.0, (x.1 - (t - i)) as usize),
    decreases t,
{
    if t > 0 {
        let t0 = (t - 1) as nat;
        lemma_pending_contains(spots, s, d, reach, t0);
        let p = pending(spots, s, d, reach, t0);
        let r = shadow_records(spot_in(spots, ray_cell(s, d, t0 as int)), reach);
        lemma_concat_contains(p, r);
        lemma_decay_contains(p + r);
        assert forall|e: (usize, usize)|
            pending(spots, s, d, reach, t).contains(e) <==> exists|i: int, x: (usize, usize)|
                0 <= i < t && #[trigger] shadow_records(spot_in(spots, ray_cell(s, d, i)), reach).contains(x)
                    && x.1 > t - i && e == (x.0, (x.1 - (t - i)) as usize) by {
            if pending(spots, s, d, reach, t).contains(e) {
                let y = choose|y: (usize, usize)|
                    #[trigger] (p + r).contains(y) && y.1 > 1 && e == (y.0, (y.1 - 1) as usize);
                if p.contains(y) {
                    let (i, x) = choose|i: int, x: (usize, usize)|
                        0 <= i < t0 && #[trigger] shadow_records(spot_in(spots, ray_cell(s, d, i)), reach).contains(x)
                            && x.1 > t0 - i && y == (x.0, (x.1 - (t0 - i)) as usize);
                    assert(shadow_records(spot_in(spots, ray_cell(s, d, i)), reach).contains(x));
                } else {
                    assert(shadow_records(spot_in(spots, ray_cell(s, d, t0 as int)), reach).contains(y));
                }
            }
            if exists|i: int, x: (usize, usize)|
                0 <= i < t && #[trigger] shadow_records(spot_in(spots, ray_cell(s, d, i)), reach).contains(x)
                    && x.1 > t - i && e == (x.0, (x.1 - (t - i)) as usize) {
                let (i, x) = choose|i: int, x: (usize, usize)|
                    0 <= i < t && #[trigger] shadow_records(spot_in(spots, ray_cell(s, d, i)), reach).contains(x)
                        && x.1 > t - i && e == (x.0, (x.1 - (t - i)) as usize);
                if i == t0 {
                    assert((p + r).contains(x));
                } else {
                    let y = (x.0, (x.1 - (t0 - i)) as usize);
                    assert(p.contains(y));
                    assert((p + r).contains(y));
                }
            }
        }
    }
}

/// Cells before the entry cell of a ray are off the board.
proof fn lemma_before_entry(s: (int, int), d: (i8, i8), n: int, j: int)
    requires
        is_entry(s, d, n, n),
        unit_step(d),
        j >= 1,
    ensures
        !inside(ray_cell(s, d, -j), n, n),
{
}

/// The cells of a ray between its entry and an on-board cell are on the board.
pub(crate) proof fn lemma_between_inside(s: (int, int), d: (i8, i8), n: int, i: int, t: int)
    requires
        inside(s, n, n),
        inside(ray_cell(s, d, t), n, n),
        0 <= i <= t,
    ensures
        inside(ray_cell(s, d, i), n, n),
{
}

/// The test the march makes at cell `t` of a ray (some active or new
/// shadow darkens the cell) says exactly whether the cell is in shadow.
proof fn lemma_shade_here(spots: Seq<Seq<BoardSpot>>, s: (int, int), d: (i8, i8), reach: usize, t: nat)
    requires
        spots.len() >= 1,
        is_rect(spots, spots.len() as int, spots.len() as int),
        is_entry(s, d, spots.len() as int, spots.len() as int),
        unit_step(d),
        inside(ray_cell(s, d, t as int), spots.len() as int, spots.len() as int),
        reach >= 1,
    ensures
        (exists|e: (usize, usize)|
            #[trigger] (pending(spots, s, d, reach, t) + shadow_records(
                spot_in(spots, ray_cell(s, d, t as int)),
                reach,
            )).contains(e) && darkens(e.0 as int, spot_in(spots, ray_cell(s, d, t as int))))
            == shaded_at(spots, d, reach as int, ray_cell(s, d, t as int)),
{
    let n = spots.len() as int;
    let p = ray_cell(s, d, t as int);
    let target = spot_in(spots, p);
    let pend = pending(spots, s, d, reach, t);
    let here = shadow_records(target, reach);
    lemma_pending_contains(spots, s, d, reach, t);
    lemma_concat_contains(pend, here);
    if exists|e: (usize, usize)| #[trigger] (pend + here).contains(e) && darkens(e.0 as int, target) {
        let e = choose|e: (usize, usize)| #[trigger] (pend + here).contains(e) && darkens(e.0 as int, target);
        if here.contains(e) {
            lemma_records_cast(target, 0, target, reach);
            assert(ray_cell(p, d, -0) == p);
            assert(casts_onto(spot_in(spots, ray_cell(p, d, -0)), 0, target, reach as int));
        } else {
            let (i, x) = choose|i: int, x: (usize, usize)|
                0 <= i < t && #[trigger] shadow_records(spot_in(spots, ray_cell(s, d, i)), reach).contains(x)
                    && x.1 > t - i && e == (x.0, (x.1 - (t - i)) as usize);
            let k = t - i;
            lemma_records_cast(spot_in(spots, ray_cell(s, d, i)), k, target, reach);
            assert(ray_cell(p, d, -k) == ray_cell(s, d, i));
            lemma_between_inside(s, d, n, i, t as int);
            assert(casts_onto(spot_in(spots, ray_cell(p, d, -k)), k, target, reach as int));
        }
    }
    if shaded_at(spots, d, reach as int, p) {
        let k = choose|k: int|
            #![trigger ray_cell(p, d, -k)]
            0 <= k && inside(ray_cell(p, d, -k), n, n) && casts_onto(
                spot_in(spots, ray_cell(p, d, -k)),
                k,
                target,
                reach as int,
            );
        assert(ray_cell(p, d, -k) == ray_cell(s, d, t - k));
        if k > t {
            lemma_before_entry(s, d, n, k - t);
        }
        let i = t - k;
        let src = spot_in(spots, ray_cell(s, d, i));
        lemma_records_cast(src, k, target, reach);
        let x = choose|x: (usize, usize)|
            #[trigger] shadow_records(src, reach).contains(x) && x.1 > k && darkens(x.0 as int, target);
        if k == 0 {
            assert((pend + here).contains(x));
        } else {
            let e = (x.0, (x.1 - k) as usize);
            assert(shadow_records(spot_in(spots, ray_cell(s, d, i)), reach).contains(x));
            assert(pend.contains(e));
            assert((pend + here).contains(e));
        }
    }
}

/// Whether a shadow of height `h` darkens `target`.
fn darkens_spot(h: usize, target: &BoardSpot) -> (r: bool)
    ensures
        r == darkens(h as int, *target),
{
    match target.tree {
        Some(t) => h >= t.size.size(),
        None => true,
    }
}

/// One cell of the march: adds the shadows that `this_spot` starts to the
/// active ones, tells whether any of them darkens the spot, and returns
/// them shortened by one cell, those used up dropped.
fn shadows_at_spot(active: Vec<(usize, usize)>, this_spot: &BoardSpot, reach: usize) -> (r: (
    bool,
    Vec<(usize, usize)>,
))
    ensures
        r.0 == exists|e: (usize, usize)|
            #[trigger] (active@ + shadow_records(*this_spot, reach)).contains(e) && darkens(
                e.0 as int,
                *this_spot,
            ),
        r.1@ == decay(active@ + shadow_records(*this_spot, reach)),
{
    let mut shadow_size_left = active;
    if let Some(tree) = this_spot.tree {
        let h = tree.size.size();
        if h > 0 {
            shadow_size_left.push((h, h));
        }
    }
    if this_spot.piece_type == PieceType::GreatElderTree {
        shadow_size_left.push((4, reach));
    }
    if this_spot.piece_type == PieceType::Moonstone {
        shadow_size_left.push((1, 1));
    }
    let ghost all = shadow_size_left@;
    proof {
        assert(all == active@ + shadow_records(*this_spot, reach));
    }
    let mut shaded = false;
    let mut still_active: Vec<(usize, usize)> = Vec::new();
    for i in 0..shadow_size_left.len()
        invariant
            all == shadow_size_left@,
            still_active@ == decay(all.take(i as int)),
            shaded == exists|j: int| 0 <= j < i && darkens(#[trigger] all[j].0 as int, *this_spot),
    {
        let shadow = shadow_size_left[i];
        if darkens_spot(shadow.0, this_spot) {
            shaded = true;
        }
        if shadow.1 > 1 {
            still_active.push((shadow.0, shadow.1 - 1));
        }
        proof {
            assert(all.take(i + 1).drop_last() == all.take(i as int));
        }
    }
    proof {
        assert(all.take(all.len() as int) == all);
        if shaded {
            let j = choose|j: int| 0 <= j < all.len() && darkens(#[trigger] all[j].0 as int, *this_spot);
            assert(all.contains(all[j]));
        }
        if exists|e: (usize, usize)| #[trigger] all.contains(e) && darkens(e.0 as int, *this_spot) {
            let e = choose|e: (usize, usize)| #[trigger] all.contains(e) && darkens(e.0 as int, *this_spot);
            assert(darkens(all[all.index_of(e)].0 as int, *this_spot));
        }
    }
    (shaded, still_active)
}

/// Entry cells found for every on-board cell by walking back towards the light.
proof fn lemma_entry_behind(p: (int, int), d: (i8, i8), n: int) -> (t: int)
    requires
        inside(p, n, n),
        unit_step(d),
    ensures
        t >= 0,
        is_entry(ray_cell(p, d, -t), d, n, n),
        ray_cell(ray_cell(p, d, -t), d, t) == p,
{
    let tr = if d.0 > 0 {
        p.0
    } else if d.0 < 0 {
        n - 1 - p.0
    } else {
        n
    };
    let tc = if d.1 > 0 {
        p.1
    } else if d.1 < 0 {
        n - 1 - p.1
    } else {
        n
    };
    if tr < tc {
        tr
    } else {
        tc
    }
}

impl Board {
    /// Marches one ray of sunlight from its entry cell `start` across the
    /// board, marking the cells it finds in shadow.
    fn cast_shadow_ray(
        &self,
        is_shaded: &mut Grid<bool>,
        start: (usize, usize),
        d: (i8, i8),
        n: usize,
        reach: usize,
    )
        requires
            self.is_square(),
            n == self.side(),
            reach >= 1,
            unit_step(d),
            is_entry(at(start), d, n as int, n as int),
            is_rect(flags_of(*old(is_shaded)), n as int, n as int),
            forall|i: int, j: int|
                0 <= i < n && 0 <= j < n && #[trigger] flags_of(*old(is_shaded))[i][j] ==> shaded_at(
                    self.spots(),
                    d,
                    reach as int,
                    (i, j),
                ),
        ensures
            is_rect(flags_of(*final(is_shaded)), n as int, n as int),
            forall|i: int, j: int|
                0 <= i < n && 0 <= j < n && #[trigger] flags_of(*final(is_shaded))[i][j] ==> shaded_at(
                    self.spots(),
                    d,
                    reach as int,
                    (i, j),
                ),
            forall|i: int, j: int|
                0 <= i < n && 0 <= j < n && #[trigger] flags_of(*old(is_shaded))[i][j] ==> flags_of(
                    *final(is_shaded),
                )[i][j],
            forall|t: int|
                #![trigger ray_cell(at(start), d, t)]
                0 <= t && inside(ray_cell(at(start), d, t), n as int, n as int) && shaded_at(
                    self.spots(),
                    d,
                    reach as int,
                    ray_cell(at(start), d, t),
                ) ==> flags_of(*final(is_shaded))[ray_cell(at(start), d, t).0][ray_cell(
                    at(start),
                    d,
                    t,
                ).1],
    {
        let ghost spots = self.spots();
        let ghost s = at(start);
        let mut cur_row = start.0;
        let mut cur_col = start.1;
        let mut shadow_size_left: Vec<(usize, usize)> = Vec::new();
        let ghost mut t: nat = 0;
        let mut done = false;
        while !done
            invariant
                self.is_square(),
                spots == self.spots(),
                n == self.side(),
                reach >= 1,
                unit_step(d),
                is_entry(s, d, n as int, n as int),
                t <= n,
                !done ==> inside(ray_cell(s, d, t as int), n as int, n as int),
                !done ==> (cur_row as int, cur_col as int) == ray_cell(s, d, t as int),
                !done ==> shadow_size_left@ == pending(spots, s, d, reach, t),
                done ==> !inside(ray_cell(s, d, t as int), n as int, n as int),
                is_rect(flags_of(*is_shaded), n as int, n as int),
                forall|i: int, j: int|
                    0 <= i < n && 0 <= j < n && #[trigger] flags_of(*is_shaded)[i][j] ==> shaded_at(
                        spots,
                        d,
                        reach as int,
                        (i, j),
                    ),
                forall|i: int, j: int|
                    0 <= i < n && 0 <= j < n && #[trigger] flags_of(*old(is_shaded))[i][j]
                        ==> flags_of(*is_shaded)[i][j],
                forall|u: int|
                    #![trigger ray_cell(s, d, u)]
                    0 <= u < t && shaded_at(spots, d, reach as int, ray_cell(s, d, u))
                        ==> flags_of(*is_shaded)[ray_cell(s, d, u).0][ray_cell(s, d, u).1],
            decreases n + 1 - t,
        {
            let this_spot = spot_at(&self.board, cur_row, cur_col);
            proof {
                lemma_pending_contains(spots, s, d, reach, t);
            }
            let (shaded, still_active) = shadows_at_spot(shadow_size_left, this_spot, reach);
            proof {
                lemma_shade_here(spots, s, d, reach, t);
            }
            if shaded {
                set_flag(is_shaded, cur_row, cur_col, true);
            }
            shadow_size_left = still_active;
            if leaves_board(cur_row, cur_col, d, n, n) {
                done = true;
            } else {
                cur_row = step(cur_row, d.0);
                cur_col = step(cur_col, d.1);
            }
            proof {
                t = t + 1;
            }
        }
        proof {
            assert forall|u: int|
                #![trigger ray_cell(s, d, u)]
                0 <= u && inside(ray_cell(s, d, u), n as int, n as int) && shaded_at(
                    spots,
                    d,
                    reach as int,
                    ray_cell(s, d, u),
                ) implies flags_of(*is_shaded)[ray_cell(s, d, u).0][ray_cell(s, d, u).1] by {
                if u >= t {
                    lemma_between_inside(s, d, n as int, t as int, u);
                }
            }
        }
    }

    /// Which cells of the board lie in the sun's shadow. Sunlight enters at
    /// every entry cell of the sun's heading and marches across the board,
    /// collecting the shadows of the trees, the Great Elder Tree and the
    /// moonstones it passes, each as tall and as long as its caster allows.
    pub fn sun_shaded(&self) -> (r: Grid<bool>)
        requires
            self.is_square(),
        ensures
            flags_of(r) == shadow_map(self.spots(), sun_step(self.sun.direction), 2 * self.side()),
    {
        let (rows, cols) = spot_dims(&self.board);
        proof {
            assert(self.spots()[0].len() == cols);
        }
        let mut is_shaded = new_flags(rows, cols);
        let (starts, d) = Board::sun_grid_starts_directions(self.sun.direction, rows, cols);
        proof {
            assert(self.spots()[0].len() == cols);
            assert(rows + cols <= usize::MAX) by (nonlinear_arith)
                requires
                    rows >= 1,
                    rows == cols,
                    rows * cols <= usize::MAX,
            ;
        }
        let reach = rows + cols;
        let ghost spots = self.spots();
        let ghost n = rows as int;
        for k in 0..starts.len()
            invariant
                self.is_square(),
                spots == self.spots(),
                rows == n,
                cols == n,
                n == self.side(),
                reach == 2 * n,
                d == sun_step(self.sun.direction),
                unit_step(d),
                forall|p: (usize, usize)| starts@.contains(p) <==> is_entry(at(p), d, n, n),
                is_rect(flags_of(is_shaded), n, n),
                forall|i: int, j: int|
                    0 <= i < n && 0 <= j < n && #[trigger] flags_of(is_shaded)[i][j] ==> shaded_at(
                        spots,
                        d,
                        reach as int,
                        (i, j),
                    ),
                forall|q: int, t: int|
                    #![trigger ray_cell(at(starts@[q]), d, t)]
                    0 <= q < k && 0 <= t && inside(ray_cell(at(starts@[q]), d, t), n, n) && shaded_at(
                        spots,
                        d,
                        reach as int,
                        ray_cell(at(starts@[q]), d, t),
                    ) ==> flags_of(is_shaded)[ray_cell(at(starts@[q]), d, t).0][ray_cell(
                        at(starts@[q]),
                        d,
                        t,
                    ).1],
        {
            proof {
                assert(starts@.contains(starts@[k as int]));
            }
            self.cast_shadow_ray(&mut is_shaded, starts[k], d, rows, reach);
        }
        proof {
            let m = shadow_map(spots, d, reach as int);
            assert forall|i: int, j: int| 0 <= i < n && 0 <= j < n implies #[trigger] flags_of(is_shaded)[i][j] == m[i][j] by {
                if shaded_at(spots, d, reach as int, (i, j)) {
                    let t = lemma_entry_behind((i, j), d, n);
                    let b = ray_cell((i, j), d, -t);
                    let bp = (b.0 as usize, b.1 as usize);
                    assert(at(bp) == b);
                    assert(starts@.contains(bp));
                    let q = starts@.index_of(bp);
                    assert(ray_cell(at(starts@[q]), d, t) == (i, j));
                }
            }
            assert forall|i: int| 0 <= i < n implies #[trigger] flags_of(is_shaded)[i] =~= m[i] by {}
            assert(flags_of(is_shaded) =~= m);
        }
        is_shaded
    }
}

} // verus!
