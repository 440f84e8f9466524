use vstd::prelude::*;
use vstd::arithmetic::div_mod::{lemma_add_mod_noop, lemma_fundamental_div_mod_converse, lemma_mod_bound};

use grid::Grid;

use crate::board::{moon_rays, sun_step, Board};
use crate::cells::flags_of;
use crate::enums::{PieceType, SunDirection};
use crate::geometry::{at, inside, ray_cell, unit_step};
use crate::moonlight::{
    is_stone, moonlight_map, ray_hit, ray_lights, ray_open, relayed, stone_chain,
    touching,
};
use crate::shadow::{casts_onto, lemma_between_inside, shaded_at, shadow_map, spot_in};
use crate::sky::{lemma_offset_of_placed, perimeter, placed, Moon, Sun};
use crate::spot::BoardSpot;

verus! {

/// The sun after `k` light phases.
pub open spec fn sun_after(s: Sun, k: nat) -> Sun
    decreases k,
{
    if k == 0 {
        s
    } else {
        sun_after(s, (k - 1) as nat).advanced()
    }
}

/// The moon after `k` light phases.
pub open spec fn moon_after(m: Moon, k: nat) -> Moon
    decreases k,
{
    if k == 0 {
        m
    } else {
        moon_after(m, (k - 1) as nat).advanced()
    }
}

/// Eight light phases bring the sun back to its heading, and no fewer do.
pub proof fn sun_returns_after_eight_phases(s: Sun)
    ensures
        sun_after(s, 8) == s,
        forall|k: nat| 1 <= k < 8 ==> #[trigger] sun_after(s, k) != s,
{
    let s1 = sun_after(s, 1);
    let s2 = sun_after(s, 2);
    let s3 = sun_after(s, 3);
    let s4 = sun_after(s, 4);
    let s5 = sun_after(s, 5);
    let s6 = sun_after(s, 6);
    let s7 = sun_after(s, 7);
    assert(sun_after(s, 0) == s);
    assert(s1 == s.advanced());
    assert(s2 == s1.advanced());
    assert(s3 == s2.advanced());
    assert(s4 == s3.advanced());
    assert(s5 == s4.advanced());
    assert(s6 == s5.advanced());
    assert(s7 == s6.advanced());
    assert(sun_after(s, 8) == s7.advanced());
    assert(sun_after(s, 8) == s) by {
        match s.direction {
            SunDirection::North => {},
            SunDirection::Northeast => {},
            SunDirection::East => {},
            SunDirection::Southeast => {},
            SunDirection::South => {},
            SunDirection::Southwest => {},
            SunDirection::West => {},
            SunDirection::Northwest => {},
        }
    }
    assert(s1 != s && s2 != s && s3 != s && s4 != s && s5 != s && s6 != s && s7 != s) by {
        match s.direction {
            SunDirection::North => {},
            SunDirection::Northeast => {},
            SunDirection::East => {},
            SunDirection::Southeast => {},
            SunDirection::South => {},
            SunDirection::Southwest => {},
            SunDirection::West => {},
            SunDirection::Northwest => {},
        }
    }
    assert forall|k: nat| 1 <= k < 8 implies #[trigger] sun_after(s, k) != s by {
        if k == 1 {
        } else if k == 2 {
        } else if k == 3 {
        } else if k == 4 {
        } else if k == 5 {
        } else if k == 6 {
        } else {
        }
    }
}

/// A moon at any place of its ring stands there rightly.
pub proof fn lemma_placed_wf(n: usize, k: int, full_moon: bool)
    requires
        2 <= n,
        n + 2 <= usize::MAX,
        0 <= k < perimeter(n as int),
    ensures
        placed(n, k, full_moon).wf(),
        placed(n, k, full_moon).offset() == k,
{
    lemma_offset_of_placed(n, k, full_moon);
}

/// After `k` light phases the moon has gone `k` strides round its ring.
pub proof fn moon_position_after(m: Moon, k: nat)
    requires
        m.wf(),
    ensures
        moon_after(m, k).wf(),
        moon_after(m, k).grid_side_length == m.grid_side_length,
        moon_after(m, k).full_moon == m.full_moon,
        moon_after(m, k).offset() == (m.offset() + k * m.stride()) % perimeter(m.grid_side_length as int),
    decreases k,
{
    let n = m.grid_side_length;
    let p = perimeter(n as int);
    if k == 0 {
        lemma_fundamental_div_mod_converse(m.offset(), p, 0, m.offset());
    } else {
        let k0 = (k - 1) as nat;
        moon_position_after(m, k0);
        let prev = moon_after(m, k0);
        let x = m.offset() + k0 * m.stride();
        lemma_mod_bound(prev.offset() + prev.stride(), p);
        lemma_placed_wf(n, (prev.offset() + prev.stride()) % p, m.full_moon);
        lemma_add_mod_noop(x, m.stride(), p);
        lemma_mod_bound(m.stride(), p);
        assert(x + m.stride() == m.offset() + k * m.stride()) by (nonlinear_arith)
            requires
                x == m.offset() + k0 * m.stride(),
                k == k0 + 1,
        ;
        lemma_add_mod_noop(x % p, m.stride(), p);
        lemma_mod_bound(x, p);
        lemma_fundamental_div_mod_converse(x % p, p, 0, x % p);
    }
}

/// The moon is back where it started after `k` light phases exactly when
/// those phases cover whole rounds of its ring.
pub proof fn moon_returns_after_whole_rounds(m: Moon, k: nat)
    requires
        m.wf(),
    ensures
        moon_after(m, k) == m <==> (k * m.stride()) % perimeter(m.grid_side_length as int) == 0,
        moon_after(m, perimeter(m.grid_side_length as int) as nat) == m,
{
    let n = m.grid_side_length;
    let p = perimeter(n as int);
    let o = m.offset();
    moon_position_after(m, k);
    let r = (k * m.stride()) % p;
    lemma_mod_bound(k * m.stride(), p);
    lemma_add_mod_noop(o, k * m.stride(), p);
    lemma_fundamental_div_mod_converse(o, p, 0, o);
    if r == 0 {
        lemma_fundamental_div_mod_converse(o + r, p, 0, o);
    } else if o + r < p {
        lemma_fundamental_div_mod_converse(o + r, p, 0, o + r);
    } else {
        lemma_fundamental_div_mod_converse(o + r, p, 1, o + r - p);
    }
    let pk = p as nat;
    moon_position_after(m, pk);
    assert((pk * m.stride()) % p == 0) by {
        lemma_fundamental_div_mod_converse(pk * m.stride(), p, m.stride(), 0);
    }
    lemma_add_mod_noop(o, pk * m.stride(), p);
    lemma_fundamental_div_mod_converse(o + 0, p, 0, o);
}

/// The two light maps depend on the board, the sun and the moon alone:
/// boards that agree on them get the same grids.
pub proof fn light_maps_are_deterministic(
    b1: Board,
    b2: Board,
    shade1: Grid<bool>,
    shade2: Grid<bool>,
    lit1: Grid<bool>,
    lit2: Grid<bool>,
)
    requires
        b1.spots() == b2.spots(),
        b1.sun == b2.sun,
        b1.moon == b2.moon,
        flags_of(shade1) == shadow_map(b1.spots(), sun_step(b1.sun.direction), 2 * b1.side()),
        flags_of(shade2) == shadow_map(b2.spots(), sun_step(b2.sun.direction), 2 * b2.side()),
        flags_of(lit1) == moonlight_map(b1.spots(), b1.moon),
        flags_of(lit2) == moonlight_map(b2.spots(), b2.moon),
    ensures
        flags_of(shade1) == flags_of(shade2),
        flags_of(lit1) == flags_of(lit2),
{
}

/// No tree, animal or special piece stands anywhere on the board.
pub open spec fn is_empty_board(spots: Seq<Seq<BoardSpot>>) -> bool {
    forall|i: int, j: int|
        0 <= i < spots.len() && 0 <= j < spots.len() ==> {
            &&& (#[trigger] spots[i][j]).piece_type == PieceType::Empty
            &&& spots[i][j].tree is None
            &&& spots[i][j].animal is None
        }
}

/// On an empty board nothing is in shadow, whatever the sun's heading.
pub proof fn empty_board_has_no_shadow(spots: Seq<Seq<BoardSpot>>, heading: SunDirection)
    requires
        is_empty_board(spots),
    ensures
        shadow_map(spots, sun_step(heading), 2 * spots.len() as int) == Seq::new(
            spots.len(),
            |i: int| Seq::new(spots.len(), |j: int| false),
        ),
{
    let n = spots.len() as int;
    let d = sun_step(heading);
    let m = shadow_map(spots, d, 2 * n);
    assert forall|i: int| 0 <= i < n implies #[trigger] m[i] =~= Seq::new(spots.len(), |j: int| false) by {
        assert forall|j: int| 0 <= j < n implies !#[trigger] shaded_at(spots, d, 2 * n, (i, j)) by {
            if shaded_at(spots, d, 2 * n, (i, j)) {
                let k = choose|k: int|
                    #![trigger ray_cell((i, j), d, -k)]
                    0 <= k && inside(ray_cell((i, j), d, -k), n, n) && casts_onto(
                        spot_in(spots, ray_cell((i, j), d, -k)),
                        k,
                        spot_in(spots, (i, j)),
                        2 * n,
                    );
                let c = ray_cell((i, j), d, -k);
                assert(spots[c.0][c.1].piece_type == PieceType::Empty);
            }
        }
    }
    assert(m =~= Seq::new(spots.len(), |i: int| Seq::new(spots.len(), |j: int| false)));
}

/// On an empty board the moon lights exactly the cells of its two rays up
/// to the edge of the board.
pub proof fn empty_board_moonlight_follows_the_rays(spots: Seq<Seq<BoardSpot>>, m: Moon)
    requires
        is_empty_board(spots),
    ensures
        forall|i: int, j: int|
            0 <= i < spots.len() && 0 <= j < spots.len() ==> #[trigger] moonlight_map(spots, m)[i][j] == (
            (exists|t: int| 0 <= t && #[trigger] ray_cell(at(moon_rays(m).0), moon_rays(m).1, t) == (i, j)
                && inside(at(moon_rays(m).0), spots.len() as int, spots.len() as int))
            || (exists|t: int| 0 <= t && #[trigger] ray_cell(at(moon_rays(m).2), moon_rays(m).3, t) == (i, j)
                && inside(at(moon_rays(m).2), spots.len() as int, spots.len() as int))),
{
    let n = spots.len() as int;
    let (s1, d1, s2, d2) = moon_rays(m);
    assert forall|i: int, j: int| 0 <= i < n && 0 <= j < n implies #[trigger] moonlight_map(spots, m)[i][j] == (
        (exists|t: int| 0 <= t && #[trigger] ray_cell(at(s1), d1, t) == (i, j) && inside(at(s1), n, n))
        || (exists|t: int| 0 <= t && #[trigger] ray_cell(at(s2), d2, t) == (i, j) && inside(at(s2), n, n))) by {
        lemma_empty_ray(spots, at(s1), d1, (i, j));
        lemma_empty_ray(spots, at(s2), d2, (i, j));
    }
}

/// On an empty board a ray lights exactly its own on-board cells.
proof fn lemma_empty_ray(spots: Seq<Seq<BoardSpot>>, s: (int, int), d: (i8, i8), x: (int, int))
    requires
        is_empty_board(spots),
        inside(x, spots.len() as int, spots.len() as int),
    ensures
        ray_lights(spots, s, d, x) == exists|t: int|
            0 <= t && #[trigger] ray_cell(s, d, t) == x && inside(s, spots.len() as int, spots.len() as int),
{
    let n = spots.len() as int;
    if ray_lights(spots, s, d, x) {
        let t = choose|t: int| 0 <= t && #[trigger] ray_open(spots, s, d, t) && ray_hit(spots, s, d, t, x);
        assert(inside(ray_cell(s, d, 0), n, n));
        assert(ray_cell(s, d, 0) == s);
        assert(inside(ray_cell(s, d, t), n, n));
        let c = ray_cell(s, d, t);
        assert(spots[c.0][c.1].piece_type == PieceType::Empty);
        assert(ray_cell(s, d, t) == x);
    }
    if exists|t: int| 0 <= t && #[trigger] ray_cell(s, d, t) == x && inside(s, n, n) {
        let t = choose|t: int| 0 <= t && #[trigger] ray_cell(s, d, t) == x && inside(s, n, n);
        assert(ray_cell(s, d, 0) == s);
        assert forall|i: int| 0 <= i <= t implies inside(#[trigger] ray_cell(s, d, i), n, n)
            && spot_in(spots, ray_cell(s, d, i)).piece_type != PieceType::GreatElderTree by {
            lemma_between_inside(s, d, n, i, t);
            let c = ray_cell(s, d, i);
            assert(spots[c.0][c.1].piece_type == PieceType::Empty);
        }
        assert(ray_open(spots, s, d, t));
        assert(spots[x.0][x.1].piece_type == PieceType::Empty);
        assert(ray_hit(spots, s, d, t, x));
    }
}

/// The Great Elder Tree shades every cell ahead of it along the sun's
/// heading, itself included, up to the edge of the board.
pub proof fn great_elder_tree_blocks_the_sun(spots: Seq<Seq<BoardSpot>>, heading: SunDirection, g: (int, int))
    requires
        inside(g, spots.len() as int, spots.len() as int),
        spot_in(spots, g).piece_type == PieceType::GreatElderTree,
    ensures
        forall|k: int|
            0 <= k && inside(#[trigger] ray_cell(g, sun_step(heading), k), spots.len() as int, spots.len() as int)
                ==> shaded_at(spots, sun_step(heading), 2 * spots.len() as int, ray_cell(g, sun_step(heading), k)),
{
    let n = spots.len() as int;
    let d = sun_step(heading);
    assert forall|k: int|
        0 <= k && inside(#[trigger] ray_cell(g, d, k), n, n) implies shaded_at(spots, d, 2 * n, ray_cell(g, d, k)) by {
        let p = ray_cell(g, d, k);
        assert(ray_cell(p, d, -k) == g);
        assert(k < n);
        let target = spot_in(spots, p);
        if let Some(t) = target.tree {
            assert(crate::enums::tree_height(t.size) <= 4);
        }
        assert(casts_onto(spot_in(spots, ray_cell(p, d, -k)), k, target, 2 * n));
    }
}

/// A ray of moonlight stops at the Great Elder Tree: it gets to no cell
/// from that one on, and on a board without moonstones it lights neither
/// that cell nor any beyond it.
pub proof fn great_elder_tree_stops_moonlight(spots: Seq<Seq<BoardSpot>>, s: (int, int), d: (i8, i8), g: int)
    requires
        unit_step(d),
        0 <= g,
        inside(ray_cell(s, d, g), spots.len() as int, spots.len() as int),
        spot_in(spots, ray_cell(s, d, g)).piece_type == PieceType::GreatElderTree,
    ensures
        forall|u: int| u >= g ==> !#[trigger] ray_open(spots, s, d, u),
        (forall|i: int, j: int|
            0 <= i < spots.len() && 0 <= j < spots.len() ==> !is_stone(spots, (i, j)))
            ==> forall|k: int| k >= g ==> !ray_lights(spots, s, d, #[trigger] ray_cell(s, d, k)),
{
    let n = spots.len() as int;
    assert forall|u: int| u >= g implies !#[trigger] ray_open(spots, s, d, u) by {
        assert(spot_in(spots, ray_cell(s, d, g)).piece_type == PieceType::GreatElderTree);
    }
    if forall|i: int, j: int| 0 <= i < spots.len() && 0 <= j < spots.len() ==> !is_stone(spots, (i, j)) {
        assert forall|k: int| k >= g implies !ray_lights(spots, s, d, #[trigger] ray_cell(s, d, k)) by {
            if ray_lights(spots, s, d, ray_cell(s, d, k)) {
                let t = choose|t: int|
                    0 <= t && #[trigger] ray_open(spots, s, d, t) && ray_hit(spots, s, d, t, ray_cell(s, d, k));
                assert(inside(ray_cell(s, d, t), n, n));
                let c = ray_cell(s, d, t);
                assert(!is_stone(spots, (c.0, c.1)));
                assert(ray_cell(s, d, t) == ray_cell(s, d, k));
                assert(t < g);
            }
        }
    }
}

/// Three touching moonstones relay the light of a ray that reaches the
/// first of them: each of the three cells and every cell around any of
/// them is lit, however far from the ray.
pub proof fn moonstone_chain_relays_light(
    spots: Seq<Seq<BoardSpot>>,
    s: (int, int),
    d: (i8, i8),
    t: int,
    a: (int, int),
    b: (int, int),
    c: (int, int),
)
    requires
        0 <= t,
        ray_open(spots, s, d, t),
        ray_cell(s, d, t) == a,
        inside(a, spots.len() as int, spots.len() as int),
        inside(b, spots.len() as int, spots.len() as int),
        inside(c, spots.len() as int, spots.len() as int),
        is_stone(spots, a),
        is_stone(spots, b),
        is_stone(spots, c),
        touching(a, b, spots.len() as int),
        touching(b, c, spots.len() as int),
    ensures
        forall|x: (int, int)|
            (x == a || x == b || x == c || touching(a, x, spots.len() as int) || touching(
                b,
                x,
                spots.len() as int,
            ) || touching(c, x, spots.len() as int)) ==> #[trigger] ray_lights(spots, s, d, x),
{
    let n = spots.len() as int;
    let path_a = seq![a];
    let path_ab = seq![a, b];
    let path_abc = seq![a, b, c];
    assert(stone_chain(spots, path_a));
    assert(stone_chain(spots, path_ab));
    assert(stone_chain(spots, path_abc));
    assert forall|x: (int, int)|
        (x == a || x == b || x == c || touching(a, x, n) || touching(b, x, n) || touching(c, x, n))
            implies #[trigger] ray_lights(spots, s, d, x) by {
        if touching(a, x, n) || x == b {
            assert(path_a.last() == a);
            assert(relayed(spots, a, x));
        } else if touching(b, x, n) || x == a || x == c {
            assert(path_ab.last() == b);
            assert(relayed(spots, a, x));
        } else {
            assert(path_abc.last() == c);
            assert(relayed(spots, a, x));
        }
        assert(ray_hit(spots, s, d, t, x));
    }
}

} // verus!
