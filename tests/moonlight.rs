use grid::Grid;
use photosynthesis::{Board, BoardSpot, Fertility, Moon, PieceType, Tree, TreeSize};

fn piece_spot(piece: PieceType) -> BoardSpot {
    let mut s = BoardSpot::new(Fertility::OneLeaf);
    s.piece_type = piece;
    s
}

fn lit_cells(g: &Grid<bool>) -> Vec<(usize, usize)> {
    let mut v = Vec::new();
    for r in 0..g.rows() {
        for c in 0..g.cols() {
            if g[(r, c)] {
                v.push((r, c));
            }
        }
    }
    v
}

fn sorted(mut v: Vec<(usize, usize)>) -> Vec<(usize, usize)> {
    v.sort();
    v
}

#[test]
fn empty_board_lit_along_both_rays() {
    let b = Board::default();
    let g = b.moon_lit();
    assert_eq!(g.rows(), 7);
    assert_eq!(g.cols(), 7);
    // from (0, 5) down and right, from (0, 6) down and left
    let expected = sorted(vec![
        (0, 5),
        (1, 6),
        (0, 6),
        (1, 5),
        (2, 4),
        (3, 3),
        (4, 2),
        (5, 1),
        (6, 0),
    ]);
    assert_eq!(lit_cells(&g), expected);
}

#[test]
fn empty_board_lit_from_left_edge() {
    let mut b = Board::default();
    b.moon = Moon::new(7).unwrap().next();
    // heading east between (4, 0) and (3, 0)
    let expected = sorted(vec![
        (4, 0),
        (3, 1),
        (2, 2),
        (1, 3),
        (0, 4),
        (3, 0),
        (4, 1),
        (5, 2),
        (6, 3),
    ]);
    assert_eq!(lit_cells(&b.moon_lit()), expected);
}

#[test]
fn great_elder_tree_stops_a_moon_ray() {
    let mut b = Board::default();
    b.board[(3, 3)] = piece_spot(PieceType::GreatElderTree);
    let expected = sorted(vec![(0, 5), (1, 6), (0, 6), (1, 5), (2, 4)]);
    assert_eq!(lit_cells(&b.moon_lit()), expected);
}

#[test]
fn moonstone_chain_relays_far() {
    let mut b = Board::default();
    b.board[(3, 3)] = piece_spot(PieceType::Moonstone);
    b.board[(3, 4)] = piece_spot(PieceType::Moonstone);
    b.board[(3, 5)] = piece_spot(PieceType::Moonstone);
    let mut expected = vec![(0, 5), (1, 6), (0, 6), (1, 5), (2, 4), (4, 2), (5, 1), (6, 0)];
    for r in 2..=4 {
        for c in 2..=6 {
            if !expected.contains(&(r, c)) {
                expected.push((r, c));
            }
        }
    }
    assert_eq!(lit_cells(&b.moon_lit()), sorted(expected));
}

#[test]
fn lone_moonstone_lights_its_neighbours_only() {
    let mut b = Board::default();
    b.board[(2, 4)] = piece_spot(PieceType::Moonstone);
    let mut expected = vec![(0, 5), (1, 6), (0, 6), (1, 5), (3, 3), (4, 2), (5, 1), (6, 0)];
    for (r, c) in [(1, 3), (1, 4), (1, 5), (2, 3), (2, 5), (3, 3), (3, 4), (3, 5)] {
        if !expected.contains(&(r, c)) {
            expected.push((r, c));
        }
    }
    assert_eq!(lit_cells(&b.moon_lit()), sorted(expected));
}

#[test]
fn trees_do_not_stop_moonlight() {
    let mut b = Board::default();
    let mut s = BoardSpot::new(Fertility::TwoLeaf);
    s.piece_type = PieceType::Tree;
    s.tree = Some(Tree { color: (1, 2, 3), size: TreeSize::Large });
    b.board[(2, 4)] = s;
    let g1 = b.moon_lit();
    let g2 = b.moon_lit();
    assert_eq!(g1, g2);
    assert!(g1[(2, 4)]);
    assert!(g1[(6, 0)]);
}

#[test]
fn moonstone_next_to_elder_tree_still_relays() {
    let mut b = Board::default();
    b.board[(1, 5)] = piece_spot(PieceType::Moonstone);
    b.board[(2, 4)] = piece_spot(PieceType::GreatElderTree);
    let mut expected = vec![(0, 5), (1, 6), (0, 6)];
    for (r, c) in [(0, 4), (0, 5), (0, 6), (1, 4), (1, 6), (2, 4), (2, 5), (2, 6)] {
        if !expected.contains(&(r, c)) {
            expected.push((r, c));
        }
    }
    assert_eq!(lit_cells(&b.moon_lit()), sorted(expected));
}
