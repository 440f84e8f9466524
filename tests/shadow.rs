use grid::Grid;
use photosynthesis::{Board, BoardSpot, Fertility, PieceType, Sun, SunDirection, Tree, TreeSize};

const ALL_HEADINGS: [SunDirection; 8] = [
    SunDirection::North,
    SunDirection::Northeast,
    SunDirection::East,
    SunDirection::Southeast,
    SunDirection::South,
    SunDirection::Southwest,
    SunDirection::West,
    SunDirection::Northwest,
];

fn tree_spot(size: TreeSize) -> BoardSpot {
    let mut s = BoardSpot::new(Fertility::OneLeaf);
    s.piece_type = PieceType::Tree;
    s.tree = Some(Tree { color: (0, 0, 0), size });
    s
}

fn piece_spot(piece: PieceType) -> BoardSpot {
    let mut s = BoardSpot::new(Fertility::OneLeaf);
    s.piece_type = piece;
    s
}

fn board_facing(d: SunDirection) -> Board {
    let mut b = Board::default();
    b.sun = Sun::new(d);
    b
}

fn shaded_cells(g: &Grid<bool>) -> Vec<(usize, usize)> {
    let mut v = Vec::new();
    for r in 0..g.rows() {
        for c in 0..g.cols() {
            if g[(r, c)] {
                v.push((r, c));
            }
        }
    }
    v
}

#[test]
fn large_tree_shadow_south() {
    let mut b = board_facing(SunDirection::South);
    b.board[(3, 3)] = tree_spot(TreeSize::Large);
    let g = b.sun_shaded();
    assert_eq!(g.rows(), 7);
    assert_eq!(g.cols(), 7);
    assert!(g[(4, 3)]);
    assert!(!g[(6, 3)]);
    assert_eq!(shaded_cells(&g), vec![(3, 3), (4, 3), (5, 3)]);
}

#[test]
fn empty_board_is_never_shaded() {
    for d in ALL_HEADINGS {
        let g = board_facing(d).sun_shaded();
        assert!(shaded_cells(&g).is_empty());
    }
}

#[test]
fn great_elder_tree_shades_to_the_edge() {
    let mut b = board_facing(SunDirection::South);
    b.board[(2, 2)] = piece_spot(PieceType::GreatElderTree);
    b.board[(5, 2)] = tree_spot(TreeSize::Large);
    let g = b.sun_shaded();
    assert_eq!(shaded_cells(&g), vec![(2, 2), (3, 2), (4, 2), (5, 2), (6, 2)]);
}

#[test]
fn great_elder_tree_shades_diagonally() {
    let mut b = board_facing(SunDirection::Southeast);
    b.board[(2, 2)] = piece_spot(PieceType::GreatElderTree);
    let g = b.sun_shaded();
    assert_eq!(shaded_cells(&g), vec![(2, 2), (3, 3), (4, 4), (5, 5), (6, 6)]);
}

#[test]
fn great_elder_tree_shades_northwest() {
    let mut b = board_facing(SunDirection::Northwest);
    b.board[(4, 5)] = piece_spot(PieceType::GreatElderTree);
    let g = b.sun_shaded();
    assert_eq!(shaded_cells(&g), vec![(0, 1), (1, 2), (2, 3), (3, 4), (4, 5)]);
}

#[test]
fn moonstone_shades_its_own_cell() {
    let mut b = board_facing(SunDirection::East);
    b.board[(1, 1)] = piece_spot(PieceType::Moonstone);
    let g = b.sun_shaded();
    assert_eq!(shaded_cells(&g), vec![(1, 1)]);
}

#[test]
fn seed_casts_no_shadow_but_is_darkened() {
    let mut b = board_facing(SunDirection::East);
    b.board[(0, 3)] = tree_spot(TreeSize::Seed);
    b.board[(2, 0)] = tree_spot(TreeSize::Medium);
    b.board[(2, 1)] = tree_spot(TreeSize::Seed);
    let g = b.sun_shaded();
    assert_eq!(shaded_cells(&g), vec![(2, 0), (2, 1)]);
}

#[test]
fn taller_tree_stands_above_a_shorter_shadow() {
    let mut b = board_facing(SunDirection::West);
    // the medium tree's shadow covers (3, 6) and (3, 5)
    b.board[(3, 6)] = tree_spot(TreeSize::Medium);
    b.board[(3, 5)] = tree_spot(TreeSize::Large);
    b.board[(4, 6)] = tree_spot(TreeSize::Small);
    b.board[(4, 5)] = tree_spot(TreeSize::Large);
    let g = b.sun_shaded();
    // the large trees only fall under their own shadows, which reach on
    assert_eq!(
        shaded_cells(&g),
        vec![(3, 3), (3, 4), (3, 5), (3, 6), (4, 3), (4, 4), (4, 5), (4, 6)]
    );
}

#[test]
fn small_tree_under_medium_shadow() {
    let mut b = board_facing(SunDirection::North);
    b.board[(6, 0)] = tree_spot(TreeSize::Medium);
    b.board[(5, 0)] = tree_spot(TreeSize::Small);
    b.board[(4, 0)] = tree_spot(TreeSize::Medium);
    let g = b.sun_shaded();
    assert_eq!(shaded_cells(&g), vec![(3, 0), (4, 0), (5, 0), (6, 0)]);
}

#[test]
fn sun_shadow_is_repeatable() {
    let mut b = board_facing(SunDirection::Southwest);
    b.board[(1, 4)] = tree_spot(TreeSize::Large);
    b.board[(3, 3)] = piece_spot(PieceType::Moonstone);
    let g1 = b.sun_shaded();
    let g2 = b.sun_shaded();
    assert_eq!(g1, g2);
    assert_eq!(shaded_cells(&g1), vec![(1, 4), (2, 3), (3, 2), (3, 3)]);
}

#[test]
fn one_cell_board_shadow() {
    let mut b = Board::default();
    b.board = Grid::new(1, 1);
    b.board[(0, 0)] = piece_spot(PieceType::GreatElderTree);
    for d in ALL_HEADINGS {
        b.sun = Sun::new(d);
        assert_eq!(shaded_cells(&b.sun_shaded()), vec![(0, 0)]);
    }
}
