use photosynthesis::{
    get_adjacent_coords, Animal, Board, BoardSpot, Fertility, PieceType, Sun, SunDirection, Tree,
    TreeSize, MoonDirection,
};

#[test]
fn tree_sizes() {
    assert_eq!(TreeSize::Seed.size(), 0);
    assert_eq!(TreeSize::Small.size(), 1);
    assert_eq!(TreeSize::Medium.size(), 2);
    assert_eq!(TreeSize::Large.size(), 3);
    assert_eq!(TreeSize::default(), TreeSize::Seed);
}

#[test]
fn fertility_leaves() {
    assert_eq!(Fertility::OneLeaf.as_int(), 1);
    assert_eq!(Fertility::TwoLeaf.as_int(), 2);
    assert_eq!(Fertility::ThreeLeaf.as_usize(), 3);
    assert_eq!(Fertility::FourLeaf.as_usize(), 4);
}

#[test]
fn labels() {
    assert_eq!(PieceType::Dam.label(), "Beaver Dam");
    assert_eq!(PieceType::GreatElderTree.label(), "Great Elder Tree");
    assert_eq!(Animal::Hedgehog.label(), "Hedgehog");
    assert_eq!(TreeSize::Medium.label(), "Medium");
    assert_eq!(Fertility::ThreeLeaf.label(), "Three-Leaf");
    assert_eq!(SunDirection::Southwest.label(), "Pointing Southwest");
    assert_eq!(MoonDirection::West.label(), "Pointing West");
    assert_eq!(PieceType::default(), PieceType::Empty);
}

#[test]
fn new_spot_is_empty_and_fresh() {
    let mut s = BoardSpot::new(Fertility::ThreeLeaf);
    assert_eq!(s.piece_type, PieceType::Empty);
    assert_eq!(s.tree, None);
    assert_eq!(s.animal, None);
    assert_eq!(s.fertility, Fertility::ThreeLeaf);
    assert!(!s.is_expended());
    s.expend();
    assert!(s.is_expended());
    assert_eq!(s.fertility, Fertility::ThreeLeaf);
    assert_eq!(BoardSpot::default(), BoardSpot::new(Fertility::OneLeaf));
    let t = Tree::default();
    assert_eq!(t.size, TreeSize::Seed);
    assert_eq!(t.color, (0, 0, 0));
}

#[test]
fn adjacent_coords_corner_and_centre() {
    assert_eq!(get_adjacent_coords(0, 0, 6, 6, true), vec![(0, 1), (1, 0), (1, 1)]);
    assert_eq!(get_adjacent_coords(3, 3, 6, 6, false), vec![(2, 3), (3, 2), (3, 4), (4, 3)]);
    assert_eq!(
        get_adjacent_coords(3, 3, 6, 6, true),
        vec![(2, 2), (2, 3), (2, 4), (3, 2), (3, 4), (4, 2), (4, 3), (4, 4)]
    );
    assert_eq!(get_adjacent_coords(6, 6, 6, 6, true), vec![(5, 5), (5, 6), (6, 5)]);
    assert_eq!(get_adjacent_coords(0, 0, 0, 0, true), vec![]);
}

#[test]
fn starting_board_fertility_rings() {
    let mut b = Board::default();
    b.initialize_board();
    for r in 0..7usize {
        for c in 0..7usize {
            let ring = r.min(c).min(6 - r).min(6 - c);
            let expected = match ring {
                0 => Fertility::OneLeaf,
                1 => Fertility::TwoLeaf,
                2 => Fertility::ThreeLeaf,
                _ => Fertility::FourLeaf,
            };
            assert_eq!(b.board[(r, c)], BoardSpot::new(expected));
        }
    }
    assert_eq!(b.board[(3, 3)].fertility, Fertility::FourLeaf);
    assert_eq!(b.board[(0, 3)].fertility, Fertility::OneLeaf);
    assert_eq!(b.board[(2, 4)].fertility, Fertility::ThreeLeaf);
}

#[test]
fn passing_a_phase_moves_sun_and_moon() {
    let mut b = Board::default();
    b.pass_sun_and_moon();
    assert_eq!(b.sun, Sun::new(SunDirection::East));
    assert_eq!(b.moon.direction, MoonDirection::East);
    assert_eq!((b.moon.row1, b.moon.col1, b.moon.row2, b.moon.col2), (4, 0, 3, 0));
}

#[test]
fn placing_and_reading_a_spot() {
    let mut b = Board::default();
    let mut s = BoardSpot::new(Fertility::FourLeaf);
    s.piece_type = PieceType::Moonstone;
    b.place(2, 5, s);
    assert_eq!(b.spot(2, 5), s);
    assert_eq!(b.spot(2, 4), BoardSpot::new(Fertility::OneLeaf));
    assert_eq!(b.board[(2, 5)].piece_type, PieceType::Moonstone);
}

#[test]
fn adjacent_coords_edge_orders() {
    assert_eq!(
        get_adjacent_coords(0, 3, 6, 6, true),
        vec![(0, 2), (0, 4), (1, 2), (1, 3), (1, 4)]
    );
    assert_eq!(get_adjacent_coords(6, 0, 6, 6, false), vec![(5, 0), (6, 1)]);
}
