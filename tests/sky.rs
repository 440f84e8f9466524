use photosynthesis::{Moon, MoonDirection, MoonError, Sun, SunDirection};

#[test]
fn sun_default_points_northeast() {
    assert_eq!(Sun::default().direction, SunDirection::Northeast);
}

#[test]
fn sun_turns_clockwise() {
    let order = [
        SunDirection::North,
        SunDirection::Northeast,
        SunDirection::East,
        SunDirection::Southeast,
        SunDirection::South,
        SunDirection::Southwest,
        SunDirection::West,
        SunDirection::Northwest,
    ];
    for i in 0..8 {
        assert_eq!(Sun::new(order[i]).next().direction, order[(i + 1) % 8]);
    }
}

#[test]
fn sun_returns_after_eight_calls() {
    let order = [
        SunDirection::North,
        SunDirection::Northeast,
        SunDirection::East,
        SunDirection::Southeast,
        SunDirection::South,
        SunDirection::Southwest,
        SunDirection::West,
        SunDirection::Northwest,
    ];
    for d in order {
        let start = Sun::new(d);
        let mut s = start;
        for k in 1..=8 {
            s = s.next();
            if k < 8 {
                assert_ne!(s, start);
            }
        }
        assert_eq!(s, start);
    }
}

#[test]
fn moon_of_side_one_is_invalid() {
    assert_eq!(Moon::new(1), Err(MoonError::InvalidConfiguration));
    assert_eq!(Moon::new(0), Err(MoonError::InvalidConfiguration));
}

#[test]
fn moon_of_side_seven_starts_top_right() {
    let m = Moon::new(7).unwrap();
    assert_eq!(m.direction, MoonDirection::South);
    assert_eq!((m.row1, m.col1), (0, 5));
    assert_eq!((m.row2, m.col2), (0, 6));
    assert!(!m.full_moon);
}

#[test]
fn moon_moves_nine_places_on_side_seven() {
    let m = Moon::new(7).unwrap();
    let m1 = m.next();
    assert_eq!(m1.direction, MoonDirection::East);
    assert_eq!((m1.row1, m1.col1, m1.row2, m1.col2), (4, 0, 3, 0));
    let m2 = m1.next();
    assert_eq!(m2.direction, MoonDirection::West);
    assert_eq!((m2.row1, m2.col1, m2.row2, m2.col2), (6, 6, 5, 6));
    let m3 = m2.next();
    assert_eq!(m3.direction, MoonDirection::South);
    assert_eq!((m3.row1, m3.col1, m3.row2, m3.col2), (0, 2, 0, 3));
    let m4 = m3.next();
    assert_eq!(m4.direction, MoonDirection::North);
    assert_eq!((m4.row1, m4.col1, m4.row2, m4.col2), (6, 1, 6, 0));
}

#[test]
fn moon_returns_after_full_rounds() {
    let start = Moon::new(7).unwrap();
    let mut m = start;
    for k in 1..=24 {
        m = m.next();
        // 9 places per phase on a ring of 24: back home every 8 phases
        assert_eq!(m == start, k % 8 == 0);
    }
}

#[test]
fn moon_of_side_two_stays_put() {
    let m = Moon::new(2).unwrap();
    assert_eq!((m.row1, m.col1, m.row2, m.col2), (0, 0, 0, 1));
    assert_eq!(m.next(), m);
}
