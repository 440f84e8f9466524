use vstd::prelude::*;

verus! {

/// A cell coordinate lies on a board of `rows` by `cols` cells.
pub open spec fn inside(p: (int, int), rows: int, cols: int) -> bool {
    0 <= p.0 < rows && 0 <= p.1 < cols
}

/// Moves `x` by `t` steps along one axis of a unit step `d`.
pub open spec fn fwd(x: int, d: i8, t: int) -> int {
    if d > 0 {
        x + t
    } else if d < 0 {
        x - t
    } else {
        x
    }
}

/// The cell `t` steps from `s` along `d` (negative `t` steps backwards).
pub open spec fn ray_cell(s: (int, int), d: (i8, i8), t: int) -> (int, int) {
    (fwd(s.0, d.0, t), fwd(s.1, d.1, t))
}

/// A step to one of the eight neighbouring cells.
pub open spec fn unit_step(d: (i8, i8)) -> bool {
    -1 <= d.0 <= 1 && -1 <= d.1 <= 1 && !(d.0 == 0 && d.1 == 0)
}

/// A cell where light travelling along `d` enters the board: the cell is on
/// the board and the one before it is not.
pub open spec fn is_entry(p: (int, int), d: (i8, i8), rows: int, cols: int) -> bool {
    inside(p, rows, cols) && !inside(ray_cell(p, d, -1), rows, cols)
}

/// The coordinate as integers.
pub open spec fn at(p: (usize, usize)) -> (int, int) {
    (p.0 as int, p.1 as int)
}

/// `q` is a neighbour of `p` inside the bounds, sideways or up and down,
/// and diagonally too when `diagonal` holds.
pub open spec fn neighbour(
    p: (int, int),
    q: (int, int),
    max_row: int,
    max_col: int,
    diagonal: bool,
) -> bool {
    &&& 0 <= q.0 <= max_row
    &&& 0 <= q.1 <= max_col
    &&& q != p
    &&& p.0 - 1 <= q.0 <= p.0 + 1
    &&& p.1 - 1 <= q.1 <= p.1 + 1
    &&& diagonal || q.0 == p.0 || q.1 == p.1
}

/// One step of `x` along an axis of a unit step.
pub fn step(x: usize, d: i8) -> (r: usize)
    requires
        d < 0 ==> x > 0,
        d > 0 ==> x < usize::MAX,
    ensures
        r == fwd(x as int, d, 1),
{
    if d > 0 {
        x + 1
    } else if d < 0 {
        x - 1
    } else {
        x
    }
}

/// Whether the next step from `(row, col)` along `d` leaves a board of
/// `rows` by `cols` cells.
pub fn leaves_board(row: usize, col: usize, d: (i8, i8), rows: usize, cols: usize) -> (r: bool)
    requires
        inside((row as int, col as int), rows as int, cols as int),
        unit_step(d),
    ensures
        r == !inside(ray_cell((row as int, col as int), d, 1), rows as int, cols as int),
{
    let row_too_small = row == 0 && d.0 < 0;
    let row_too_big = row == rows - 1 && d.0 > 0;
    let col_too_small = col == 0 && d.1 < 0;
    let col_too_big = col == cols - 1 && d.1 > 0;
    row_too_small || row_too_big || col_too_small || col_too_big
}

/// The one-cell sequence `[p]` when `b` holds, else the empty one.
pub open spec fn keep_if(b: bool, p: (int, int)) -> Seq<(usize, usize)> {
    if b {
        seq![(p.0 as usize, p.1 as usize)]
    } else {
        Seq::empty()
    }
}

/// The in-bounds neighbours of `(row, col)` in increasing (row, column)
/// order: top-left, top, top-right, left, right, bottom-left, bottom,
/// bottom-right; the diagonal ones only when `diagonal` holds.
pub open spec fn adjacent_seq(row: int, col: int, max_row: int, max_col: int, diagonal: bool) -> Seq<
    (usize, usize),
> {
    keep_if(row > 0 && col > 0 && diagonal, (row - 1, col - 1))
        + keep_if(row > 0, (row - 1, col))
        + keep_if(row > 0 && col < max_col && diagonal, (row - 1, col + 1))
        + keep_if(col > 0, (row, col - 1))
        + keep_if(col < max_col, (row, col + 1))
        + keep_if(row < max_row && col > 0 && diagonal, (row + 1, col - 1))
        + keep_if(row < max_row, (row + 1, col))
        + keep_if(row < max_row && col < max_col && diagonal, (row + 1, col + 1))
}

/// `p` comes before `q` in (row, column) order.
pub open spec fn before(p: (usize, usize), q: (usize, usize)) -> bool {
    p.0 < q.0 || (p.0 == q.0 && p.1 < q.1)
}

/// The cells of `s` come in strictly increasing (row, column) order.
pub open spec fn increasing(s: Seq<(usize, usize)>) -> bool {
    forall|i: int, j: int| 0 <= i < j < s.len() ==> before(#[trigger] s[i], #[trigger] s[j])
}

/// Two increasing runs, the first on earlier rows than the second, join
/// into an increasing run.
proof fn lemma_join_increasing(x: Seq<(usize, usize)>, y: Seq<(usize, usize)>)
    requires
        increasing(x),
        increasing(y),
        forall|i: int, j: int| 0 <= i < x.len() && 0 <= j < y.len() ==> (#[trigger] x[i]).0 < (#[trigger] y[j]).0,
    ensures
        increasing(x + y),
{
    assert forall|i: int, j: int| 0 <= i < j < (x + y).len() implies before(#[trigger] (x + y)[i], #[trigger] (x + y)[j]) by {
        if j < x.len() {
            assert((x + y)[i] == x[i] && (x + y)[j] == x[j]);
        } else if i < x.len() {
            assert((x + y)[i] == x[i] && (x + y)[j] == y[j - x.len()]);
        } else {
            assert((x + y)[i] == y[i - x.len()] && (x + y)[j] == y[j - x.len()]);
        }
    }
}

/// Up to three cells of one row, left to right, are increasing and on that row.
proof fn lemma_row_run(left: bool, mid: bool, right: bool, r: int, c: int)
    requires
        (left || mid || right) ==> 0 <= r <= usize::MAX,
        left ==> 0 <= c - 1,
        right ==> c + 1 <= usize::MAX,
        (left || mid || right) ==> 0 <= c <= usize::MAX,
    ensures
        increasing(keep_if(left, (r, c - 1)) + keep_if(mid, (r, c)) + keep_if(right, (r, c + 1))),
        forall|i: int|
            0 <= i < (keep_if(left, (r, c - 1)) + keep_if(mid, (r, c)) + keep_if(right, (r, c + 1))).len()
                ==> (#[trigger] (keep_if(left, (r, c - 1)) + keep_if(mid, (r, c)) + keep_if(
                right,
                (r, c + 1),
            ))[i]).0 == r,
{
    let s = keep_if(left, (r, c - 1)) + keep_if(mid, (r, c)) + keep_if(right, (r, c + 1));
    let mut cells: Seq<(usize, usize)> = Seq::empty();
    if left {
        cells = cells.push(((r as usize), (c - 1) as usize));
    }
    if mid {
        cells = cells.push(((r as usize), c as usize));
    }
    if right {
        cells = cells.push(((r as usize), (c + 1) as usize));
    }
    assert(s =~= cells);
}

/// The listed neighbours are exactly the in-bounds ones, in increasing
/// (row, column) order, at most eight of them and at most four sideways.
#[verifier::rlimit(100)]
pub proof fn lemma_adjacent_seq(row: int, col: int, max_row: int, max_col: int, diagonal: bool)
    requires
        0 <= row <= max_row <= usize::MAX,
        0 <= col <= max_col <= usize::MAX,
    ensures
        forall|q: (usize, usize)|
            adjacent_seq(row, col, max_row, max_col, diagonal).contains(q) <==> neighbour(
                (row, col),
                at(q),
                max_row,
                max_col,
                diagonal,
            ),
        forall|i: int, j: int|
            #![trigger adjacent_seq(row, col, max_row, max_col, diagonal)[i], adjacent_seq(row, col, max_row, max_col, diagonal)[j]]
            0 <= i < j < adjacent_seq(row, col, max_row, max_col, diagonal).len() ==> adjacent_seq(
                row,
                col,
                max_row,
                max_col,
                diagonal,
            )[i].0 < adjacent_seq(row, col, max_row, max_col, diagonal)[j].0 || (adjacent_seq(
                row,
                col,
                max_row,
                max_col,
                diagonal,
            )[i].0 == adjacent_seq(row, col, max_row, max_col, diagonal)[j].0 && adjacent_seq(
                row,
                col,
                max_row,
                max_col,
                diagonal,
            )[i].1 < adjacent_seq(row, col, max_row, max_col, diagonal)[j].1),
        adjacent_seq(row, col, max_row, max_col, diagonal).no_duplicates(),
        adjacent_seq(row, col, max_row, max_col, diagonal).len() <= 8,
        !diagonal ==> adjacent_seq(row, col, max_row, max_col, diagonal).len() <= 4,
{
    let s = adjacent_seq(row, col, max_row, max_col, diagonal);
    let above = keep_if(row > 0 && col > 0 && diagonal, (row - 1, col - 1)) + keep_if(
        row > 0,
        (row - 1, col),
    ) + keep_if(row > 0 && col < max_col && diagonal, (row - 1, col + 1));
    let level = keep_if(col > 0, (row, col - 1)) + keep_if(col < max_col, (row, col + 1));
    let below = keep_if(row < max_row && col > 0 && diagonal, (row + 1, col - 1)) + keep_if(
        row < max_row,
        (row + 1, col),
    ) + keep_if(row < max_row && col < max_col && diagonal, (row + 1, col + 1));
    assert(s =~= above + level + below);
    lemma_row_run(row > 0 && col > 0 && diagonal, row > 0, row > 0 && col < max_col && diagonal, row - 1, col);
    lemma_row_run(col > 0, false, col < max_col, row, col);
    assert(level =~= keep_if(col > 0, (row, col - 1)) + keep_if(false, (row, col)) + keep_if(
        col < max_col,
        (row, col + 1),
    ));
    lemma_row_run(
        row < max_row && col > 0 && diagonal,
        row < max_row,
        row < max_row && col < max_col && diagonal,
        row + 1,
        col,
    );
    lemma_join_increasing(above, level);
    assert forall|i: int| 0 <= i < (above + level).len() implies (#[trigger] (above + level)[i]).0 <= row by {
        if i < above.len() {
            assert((above + level)[i] == above[i]);
        } else {
            assert((above + level)[i] == level[i - above.len()]);
        }
    }
    lemma_join_increasing(above + level, below);
    assert forall|i: int, j: int| 0 <= i < j < s.len() implies s[i].0 < s[j].0 || (s[i].0 == s[j].0 && s[i].1 < s[j].1) by {
        assert(before(s[i], s[j]));
    }
    lemma_adjacent_members(row, col, max_row, max_col, diagonal);
}

/// The listed neighbours are exactly the in-bounds ones.
proof fn lemma_adjacent_members(row: int, col: int, max_row: int, max_col: int, diagonal: bool)
    requires
        0 <= row <= max_row <= usize::MAX,
        0 <= col <= max_col <= usize::MAX,
    ensures
        forall|q: (usize, usize)|
            adjacent_seq(row, col, max_row, max_col, diagonal).contains(q) <==> neighbour(
                (row, col),
                at(q),
                max_row,
                max_col,
                diagonal,
            ),
{
    let s = adjacent_seq(row, col, max_row, max_col, diagonal);
    let k0 = keep_if(row > 0 && col > 0 && diagonal, (row - 1, col - 1));
    let k1 = keep_if(row > 0, (row - 1, col));
    let k2 = keep_if(row > 0 && col < max_col && diagonal, (row - 1, col + 1));
    let k3 = keep_if(col > 0, (row, col - 1));
    let k4 = keep_if(col < max_col, (row, col + 1));
    let k5 = keep_if(row < max_row && col > 0 && diagonal, (row + 1, col - 1));
    let k6 = keep_if(row < max_row, (row + 1, col));
    let k7 = keep_if(row < max_row && col < max_col && diagonal, (row + 1, col + 1));
    lemma_concat_contains(k0, k1);
    lemma_concat_contains(k0 + k1, k2);
    lemma_concat_contains(k0 + k1 + k2, k3);
    lemma_concat_contains(k0 + k1 + k2 + k3, k4);
    lemma_concat_contains(k0 + k1 + k2 + k3 + k4, k5);
    lemma_concat_contains(k0 + k1 + k2 + k3 + k4 + k5, k6);
    lemma_concat_contains(k0 + k1 + k2 + k3 + k4 + k5 + k6, k7);
    assert forall|q: (usize, usize)|
        s.contains(q) <==> neighbour((row, col), at(q), max_row, max_col, diagonal) by {
        lemma_keep_if_contains(row > 0 && col > 0 && diagonal, (row - 1, col - 1), q);
        lemma_keep_if_contains(row > 0, (row - 1, col), q);
        lemma_keep_if_contains(row > 0 && col < max_col && diagonal, (row - 1, col + 1), q);
        lemma_keep_if_contains(col > 0, (row, col - 1), q);
        lemma_keep_if_contains(col < max_col, (row, col + 1), q);
        lemma_keep_if_contains(row < max_row && col > 0 && diagonal, (row + 1, col - 1), q);
        lemma_keep_if_contains(row < max_row, (row + 1, col), q);
        lemma_keep_if_contains(row < max_row && col < max_col && diagonal, (row + 1, col + 1), q);
    }
}

/// What a one-cell-or-empty listing holds.
proof fn lemma_keep_if_contains(b: bool, p: (int, int), q: (usize, usize))
    requires
        b ==> 0 <= p.0 <= usize::MAX && 0 <= p.1 <= usize::MAX,
    ensures
        keep_if(b, p).contains(q) <==> (b && at(q) == p),
{
    if b && at(q) == p {
        assert(keep_if(b, p)[0] == q);
    }
}

/// What a concatenation holds.
pub proof fn lemma_concat_contains(a: Seq<(usize, usize)>, b: Seq<(usize, usize)>)
    ensures
        forall|y: (usize, usize)| #[trigger] (a + b).contains(y) <==> (a.contains(y) || b.contains(y)),
{
    assert forall|y: (usize, usize)| #[trigger] (a + b).contains(y) <==> (a.contains(y) || b.contains(y)) by {
        if a.contains(y) {
            assert((a + b)[a.index_of(y)] == y);
        }
        if b.contains(y) {
            assert((a + b)[a.len() + b.index_of(y)] == y);
        }
        if (a + b).contains(y) {
            let i = (a + b).index_of(y);
            if i < a.len() {
                assert(a[i] == y);
            } else {
                assert(b[i - a.len()] == y);
            }
        }
    }
}

/// The in-bounds neighbours of `(row, col)` on a board whose last row and
/// column are `max_row` and `max_col`, diagonal ones included when
/// `allow_diagonal` holds; each appears once, in increasing (row, column)
/// order.
#[verifier::rlimit(100)]
pub fn get_adjacent_coords(
    row: usize,
    col: usize,
    max_row: usize,
    max_col: usize,
    allow_diagonal: bool,
) -> (r: Vec<(usize, usize)>)
    requires
        row <= max_row,
        col <= max_col,
    ensures
        forall|q: (usize, usize)|
            r@.contains(q) <==> neighbour(
                (row as int, col as int),
                at(q),
                max_row as int,
                max_col as int,
                allow_diagonal,
            ),
        r@.no_duplicates(),
        r@ == adjacent_seq(row as int, col as int, max_row as int, max_col as int, allow_diagonal),
        forall|i: int, j: int|
            0 <= i < j < r@.len() ==> r@[i].0 < r@[j].0 || (r@[i].0 == r@[j].0 && r@[i].1 < r@[j].1),
        r@.len() <= 8,
        !allow_diagonal ==> r@.len() <= 4,
{
    let ghost (r, c, mr, mc) = (row as int, col as int, max_row as int, max_col as int);
    let ghost mut acc: Seq<(usize, usize)> = Seq::empty();
    let mut adjacents: Vec<(usize, usize)> = Vec::new();
    if row > 0 && col > 0 && allow_diagonal {
        adjacents.push((row - 1, col - 1));
    }
    proof {
        acc = keep_if(r > 0 && c > 0 && allow_diagonal, (r - 1, c - 1));
        assert(adjacents@ =~= acc);
    }
    if row > 0 {
        adjacents.push((row - 1, col));
    }
    proof {
        acc = acc + keep_if(r > 0, (r - 1, c));
        assert(adjacents@ =~= acc);
    }
    if row > 0 && col < max_col && allow_diagonal {
        adjacents.push((row - 1, col + 1));
    }
    proof {
        acc = acc + keep_if(r > 0 && c < mc && allow_diagonal, (r - 1, c + 1));
        assert(adjacents@ =~= acc);
    }
    if col > 0 {
        adjacents.push((row, col - 1));
    }
    proof {
        acc = acc + keep_if(c > 0, (r, c - 1));
        assert(adjacents@ =~= acc);
    }
    if col < max_col {
        adjacents.push((row, col + 1));
    }
    proof {
        acc = acc + keep_if(c < mc, (r, c + 1));
        assert(adjacents@ =~= acc);
    }
    if row < max_row && col > 0 && allow_diagonal {
        adjacents.push((row + 1, col - 1));
    }
    proof {
        acc = acc + keep_if(r < mr && c > 0 && allow_diagonal, (r + 1, c - 1));
        assert(adjacents@ =~= acc);
    }
    if row < max_row {
        adjacents.push((row + 1, col));
    }
    proof {
        acc = acc + keep_if(r < mr, (r + 1, c));
        assert(adjacents@ =~= acc);
    }
    if row < max_row && col < max_col && allow_diagonal {
        adjacents.push((row + 1, col + 1));
    }
    proof {
        acc = acc + keep_if(r < mr && c < mc && allow_diagonal, (r + 1, c + 1));
        assert(adjacents@ =~= acc);
    }
    proof {
        lemma_adjacent_seq(r, c, mr, mc, allow_diagonal);
    }
    adjacents
}

/// What a sequence holds after a push.
pub proof fn lemma_push_contains(s: Seq<(usize, usize)>, x: (usize, usize))
    ensures
        forall|y: (usize, usize)| s.push(x).contains(y) <==> (s.contains(y) || y == x),
        s.no_duplicates() && !s.contains(x) ==> s.push(x).no_duplicates(),
{
    assert forall|y: (usize, usize)| s.push(x).contains(y) <==> (s.contains(y) || y == x) by {
        if s.contains(y) {
            let k = s.index_of(y);
            assert(s.push(x)[k] == y);
        }
        if y == x {
            assert(s.push(x)[s.len() as int] == y);
        }
        if s.push(x).contains(y) && y != x {
            let k = s.push(x).index_of(y);
            assert(s[k] == y);
        }
    }
}

/// Whether `v` holds the coordinate `p`.
pub fn contains_coord(v: &Vec<(usize, usize)>, p: (usize, usize)) -> (r: bool)
    ensures
        r == v@.contains(p),
{
    let mut i: usize = 0;
    while i < v.len()
        invariant
            i <= v.len(),
            forall|j: int| 0 <= j < i ==> v@[j] != p,
        decreases v.len() - i,
    {
        if v[i].0 == p.0 && v[i].1 == p.1 {
            return true;
        }
        i += 1;
    }
    false
}

/// A vector of `n` copies of `value`.
pub fn fill_new_vec(n: usize, value: usize) -> (r: Vec<usize>)
    ensures
        r@ == Seq::new(n as nat, |i: int| value),
{
    let mut new_vec: Vec<usize> = Vec::new();
    for i in 0..n
        invariant
            new_vec@ == Seq::new(i as nat, |j: int| value),
    {
        new_vec.push(value);
    }
    new_vec
}

/// The vector `0, 1, ..., n - 1`.
pub fn count_up(n: usize) -> (r: Vec<usize>)
    ensures
        r@ == Seq::new(n as nat, |i: int| i as usize),
{
    let mut new_vec: Vec<usize> = Vec::new();
    for i in 0..n
        invariant
            new_vec@ == Seq::new(i as nat, |j: int| j as usize),
    {
        new_vec.push(i);
    }
    new_vec
}

/// Pairs up two vectors of equal length, element by element.
pub fn merge_two_vecs(vec1: &Vec<usize>, vec2: &Vec<usize>) -> (r: Vec<(usize, usize)>)
    requires
        vec1.len() == vec2.len(),
    ensures
        r@ == Seq::new(vec1.len() as nat, |i: int| (vec1@[i], vec2@[i])),
{
    let mut new_vec: Vec<(usize, usize)> = Vec::new();
    for i in 0..vec1.len()
        invariant
            vec1.len() == vec2.len(),
            new_vec@ == Seq::new(i as nat, |j: int| (vec1@[j], vec2@[j])),
    {
        new_vec.push((vec1[i], vec2[i]));
    }
    new_vec
}

/// `a` followed by those elements of `b` that are not already there.
pub open spec fn union_keep(a: Seq<(usize, usize)>, b: Seq<(usize, usize)>) -> Seq<(usize, usize)>
    decreases b.len(),
{
    if b.len() == 0 {
        a
    } else {
        let u = union_keep(a, b.drop_last());
        if u.contains(b.last()) {
            u
        } else {
            u.push(b.last())
        }
    }
}

/// What `union_keep` holds, and that it repeats nothing that `a` does not.
pub proof fn lemma_union_keep(a: Seq<(usize, usize)>, b: Seq<(usize, usize)>)
    ensures
        forall|x: (usize, usize)|
            union_keep(a, b).contains(x) <==> (a.contains(x) || b.contains(x)),
        a.no_duplicates() ==> union_keep(a, b).no_duplicates(),
    decreases b.len(),
{
    if b.len() > 0 {
        let b0 = b.drop_last();
        lemma_union_keep(a, b0);
        let u = union_keep(a, b0);
        assert(b == b0.push(b.last()));
        lemma_push_contains(b0, b.last());
        lemma_push_contains(u, b.last());
    }
}

/// Joins two vectors; with `exclude_dupes`, an element of `vec2` already
/// present is left out.
pub fn combine_two_vecs(
    vec1: &Vec<(usize, usize)>,
    vec2: &Vec<(usize, usize)>,
    exclude_dupes: bool,
) -> (r: Vec<(usize, usize)>)
    ensures
        exclude_dupes ==> r@ == union_keep(vec1@, vec2@),
        !exclude_dupes ==> r@ == vec1@ + vec2@,
{
    let mut new_vec: Vec<(usize, usize)> = Vec::new();
    for i in 0..vec1.len()
        invariant
            new_vec@ == vec1@.take(i as int),
    {
        new_vec.push(vec1[i]);
        proof {
            assert(vec1@.take(i + 1) == vec1@.take(i as int).push(vec1@[i as int]));
        }
    }
    proof {
        assert(vec1@.take(vec1.len() as int) == vec1@);
        assert(vec2@.take(0) == Seq::<(usize, usize)>::empty());
        assert(vec1@ + vec2@.take(0) == vec1@);
    }
    for i in 0..vec2.len()
        invariant
            exclude_dupes ==> new_vec@ == union_keep(vec1@, vec2@.take(i as int)),
            !exclude_dupes ==> new_vec@ == vec1@ + vec2@.take(i as int),
    {
        let item = vec2[i];
        proof {
            assert(vec2@.take(i + 1).drop_last() == vec2@.take(i as int));
        }
        if !(exclude_dupes && contains_coord(&new_vec, item)) {
            new_vec.push(item);
        }
    }
    proof {
        assert(vec2@.take(vec2.len() as int) == vec2@);
    }
    new_vec
}

} // verus!
