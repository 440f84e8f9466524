use vstd::prelude::*;
use vstd::arithmetic::div_mod::lemma_fundamental_div_mod_converse;

use crate::enums::{MoonDirection, SunDirection};

verus! {

/// The sun: a heading that turns one eighth clockwise each light phase.
#[derive(Debug, PartialEq, Eq, Structural, Copy, Clone, Ord, PartialOrd, Hash)]
pub struct Sun {
    pub direction: SunDirection,
}

impl Sun {
    /// A sun pointing in the given direction.
    pub fn new(direction: SunDirection) -> (r: Sun)
        ensures
            r.direction == direction,
    {
        Sun { direction }
    }

    /// The sun after one light phase.
    pub open spec fn advanced(self) -> Sun {
        Sun { direction: self.direction.following() }
    }

    /// The sun of the next light phase.
    pub fn next(&self) -> (r: Sun)
        ensures
            r == self.advanced(),
    {
        Sun { direction: self.direction.next() }
    }
}

impl Default for Sun {
    fn default() -> (r: Sun)
        ensures
            r.direction == SunDirection::Northeast,
    {
        Sun { direction: SunDirection::Northeast }
    }
}

/// Why a moon could not be built.
#[derive(Debug, PartialEq, Eq, Structural, Copy, Clone)]
pub enum MoonError {
    /// The board side is too short for the moon to sit between two cells.
    InvalidConfiguration,
}

/// The moon sits between two neighbouring cells of the board's outer ring
/// and shines along two diagonals at once, one from each of those cells.
///
/// On a board of side `n` there are `4 * (n - 1)` such places. Numbering
/// them from the top-right corner, the moon runs west along the top edge
/// (heading `South`), south along the left edge (`East`), east along the
/// bottom edge (`North`) and north along the right edge (`West`).
#[derive(Debug, PartialEq, Eq, Structural, Copy, Clone, Ord, PartialOrd, Hash)]
pub struct Moon {
    pub direction: MoonDirection,
    pub row1: usize,
    pub col1: usize,
    pub row2: usize,
    pub col2: usize,
    pub full_moon: bool,
    pub grid_side_length: usize,
}

/// Number of places on the outer ring of a board of side `n`.
pub open spec fn perimeter(n: int) -> int {
    4 * (n - 1)
}

/// The moon at place `k` of the ring of a board of side `n`.
pub open spec fn placed(n: usize, k: int, full_moon: bool) -> Moon {
    let m = n - 1;
    if k < m {
        Moon {
            direction: MoonDirection::South,
            row1: 0,
            col1: (n - 2 - k) as usize,
            row2: 0,
            col2: (n - 1 - k) as usize,
            full_moon,
            grid_side_length: n,
        }
    } else if k < 2 * m {
        Moon {
            direction: MoonDirection::East,
            row1: (k - m + 1) as usize,
            col1: 0,
            row2: (k - m) as usize,
            col2: 0,
            full_moon,
            grid_side_length: n,
        }
    } else if k < 3 * m {
        Moon {
            direction: MoonDirection::North,
            row1: (n - 1) as usize,
            col1: (k - 2 * m + 1) as usize,
            row2: (n - 1) as usize,
            col2: (k - 2 * m) as usize,
            full_moon,
            grid_side_length: n,
        }
    } else {
        Moon {
            direction: MoonDirection::West,
            row1: (n - 1 - (k - 3 * m)) as usize,
            col1: (n - 1) as usize,
            row2: (n - 2 - (k - 3 * m)) as usize,
            col2: (n - 1) as usize,
            full_moon,
            grid_side_length: n,
        }
    }
}

impl Moon {
    /// The place on the ring that this moon's heading and cells describe.
    pub open spec fn offset(self) -> int {
        let n = self.grid_side_length as int;
        let m = n - 1;
        match self.direction {
            MoonDirection::South => n - 2 - self.col1,
            MoonDirection::East => m + self.row2,
            MoonDirection::North => 2 * m + self.col2,
            MoonDirection::West => 3 * m + n - 2 - self.row2,
        }
    }

    /// The moon stands at one of the places of its ring.
    pub open spec fn wf(self) -> bool {
        let n = self.grid_side_length as int;
        &&& 2 <= n
        &&& n + 2 <= usize::MAX
        &&& 0 <= self.offset() < perimeter(n)
        &&& self == placed(self.grid_side_length, self.offset(), self.full_moon)
    }

    /// Distance travelled along the ring in one light phase.
    pub open spec fn stride(self) -> int {
        self.grid_side_length + 2
    }

    /// The moon after one light phase.
    pub open spec fn advanced(self) -> Moon {
        placed(
            self.grid_side_length,
            (self.offset() + self.stride()) % perimeter(self.grid_side_length as int),
            self.full_moon,
        )
    }

    /// A moon on a board of side `grid_side_length`, pointing south from
    /// between the two top-right cells.
    pub fn new(grid_side_length: usize) -> (r: Result<Moon, MoonError>)
        requires
            grid_side_length + 2 <= usize::MAX,
        ensures
            grid_side_length >= 2 <==> r is Ok,
            r is Ok ==> r->Ok_0 == placed(grid_side_length, 0, false) && r->Ok_0.wf(),
            r is Err ==> r->Err_0 == MoonError::InvalidConfiguration,
    {
        if grid_side_length < 2 {
            return Err(MoonError::InvalidConfiguration);
        }
        Ok(Moon {
            direction: MoonDirection::South,
            row1: 0,
            row2: 0,
            col1: grid_side_length - 2,
            col2: grid_side_length - 1,
            full_moon: false,
            grid_side_length,
        })
    }

    /// The moon of the next light phase: `grid_side_length + 2` places further
    /// along the ring, rounding as many corners as that takes.
    pub fn next(&self) -> (r: Moon)
        requires
            self.wf(),
        ensures
            r.wf(),
            r == self.advanced(),
            r.offset() == (self.offset() + self.stride()) % perimeter(self.grid_side_length as int),
    {
        let n = self.grid_side_length;
        let mut spaces_left_to_move: usize = n + 2;
        let mut direction = self.direction;
        let mut row1 = self.row1;
        let mut col1 = self.col1;
        let mut row2 = self.row2;
        let mut col2 = self.col2;
        let ghost k0 = self.offset();
        let ghost p = perimeter(n as int);
        let ghost mut pos = k0;
        while spaces_left_to_move > 0
            invariant
                2 <= n,
                n + 2 <= usize::MAX,
                p == perimeter(n as int),
                0 <= k0 < p,
                spaces_left_to_move <= n + 2,
                0 <= pos < p,
                (Moon { direction, row1, col1, row2, col2, full_moon: self.full_moon, grid_side_length: n })
                    == placed(n, pos, self.full_moon),
                pos == k0 + (n + 2 - spaces_left_to_move) || pos == k0 + (n + 2
                    - spaces_left_to_move) - p,
            decreases spaces_left_to_move,
        {
            match direction {
                MoonDirection::South => {
                    let to_corner = col1 + 1;
                    if spaces_left_to_move < to_corner {
                        col1 -= spaces_left_to_move;
                        col2 -= spaces_left_to_move;
                        proof {
                            pos = pos + spaces_left_to_move;
                        }
                        spaces_left_to_move = 0;
                    } else {
                        spaces_left_to_move -= to_corner;
                        direction = direction.next();
                        row1 = 1;
                        row2 = 0;
                        col1 = 0;
                        col2 = 0;
                        proof {
                            pos = pos + to_corner;
                        }
                    }
                },
                MoonDirection::East => {
                    let to_corner = n - 1 - row2;
                    if spaces_left_to_move < to_corner {
                        row1 += spaces_left_to_move;
                        row2 += spaces_left_to_move;
                        proof {
                            pos = pos + spaces_left_to_move;
                        }
                        spaces_left_to_move = 0;
                    } else {
                        spaces_left_to_move -= to_corner;
                        direction = direction.next();
                        row1 = n - 1;
                        row2 = n - 1;
                        col1 = 1;
                        col2 = 0;
                        proof {
                            pos = pos + to_corner;
                        }
                    }
                },
                MoonDirection::North => {
                    let to_corner = n - 1 - col2;
                    if spaces_left_to_move < to_corner {
                        col1 += spaces_left_to_move;
                        col2 += spaces_left_to_move;
                        proof {
                            pos = pos + spaces_left_to_move;
                        }
                        spaces_left_to_move = 0;
                    } else {
                        spaces_left_to_move -= to_corner;
                        direction = direction.next();
                        row1 = n - 1;
                        row2 = n - 2;
                        col1 = n - 1;
                        col2 = n - 1;
                        proof {
                            pos = pos + to_corner;
                        }
                    }
                },
                MoonDirection::West => {
                    let to_corner = row2 + 1;
                    if spaces_left_to_move < to_corner {
                        row1 -= spaces_left_to_move;
                        row2 -= spaces_left_to_move;
                        proof {
                            pos = pos + spaces_left_to_move;
                        }
                        spaces_left_to_move = 0;
                    } else {
                        spaces_left_to_move -= to_corner;
                        direction = direction.next();
                        row1 = 0;
                        row2 = 0;
                        col1 = n - 2;
                        col2 = n - 1;
                        proof {
                            pos = pos + to_corner - p;
                        }
                    }
                },
            }
        }
        let r = Moon { direction, row1, col1, row2, col2, full_moon: self.full_moon, grid_side_length: n };
        proof {
            let x = k0 + n + 2;
            if pos == x {
                lemma_fundamental_div_mod_converse(x, p, 0, pos);
            } else {
                lemma_fundamental_div_mod_converse(x, p, 1, pos);
            }
            lemma_offset_of_placed(n, pos, self.full_moon);
        }
        r
    }
}

/// Reading the place back from a placed moon gives that place.
pub proof fn lemma_offset_of_placed(n: usize, k: int, full_moon: bool)
    requires
        2 <= n,
        0 <= k < perimeter(n as int),
    ensures
        placed(n, k, full_moon).offset() == k,
        placed(n, k, full_moon).grid_side_length == n,
        placed(n, k, full_moon).full_moon == full_moon,
{
}

} // verus!
