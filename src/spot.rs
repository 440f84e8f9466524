use vstd::prelude::*;

use crate::enums::{Animal, Fertility, PieceType, TreeSize};

verus! {

/// A single tree on the board.
#[derive(Debug, PartialEq, Eq, Copy, Clone, Ord, PartialOrd, Hash)]
pub struct Tree {
    /// The colour of the tree, which tells its owner.
    pub color: (u8, u8, u8),
    /// The size of the tree.
    pub size: TreeSize,
}

impl Default for Tree {
    fn default() -> (r: Tree)
        ensures
            r.color == (0u8, 0u8, 0u8),
            r.size == TreeSize::Seed,
    {
        Tree { color: (0, 0, 0), size: TreeSize::Seed }
    }
}

/// What one spot of the board holds.
#[derive(Debug, PartialEq, Eq, Copy, Clone, Ord, PartialOrd, Hash)]
pub struct BoardSpot {
    /// The kind of piece on the spot.
    pub piece_type: PieceType,
    /// The tree growing on the spot, if any.
    pub tree: Option<Tree>,
    /// The animal standing on the spot, if any.
    pub animal: Option<Animal>,
    /// The fertility of the spot.
    pub fertility: Fertility,
    /// Whether an action has been taken from this spot this turn.
    pub expended: bool,
}

/// An empty, unexpended spot of the given fertility.
pub open spec fn fresh_spot(fertility: Fertility) -> BoardSpot {
    BoardSpot { piece_type: PieceType::Empty, tree: None, animal: None, fertility, expended: false }
}

impl BoardSpot {
    /// An empty spot of the given fertility.
    pub fn new(fertility: Fertility) -> (r: BoardSpot)
        ensures
            r == fresh_spot(fertility),
    {
        BoardSpot {
            piece_type: PieceType::default(),
            tree: None,
            animal: None,
            fertility,
            expended: false,
        }
    }

    pub open spec fn expended_flag(self) -> bool {
        self.expended
    }

    /// Whether an action has been taken from this spot this turn.
    pub fn is_expended(&self) -> (r: bool)
        ensures
            r == self.expended_flag(),
    {
        self.expended
    }

    /// Marks the spot as used until the next turn.
    pub fn expend(&mut self)
        ensures
            final(self).expended_flag(),
            final(self).piece_type == old(self).piece_type,
            final(self).tree == old(self).tree,
            final(self).animal == old(self).animal,
            final(self).fertility == old(self).fertility,
    {
        self.expended = true;
    }
}

impl Default for BoardSpot {
    fn default() -> (r: BoardSpot)
        ensures
            r == fresh_spot(Fertility::OneLeaf),
    {
        BoardSpot {
            piece_type: PieceType::Empty,
            tree: None,
            animal: None,
            fertility: Fertility::OneLeaf,
            expended: false,
        }
    }
}

} // verus!
