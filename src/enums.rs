use vstd::prelude::*;

verus! {

/// The kind of piece that occupies a spot on the board.
#[derive(Debug, PartialEq, Eq, Structural, Copy, Clone, Ord, PartialOrd, Hash)]
pub enum PieceType {
    Empty,
    Tree,
    Animal,
    Dam,
    Moonstone,
    GreatElderTree,
}

impl Default for PieceType {
    fn default() -> (r: PieceType)
        ensures
            r == PieceType::Empty,
    {
        PieceType::Empty
    }
}

impl PieceType {
    /// Human-readable name of the piece kind.
    pub fn label(&self) -> (r: &'static str)
        ensures
            r@ == piece_label(*self),
    {
        proof {
            reveal_strlit("Empty");
            reveal_strlit("Tree");
            reveal_strlit("Animal");
            reveal_strlit("Beaver Dam");
            reveal_strlit("Moonstone");
            reveal_strlit("Great Elder Tree");
        }
        match self {
            PieceType::Empty => "Empty",
            PieceType::Tree => "Tree",
            PieceType::Animal => "Animal",
            PieceType::Dam => "Beaver Dam",
            PieceType::Moonstone => "Moonstone",
            PieceType::GreatElderTree => "Great Elder Tree",
        }
    }
}

pub open spec fn piece_label(p: PieceType) -> Seq<char> {
    match p {
        PieceType::Empty => "Empty"@,
        PieceType::Tree => "Tree"@,
        PieceType::Animal => "Animal"@,
        PieceType::Dam => "Beaver Dam"@,
        PieceType::Moonstone => "Moonstone"@,
        PieceType::GreatElderTree => "Great Elder Tree"@,
    }
}

/// A forest animal; each one grants its owner a special ability.
#[derive(Debug, PartialEq, Eq, Structural, Copy, Clone, Ord, PartialOrd, Hash)]
pub enum Animal {
    Boar,
    Hedgehog,
    Squirrel,
    Fox,
    Owl,
    Badger,
    Beaver,
    Turtle,
}

impl Animal {
    /// Human-readable name of the animal.
    pub fn label(&self) -> (r: &'static str)
        ensures
            r@ == animal_label(*self),
    {
        proof {
            reveal_strlit("Boar");
            reveal_strlit("Hedgehog");
            reveal_strlit("Squirrel");
            reveal_strlit("Fox");
            reveal_strlit("Owl");
            reveal_strlit("Badger");
            reveal_strlit("Beaver");
            reveal_strlit("Turtle");
        }
        match self {
            Animal::Boar => "Boar",
            Animal::Hedgehog => "Hedgehog",
            Animal::Squirrel => "Squirrel",
            Animal::Fox => "Fox",
            Animal::Owl => "Owl",
            Animal::Badger => "Badger",
            Animal::Beaver => "Beaver",
            Animal::Turtle => "Turtle",
        }
    }
}

pub open spec fn animal_label(a: Animal) -> Seq<char> {
    match a {
        Animal::Boar => "Boar"@,
        Animal::Hedgehog => "Hedgehog"@,
        Animal::Squirrel => "Squirrel"@,
        Animal::Fox => "Fox"@,
        Animal::Owl => "Owl"@,
        Animal::Badger => "Badger"@,
        Animal::Beaver => "Beaver"@,
        Animal::Turtle => "Turtle"@,
    }
}

/// The size of a tree; a seed counts as the smallest tree.
#[derive(Debug, PartialEq, Eq, Structural, Copy, Clone, Ord, PartialOrd, Hash)]
pub enum TreeSize {
    Seed,
    Small,
    Medium,
    Large,
}

/// Height of a tree of the given size: also how far its shadow reaches.
pub open spec fn tree_height(s: TreeSize) -> nat {
    match s {
        TreeSize::Seed => 0,
        TreeSize::Small => 1,
        TreeSize::Medium => 2,
        TreeSize::Large => 3,
    }
}

impl TreeSize {
    pub fn size(&self) -> (r: usize)
        ensures
            r == tree_height(*self),
    {
        match self {
            TreeSize::Seed => 0,
            TreeSize::Small => 1,
            TreeSize::Medium => 2,
            TreeSize::Large => 3,
        }
    }

    /// Human-readable name of the size.
    pub fn label(&self) -> (r: &'static str)
        ensures
            r@ == size_label(*self),
    {
        proof {
            reveal_strlit("Seed");
            reveal_strlit("Small");
            reveal_strlit("Medium");
            reveal_strlit("Large");
        }
        match self {
            TreeSize::Seed => "Seed",
            TreeSize::Small => "Small",
            TreeSize::Medium => "Medium",
            TreeSize::Large => "Large",
        }
    }
}

impl Default for TreeSize {
    fn default() -> (r: TreeSize)
        ensures
            r == TreeSize::Seed,
    {
        TreeSize::Seed
    }
}

pub open spec fn size_label(s: TreeSize) -> Seq<char> {
    match s {
        TreeSize::Seed => "Seed"@,
        TreeSize::Small => "Small"@,
        TreeSize::Medium => "Medium"@,
        TreeSize::Large => "Large"@,
    }
}

/// How fertile a spot is, from one to four leaves.
#[derive(Debug, PartialEq, Eq, Structural, Copy, Clone, Ord, PartialOrd, Hash)]
pub enum Fertility {
    OneLeaf,
    TwoLeaf,
    ThreeLeaf,
    FourLeaf,
}

/// Number of leaves of a fertility level.
pub open spec fn leaves(f: Fertility) -> nat {
    match f {
        Fertility::OneLeaf => 1,
        Fertility::TwoLeaf => 2,
        Fertility::ThreeLeaf => 3,
        Fertility::FourLeaf => 4,
    }
}

impl Fertility {
    pub fn as_int(&self) -> (r: i32)
        ensures
            r == leaves(*self),
    {
        match self {
            Fertility::OneLeaf => 1,
            Fertility::TwoLeaf => 2,
            Fertility::ThreeLeaf => 3,
            Fertility::FourLeaf => 4,
        }
    }

    pub fn as_usize(&self) -> (r: usize)
        ensures
            r == leaves(*self),
    {
        match self {
            Fertility::OneLeaf => 1,
            Fertility::TwoLeaf => 2,
            Fertility::ThreeLeaf => 3,
            Fertility::FourLeaf => 4,
        }
    }

    /// Human-readable name of the fertility level.
    pub fn label(&self) -> (r: &'static str)
        ensures
            r@ == fertility_label(*self),
    {
        proof {
            reveal_strlit("One-Leaf");
            reveal_strlit("Two-Leaf");
            reveal_strlit("Three-Leaf");
            reveal_strlit("Four-Leaf");
        }
        match self {
            Fertility::OneLeaf => "One-Leaf",
            Fertility::TwoLeaf => "Two-Leaf",
            Fertility::ThreeLeaf => "Three-Leaf",
            Fertility::FourLeaf => "Four-Leaf",
        }
    }
}

pub open spec fn fertility_label(f: Fertility) -> Seq<char> {
    match f {
        Fertility::OneLeaf => "One-Leaf"@,
        Fertility::TwoLeaf => "Two-Leaf"@,
        Fertility::ThreeLeaf => "Three-Leaf"@,
        Fertility::FourLeaf => "Four-Leaf"@,
    }
}

/// The compass heading that sunlight travels along.
#[derive(Debug, PartialEq, Eq, Structural, Copy, Clone, Ord, PartialOrd, Hash)]
pub enum SunDirection {
    North,
    Northeast,
    East,
    Southeast,
    South,
    Southwest,
    West,
    Northwest,
}

impl SunDirection {
    /// The heading that follows this one, turning clockwise by an eighth.
    pub open spec fn following(self) -> SunDirection {
        match self {
            SunDirection::North => SunDirection::Northeast,
            SunDirection::Northeast => SunDirection::East,
            SunDirection::East => SunDirection::Southeast,
            SunDirection::Southeast => SunDirection::South,
            SunDirection::South => SunDirection::Southwest,
            SunDirection::Southwest => SunDirection::West,
            SunDirection::West => SunDirection::Northwest,
            SunDirection::Northwest => SunDirection::North,
        }
    }

    pub fn next(&self) -> (r: SunDirection)
        ensures
            r == self.following(),
    {
        match self {
            SunDirection::North => SunDirection::Northeast,
            SunDirection::Northeast => SunDirection::East,
            SunDirection::East => SunDirection::Southeast,
            SunDirection::Southeast => SunDirection::South,
            SunDirection::South => SunDirection::Southwest,
            SunDirection::Southwest => SunDirection::West,
            SunDirection::West => SunDirection::Northwest,
            SunDirection::Northwest => SunDirection::North,
        }
    }

    /// Human-readable description of the heading.
    pub fn label(&self) -> (r: &'static str)
        ensures
            r@ == sun_label(*self),
    {
        proof {
            reveal_strlit("Pointing North");
            reveal_strlit("Pointing Northeast");
            reveal_strlit("Pointing East");
            reveal_strlit("Pointing Southeast");
            reveal_strlit("Pointing South");
            reveal_strlit("Pointing Southwest");
            reveal_strlit("Pointing West");
            reveal_strlit("Pointing Northwest");
        }
        match self {
            SunDirection::North => "Pointing North",
            SunDirection::Northeast => "Pointing Northeast",
            SunDirection::East => "Pointing East",
            SunDirection::Southeast => "Pointing Southeast",
            SunDirection::South => "Pointing South",
            SunDirection::Southwest => "Pointing Southwest",
            SunDirection::West => "Pointing West",
            SunDirection::Northwest => "Pointing Northwest",
        }
    }
}

pub open spec fn sun_label(d: SunDirection) -> Seq<char> {
    match d {
        SunDirection::North => "Pointing North"@,
        SunDirection::Northeast => "Pointing Northeast"@,
        SunDirection::East => "Pointing East"@,
        SunDirection::Southeast => "Pointing Southeast"@,
        SunDirection::South => "Pointing South"@,
        SunDirection::Southwest => "Pointing Southwest"@,
        SunDirection::West => "Pointing West"@,
        SunDirection::Northwest => "Pointing Northwest"@,
    }
}

/// The general heading of moonlight. The moon always shines along the two
/// diagonals on either side of this heading: `North` means northeast and
/// northwest.
#[derive(Debug, PartialEq, Eq, Structural, Copy, Clone, Ord, PartialOrd, Hash)]
pub enum MoonDirection {
    South,
    East,
    North,
    West,
}

impl MoonDirection {
    /// The heading the moon takes after rounding the next corner of the board.
    pub open spec fn following(self) -> MoonDirection {
        match self {
            MoonDirection::South => MoonDirection::East,
            MoonDirection::East => MoonDirection::North,
            MoonDirection::North => MoonDirection::West,
            MoonDirection::West => MoonDirection::South,
        }
    }

    pub fn next(&self) -> (r: MoonDirection)
        ensures
            r == self.following(),
    {
        match self {
            MoonDirection::South => MoonDirection::East,
            MoonDirection::East => MoonDirection::North,
            MoonDirection::North => MoonDirection::West,
            MoonDirection::West => MoonDirection::South,
        }
    }

    /// Human-readable description of the heading.
    pub fn label(&self) -> (r: &'static str)
        ensures
            r@ == moon_label(*self),
    {
        proof {
            reveal_strlit("Pointing South");
            reveal_strlit("Pointing East");
            reveal_strlit("Pointing North");
            reveal_strlit("Pointing West");
        }
        match self {
            MoonDirection::South => "Pointing South",
            MoonDirection::East => "Pointing East",
            MoonDirection::North => "Pointing North",
            MoonDirection::West => "Pointing West",
        }
    }
}

pub open spec fn moon_label(d: MoonDirection) -> Seq<char> {
    match d {
        MoonDirection::South => "Pointing South"@,
        MoonDirection::East => "Pointing East"@,
        MoonDirection::North => "Pointing North"@,
        MoonDirection::West => "Pointing West"@,
    }
}

} // verus!
