use vstd::prelude::*;

verus! {

/// The powerup kinds a level scheme can configure.
#[derive(Clone, Copy, Debug)]
pub enum Powerup {
    ExtraBomb,
    LongerFlame,
    Disease,
    Kick,
    Speed,
    Punch,
    Grab,
    Spooger,
    Goldflame,
    Trigger,
    Jelly,
    SuperBadDisease,
    Random,
}

/// One cell of the level grid.
#[derive(Clone, Copy, Debug, PartialEq, Eq, Structural)]
pub enum Cell {
    Solid,
    Brick,
    Blank,
}

impl Default for Cell {
    fn default() -> (r: Self)
        ensures
            r == Cell::Blank,
    {
        Cell::Blank
    }
}

/// The level grid: fifteen columns in eleven rows.
pub type Grid = [[Cell; 15]; 11];

/// How one powerup behaves in a scheme.
#[derive(Clone, Copy, Debug, PartialEq, Eq, Structural)]
pub struct PowerupInfo {
    pub born_with: bool,
    pub override_value: Option<i8>,
    pub forbidden: bool,
}

impl Default for PowerupInfo {
    fn default() -> (r: Self)
        ensures
            r == (PowerupInfo { born_with: false, override_value: None, forbidden: false }),
    {
        PowerupInfo { born_with: false, override_value: None, forbidden: false }
    }
}

/// One level scheme: the grid, the player start positions and the powerup
/// settings. Filling it from the scheme file belongs to the loading layer;
/// the core only carries the values.
#[derive(Debug)]
pub struct Scheme {
    pub version: u8,
    pub name: String,
    pub brick_density: u8,
    pub grid: Grid,
    /// One `(x, y)` start position per player.
    pub player_start_locs: [(u8, u8); 10],
    pub powerup_infos: [PowerupInfo; 13],
}

impl Scheme {
    /// An empty scheme: version and density zero, an empty name, a blank
    /// grid, and all start positions and powerups zeroed.
    pub fn new() -> (s: Scheme)
        ensures
            s.version == 0,
            s.name@ == Seq::<char>::empty(),
            s.brick_density == 0,
            forall|i: int, j: int|
                0 <= i < 11 && 0 <= j < 15 ==> #[trigger] s.grid@[i]@[j] == Cell::Blank,
            forall|i: int| 0 <= i < 10 ==> #[trigger] s.player_start_locs@[i] == (0u8, 0u8),
            forall|i: int|
                0 <= i < 13 ==> #[trigger] s.powerup_infos@[i] == (PowerupInfo {
                    born_with: false,
                    override_value: None,
                    forbidden: false,
                }),
    {
        Scheme {
            version: 0,
            name: String::new(),
            brick_density: 0,
            grid: [[Cell::Blank; 15]; 11],
            player_start_locs: [(0, 0); 10],
            powerup_infos: [PowerupInfo { born_with: false, override_value: None, forbidden: false }; 13],
        }
    }
}

} // verus!
