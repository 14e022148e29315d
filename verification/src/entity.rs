use vstd::prelude::*;
use crate::position::Position;
use crate::board::Traverse;

verus! {

/// The teams, in the fixed cyclic turn order that `get_next_team` steps
/// through. A team's display colour is presentation-only and is left to the
/// caller that draws.
#[derive(Debug, PartialEq, Eq, Structural, Copy, Clone)]
pub enum Team {
    Red,
    Blue,
    Green,
    Yellow,
    Cyan,
    Orange,
    Magenta,
    White,
}

/// How many teams there are; a full cycle of `get_next_team` has this length.
pub const TEAM_COUNT: u32 = 8;

/// The team whose turn follows the given one, in cyclic order.
pub open spec fn spec_next_team(team: Team) -> Team {
    match team {
        Team::Red => Team::Blue,
        Team::Blue => Team::Green,
        Team::Green => Team::Yellow,
        Team::Yellow => Team::Cyan,
        Team::Cyan => Team::Orange,
        Team::Orange => Team::Magenta,
        Team::Magenta => Team::White,
        Team::White => Team::Red,
    }
}

/// Stepping `n` teams forward from `team` in cyclic order.
pub open spec fn spec_team_after(team: Team, n: nat) -> Team
    decreases n,
{
    if n == 0 {
        team
    } else {
        spec_next_team(spec_team_after(team, (n - 1) as nat))
    }
}

pub fn get_next_team(team: Team) -> (r: Team)
    ensures
        r == spec_next_team(team),
{
    match team {
        Team::Red => Team::Blue,
        Team::Blue => Team::Green,
        Team::Green => Team::Yellow,
        Team::Yellow => Team::Cyan,
        Team::Cyan => Team::Orange,
        Team::Orange => Team::Magenta,
        Team::Magenta => Team::White,
        Team::White => Team::Red,
    }
}

/// A unit's domain of movement. Together with a tile's `Traverse` class it
/// decides, through `can_traverse`, whether the unit may occupy or cross
/// that tile.
#[derive(Debug, PartialEq, Eq, Structural, Copy, Clone)]
pub enum Space {
    Ground,
    Water,
    Air,
}

/// The fixed compatibility matrix between a unit's Space and a tile's
/// Traverse class: Ground moves on Ground only, Water on Water only, and
/// Air on everything but Wall.
pub open spec fn spec_can_traverse(space: Space, traverse: Traverse) -> bool {
    match (space, traverse) {
        (Space::Ground, Traverse::Ground) => true,
        (Space::Water, Traverse::Water) => true,
        (Space::Air, Traverse::Ground) => true,
        (Space::Air, Traverse::Water) => true,
        _ => false,
    }
}

impl Space {
    pub fn can_traverse(&self, traverse: Traverse) -> (r: bool)
        ensures
            r == spec_can_traverse(*self, traverse),
    {
        match (self, traverse) {
            (Space::Ground, Traverse::Ground) => true,
            (Space::Ground, Traverse::Water) => false,
            (Space::Water, Traverse::Ground) => false,
            (Space::Water, Traverse::Water) => true,
            (Space::Air, Traverse::Ground) => true,
            (Space::Air, Traverse::Water) => true,
            (_, _) => false,
        }
    }
}

#[derive(Debug, PartialEq, Eq, Structural, Copy, Clone)]
pub enum UnitKind {
    Unknown,
    Engineer,
    Infantry,
    Humvee,
    Tank,
    Missile,
    Flag,
    Barracks,
}

/// A mobile unit or building. Plain value: its identity lives in the
/// `EntityStore` handle that refers to it, not in the fields.
#[derive(Debug, PartialEq, Eq, Structural, Copy, Clone)]
pub struct Unit {
    pub kind: UnitKind,
    pub team: Team,
    pub glyph: char,
    pub space: Space,
    pub health: u32,
    pub health_max: u32,
    pub damage: u32,
    pub range: u32,
    pub actions: u32,
    pub actions_max: u32,
    pub position: Position,
}

/// The unit a `Spawn` command creates: the kind's base stats, at full
/// health and full action points.
pub open spec fn spec_base_unit(kind: UnitKind, team: Team, position: Position) -> Unit {
    match kind {
        UnitKind::Unknown => arbitrary(),
        UnitKind::Engineer => Unit {
            kind, team, position, glyph: '\u{0080}', space: Space::Ground,
            health: 1, health_max: 1, damage: 1, range: 1, actions: 2, actions_max: 2,
        },
        UnitKind::Infantry => Unit {
            kind, team, position, glyph: '\u{0081}', space: Space::Ground,
            health: 2, health_max: 2, damage: 1, range: 1, actions: 2, actions_max: 2,
        },
        UnitKind::Humvee => Unit {
            kind, team, position, glyph: '\u{0083}', space: Space::Ground,
            health: 3, health_max: 3, damage: 1, range: 1, actions: 3, actions_max: 3,
        },
        UnitKind::Tank => Unit {
            kind, team, position, glyph: '\u{0085}', space: Space::Ground,
            health: 4, health_max: 4, damage: 2, range: 3, actions: 2, actions_max: 2,
        },
        UnitKind::Missile => Unit {
            kind, team, position, glyph: '\u{0082}', space: Space::Air,
            health: 3, health_max: 3, damage: 10, range: 3, actions: 3, actions_max: 3,
        },
        UnitKind::Flag => Unit {
            kind, team, position, glyph: '\u{0084}', space: Space::Ground,
            health: 1, health_max: 1, damage: 0, range: 0, actions: 1, actions_max: 1,
        },
        UnitKind::Barracks => Unit {
            kind, team, position, glyph: '\u{0086}', space: Space::Ground,
            health: 5, health_max: 5, damage: 0, range: 0, actions: 1, actions_max: 1,
        },
    }
}

/// The display name each kind carries, as character data.
pub open spec fn spec_display_name(kind: UnitKind) -> Seq<char> {
    match kind {
        UnitKind::Unknown => "Unknown"@,
        UnitKind::Engineer => "Engineer"@,
        UnitKind::Infantry => "Infantry"@,
        UnitKind::Humvee => "Humvee"@,
        UnitKind::Tank => "Tank"@,
        UnitKind::Missile => "Missile"@,
        UnitKind::Flag => "Flag"@,
        UnitKind::Barracks => "Barracks"@,
    }
}

impl Unit {
    pub fn new(kind: UnitKind, team: Team, position: Position) -> (r: Self)
        requires
            kind != UnitKind::Unknown,
        ensures
            r == spec_base_unit(kind, team, position),
    {
        match kind {
            UnitKind::Unknown => {
                // Excluded by the precondition; give the checker a body.
                Unit {
                    kind, team, position, glyph: '?', space: Space::Ground,
                    health: 1, health_max: 1, damage: 1, range: 1, actions: 1, actions_max: 1,
                }
            },
            UnitKind::Engineer => Unit {
                kind, team, position, glyph: '\u{0080}', space: Space::Ground,
                health: 1, health_max: 1, damage: 1, range: 1, actions: 2, actions_max: 2,
            },
            UnitKind::Infantry => Unit {
                kind, team, position, glyph: '\u{0081}', space: Space::Ground,
                health: 2, health_max: 2, damage: 1, range: 1, actions: 2, actions_max: 2,
            },
            UnitKind::Humvee => Unit {
                kind, team, position, glyph: '\u{0083}', space: Space::Ground,
                health: 3, health_max: 3, damage: 1, range: 1, actions: 3, actions_max: 3,
            },
            UnitKind::Tank => Unit {
                kind, team, position, glyph: '\u{0085}', space: Space::Ground,
                health: 4, health_max: 4, damage: 2, range: 3, actions: 2, actions_max: 2,
            },
            UnitKind::Missile => Unit {
                kind, team, position, glyph: '\u{0082}', space: Space::Air,
                health: 3, health_max: 3, damage: 10, range: 3, actions: 3, actions_max: 3,
            },
            UnitKind::Flag => Unit {
                kind, team, position, glyph: '\u{0084}', space: Space::Ground,
                health: 1, health_max: 1, damage: 0, range: 0, actions: 1, actions_max: 1,
            },
            UnitKind::Barracks => Unit {
                kind, team, position, glyph: '\u{0086}', space: Space::Ground,
                health: 5, health_max: 5, damage: 0, range: 0, actions: 1, actions_max: 1,
            },
        }
    }

    /// The unit's display name, fixed by its kind.
    pub fn display_name(&self) -> (r: String)
        ensures
            r@ == spec_display_name(self.kind),
    {
        match self.kind {
            UnitKind::Unknown => "Unknown".to_owned(),
            UnitKind::Engineer => "Engineer".to_owned(),
            UnitKind::Infantry => "Infantry".to_owned(),
            UnitKind::Humvee => "Humvee".to_owned(),
            UnitKind::Tank => "Tank".to_owned(),
            UnitKind::Missile => "Missile".to_owned(),
            UnitKind::Flag => "Flag".to_owned(),
            UnitKind::Barracks => "Barracks".to_owned(),
        }
    }
}

} // verus!
