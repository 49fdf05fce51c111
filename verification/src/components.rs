//! The records that can be attached to an entity.

use vstd::prelude::*;
use crate::geometry::GridPoint;

verus! {

/// The identity of an entity: its slot in the world's store.
#[derive(Clone, Copy, Debug, PartialEq, Eq, Structural)]
pub struct Entity {
    pub id: usize,
}

/// Where an entity stands on the grid.
#[derive(Clone, Copy, Debug, PartialEq, Eq, Structural)]
pub struct Position {
    pub x: i32,
    pub y: i32,
}

/// A colour as three channel values.
#[derive(Clone, Copy, Debug, PartialEq, Eq, Structural)]
pub struct Color {
    pub r: u8,
    pub g: u8,
    pub b: u8,
}

/// How an entity is drawn. It does not change after creation.
#[derive(Clone, Copy, Debug, PartialEq, Eq, Structural)]
pub struct Renderable {
    pub glyph: u16,
    pub fg: Color,
    pub bg: Color,
}

/// Marks the entity that the user steers.
#[derive(Clone, Copy, Debug, PartialEq, Eq, Structural)]
pub struct Player {}

/// Marks an entity that the monster behaviour steers.
#[derive(Clone, Copy, Debug, PartialEq, Eq, Structural)]
pub struct Monster {}

/// Marks an entity that other entities cannot walk through.
#[derive(Clone, Copy, Debug, PartialEq, Eq, Structural)]
pub struct BlocksTile {}

/// A name for logs.
#[derive(Clone, Debug)]
pub struct Name {
    pub name: String,
}

/// What an entity sees: the tiles in view, how far it looks, and whether the
/// tiles have to be computed again because the entity has moved.
#[derive(Clone, Debug)]
pub struct Viewshed {
    pub visible_tiles: Vec<GridPoint>,
    pub range: i32,
    pub dirty: bool,
}

/// Health and fighting strength.
#[derive(Clone, Copy, Debug, PartialEq, Eq, Structural)]
pub struct CombatStats {
    pub max_hp: i32,
    pub hp: i32,
    pub defense: i32,
    pub power: i32,
}

/// The wish to strike `target` in this turn.
#[derive(Clone, Copy, Debug, PartialEq, Eq, Structural)]
pub struct WantsToMelee {
    pub target: Entity,
}

/// Damage that has been dealt to an entity and not yet taken from its health,
/// one amount per hit, in the order of the hits.
#[derive(Clone, Debug)]
pub struct SufferDamage {
    pub amounts: Vec<u32>,
}

impl Viewshed {
    /// A viewshed that has not been computed yet.
    pub fn new(range: i32) -> (v: Viewshed)
        ensures
            v.visible_tiles@.len() == 0,
            v.range == range,
            v.dirty,
    {
        Viewshed { visible_tiles: Vec::new(), range, dirty: true }
    }

    /// Whether `p` is among the visible tiles.
    pub open spec fn sees(self, p: GridPoint) -> bool {
        self.visible_tiles@.contains(p)
    }

    /// Whether `p` is among the visible tiles.
    pub fn contains(&self, p: GridPoint) -> (r: bool)
        ensures
            r == self.sees(p),
    {
        let mut i: usize = 0;
        while i < self.visible_tiles.len()
            invariant
                i <= self.visible_tiles.len(),
                forall|j: int| 0 <= j < i ==> self.visible_tiles@[j] != p,
            decreases self.visible_tiles.len() - i,
        {
            let q = self.visible_tiles[i];
            if q.x == p.x && q.y == p.y {
                return true;
            }
            i += 1;
        }
        false
    }
}

/// The damage of one hit: the attacker's power less the target's defense,
/// and never below zero.
pub open spec fn melee_damage_spec(power: int, defense: int) -> int {
    if power - defense > 0 {
        power - defense
    } else {
        0
    }
}

/// The damage of one hit.
pub fn melee_damage(power: i32, defense: i32) -> (d: u32)
    ensures
        d == melee_damage_spec(power as int, defense as int),
{
    let diff: i64 = power as i64 - defense as i64;
    if diff <= 0 {
        0
    } else {
        diff as u32
    }
}

} // verus!
