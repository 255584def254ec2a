use vstd::prelude::*;

verus! {

/// An opaque entity identifier: an index into the parallel component
/// columns of [`crate::world::World`].
#[derive(Debug, Clone, Copy, PartialEq, Eq, Hash, Structural)]
pub struct Entity {
    pub id: usize,
}

/// A grid coordinate. Unique per entity; mutated only by the movement
/// resolver (and the inline player move in `handle_key`).
#[derive(Debug, Clone, Copy, PartialEq, Eq, Hash, Structural)]
pub struct Position {
    pub x: i32,
    pub y: i32,
}

/// A grid coordinate used by the visibility pass and the draw list.
#[derive(Debug, Clone, Copy, PartialEq, Eq, Hash, Structural)]
pub struct Point {
    pub x: i32,
    pub y: i32,
}

impl Position {
    pub fn point(&self) -> (r: Point)
        ensures
            r.x == self.x,
            r.y == self.y,
    {
        Point { x: self.x, y: self.y }
    }
}

impl Point {
    pub fn position(&self) -> (r: Position)
        ensures
            r.x == self.x,
            r.y == self.y,
    {
        Position { x: self.x, y: self.y }
    }
}

/// Tags a non-player creature and gives its draw glyph.
#[derive(Debug, Clone, Copy)]
pub struct Mob {
    pub glyph: char,
}

/// One gauge: a current value that may move and a fixed maximum.
#[derive(Debug, Clone, Copy, PartialEq, Eq, Structural)]
pub struct Stat {
    pub max: i32,
    pub cur: i32,
}

/// Health and mana of a combat-capable entity.
#[derive(Debug, Clone, Copy, PartialEq, Eq, Structural)]
pub struct Stats {
    pub hp: Stat,
    pub mp: Stat,
}

impl Stats {
    pub fn new(hp: i32, mp: i32) -> (r: Stats)
        ensures
            r.hp == (Stat { max: hp, cur: hp }),
            r.mp == (Stat { max: mp, cur: mp }),
    {
        Stats { hp: Stat { max: hp, cur: hp }, mp: Stat { max: mp, cur: mp } }
    }
}

/// A one-tick movement intent: the destination the entity wants to step to.
#[derive(Debug, Clone, Copy, PartialEq, Eq, Structural)]
pub struct WantsToMove {
    pub location: Position,
}

/// A one-tick melee intent against a specific entity.
#[derive(Debug, Clone, Copy, PartialEq, Eq, Structural)]
pub struct WantsToMelee {
    pub target: Entity,
}

/// Display name, used only when formatting combat-log messages.
#[derive(Debug, Clone)]
pub struct Name {
    pub name: String,
}

} // verus!
