//! Plain integer vectors carried by position messages.
//!
//! Positions travel the wire and are stored in presence maps, but the
//! protocol never interprets their components; they are fixed-point
//! integer coordinates supplied and consumed by the simulation layer.

use vstd::prelude::*;

verus! {

/// A 3-component position, as reported for players.
#[derive(Clone, Copy, Debug, PartialEq, Eq, Structural)]
pub struct Position3 {
    pub x: i32,
    pub y: i32,
    pub z: i32,
}

/// A 2-component position, as reported for movable walls.
#[derive(Clone, Copy, Debug, PartialEq, Eq, Structural)]
pub struct Position2 {
    pub x: i32,
    pub y: i32,
}

impl Position3 {
    /// The origin; a boundary value exercised by the wire codec.
    pub fn zero() -> (r: Position3)
        ensures
            r == (Position3 { x: 0, y: 0, z: 0 }),
    {
        Position3 { x: 0, y: 0, z: 0 }
    }
}

impl Position2 {
    /// The origin.
    pub fn zero() -> (r: Position2)
        ensures
            r == (Position2 { x: 0, y: 0 }),
    {
        Position2 { x: 0, y: 0 }
    }
}

} // verus!
