use vstd::prelude::*;

verus! {

/// Which side a wall is known to stand on when a reading is combined.
#[derive(Debug, Clone, Copy, PartialEq, Eq, Structural)]
pub enum IsWall {
    Left,
    Front,
    Right,
}

/// The levels of the three distance sensors as last sampled: `true` is a
/// high level, which means that no wall is in front of that sensor.
#[derive(Debug, Clone, Copy, PartialEq, Eq, Structural)]
pub struct Sensor {
    pub left: bool,
    pub center: bool,
    pub right: bool,
}

impl Sensor {
    /// Combines three wall flags with a wall known to stand on the side
    /// `walled`, as a (first, second, third) triple: a known left wall
    /// gives (true, `scenter`, `sleft`), a known front wall gives
    /// (`sright`, true, `sleft`), a known right wall gives (`sright`,
    /// `scenter`, true). The sampled levels do not change.
    pub fn read(&mut self, walled: IsWall, sleft: bool, scenter: bool, sright: bool) -> (r: (
        bool,
        bool,
        bool,
    ))
        ensures
            *final(self) == *old(self),
            r == (match walled {
                IsWall::Left => (true, scenter, sleft),
                IsWall::Front => (sright, true, sleft),
                IsWall::Right => (sright, scenter, true),
            }),
    {
        match walled {
            IsWall::Left => (true, scenter, sleft),
            IsWall::Front => (sright, true, sleft),
            IsWall::Right => (sright, scenter, true),
        }
    }
}

} // verus!
