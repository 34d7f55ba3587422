use vstd::prelude::*;

verus! {

/// One of the four compass headings of the robot, in clockwise order.
#[derive(Debug, Clone, Copy, PartialEq, Eq, Structural)]
pub enum Heading {
    North,
    East,
    South,
    West,
}

/// The position of a heading in clockwise order, starting from north.
pub open spec fn heading_index(h: Heading) -> int {
    match h {
        Heading::North => 0,
        Heading::East => 1,
        Heading::South => 2,
        Heading::West => 3,
    }
}

/// The heading at a given position in clockwise order, taken modulo four.
pub open spec fn heading_at(i: int) -> Heading {
    let k = i % 4;
    if k == 0 {
        Heading::North
    } else if k == 1 {
        Heading::East
    } else if k == 2 {
        Heading::South
    } else {
        Heading::West
    }
}

/// The heading reached from `h` after `quarter_turns` clockwise quarter
/// turns (negative values turn counter-clockwise).
pub open spec fn turned(h: Heading, quarter_turns: int) -> Heading {
    heading_at(heading_index(h) + quarter_turns)
}

/// The shorter rotation, in clockwise quarter turns, from `h` to `target`:
/// a number in -1 ..= 2, where a half turn counts as 2.
pub open spec fn rotation_between(h: Heading, target: Heading) -> int {
    let r = (heading_index(target) - heading_index(h)) % 4;
    if r > 2 {
        r - 4
    } else {
        r
    }
}

impl Heading {
    /// The clockwise position of this heading as a number (north is 0).
    pub fn code(self) -> (c: i8)
        ensures
            c == heading_index(self),
    {
        match self {
            Heading::North => 0,
            Heading::East => 1,
            Heading::South => 2,
            Heading::West => 3,
        }
    }

    /// The rotation, in clockwise quarter turns, that takes this heading to
    /// `target` along the shorter way round: one of -1, 0, 1 or 2 (a half
    /// turn is given as 2).
    pub fn delta(self, target: Heading) -> (d: i8)
        ensures
            d == rotation_between(self, target),
    {
        let raw_delta: i8 = (target.code() - self.code() + 4) % 4;
        if raw_delta > 2 {
            raw_delta - 4
        } else {
            raw_delta
        }
    }
}

/// The rotation between two headings is the shortest one: it lies in
/// -1 ..= 2, it turns the first heading into the second, and no rotation of
/// fewer quarter turns does.
pub proof fn lemma_rotation_between_is_shortest(h: Heading, target: Heading)
    ensures
        -1 <= rotation_between(h, target) <= 2,
        turned(h, rotation_between(h, target)) == target,
        forall|k: int|
            #![trigger turned(h, k)]
            turned(h, k) == target ==> -2 <= k <= 2 ==> (k == rotation_between(h, target) || (
            k == -2 && rotation_between(h, target) == 2)),
{
}

} // verus!
