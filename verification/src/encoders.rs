use vstd::prelude::*;

verus! {

/// Number of sampling ticks that moving forward by one cell lasts.
pub const FORWARD_TICKS: u32 = 14;

/// Time between two samples of the wheel encoders, in milliseconds.
pub const TICK_MS: u32 = 100;

/// Number of encoder edges that make up one cell.
pub const EDGES_PER_CELL: u32 = 8;

/// Time the drive rests after stopping on a full cell, in milliseconds.
pub const STOP_SETTLE_MS: u32 = 150;

/// Speed of the forward motion, in percent of full duty.
pub const FORWARD_SPEED: u16 = 100;

/// Fade time of the forward motion, in milliseconds.
pub const FORWARD_FADE_MS: u16 = 300;

/// The decision state of moving forward by one cell: the encoder levels of
/// the last counted edge, the edges counted on each wheel and the ticks
/// sampled so far.
pub struct ForwardOne {
    pub prev_left: bool,
    pub prev_right: bool,
    pub edges_left: u32,
    pub edges_right: u32,
    pub ticks: u32,
}

impl ForwardOne {
    /// Edges are only counted on both wheels at once, so both counts agree,
    /// and no more edges are counted than ticks sampled.
    pub open spec fn wf(&self) -> bool {
        &&& self.edges_left == self.edges_right
        &&& self.edges_left <= self.ticks
        &&& self.ticks <= FORWARD_TICKS
    }

    /// The state before the first tick, with the encoder levels sampled
    /// when the motion starts.
    pub fn new(level_left: bool, level_right: bool) -> (s: ForwardOne)
        ensures
            s.wf(),
            s.prev_left == level_left,
            s.prev_right == level_right,
            s.edges_left == 0,
            s.edges_right == 0,
            s.ticks == 0,
    {
        ForwardOne {
            prev_left: level_left,
            prev_right: level_right,
            edges_left: 0,
            edges_right: 0,
            ticks: 0,
        }
    }

    /// Whether all ticks of the motion have been sampled.
    pub fn is_done(&self) -> (b: bool)
        ensures
            b == (self.ticks >= FORWARD_TICKS),
    {
        self.ticks >= FORWARD_TICKS
    }

    /// One tick with the encoder levels `now_left` and `now_right`: when
    /// both levels differ from the last counted ones, an edge is counted on
    /// each wheel and the levels are kept; the result tells whether a wheel
    /// has just reached a full cell of edges, on which the drive stops. So
    /// a motion stops at most once.
    pub fn tick(&mut self, now_left: bool, now_right: bool) -> (stop: bool)
        requires
            old(self).wf(),
            old(self).ticks < FORWARD_TICKS,
        ensures
            final(self).wf(),
            final(self).ticks == old(self).ticks + 1,
            old(self).edges_left >= EDGES_PER_CELL ==> !stop,
            (now_left != old(self).prev_left && now_right != old(self).prev_right) ==> {
                &&& final(self).edges_left == old(self).edges_left + 1
                &&& final(self).edges_right == old(self).edges_right + 1
                &&& final(self).prev_left == now_left
                &&& final(self).prev_right == now_right
                &&& stop == (final(self).edges_left == EDGES_PER_CELL || final(self).edges_right
                    == EDGES_PER_CELL)
            },
            !(now_left != old(self).prev_left && now_right != old(self).prev_right) ==> {
                &&& final(self).edges_left == old(self).edges_left
                &&& final(self).edges_right == old(self).edges_right
                &&& final(self).prev_left == old(self).prev_left
                &&& final(self).prev_right == old(self).prev_right
                &&& !stop
            },
    {
        self.ticks = self.ticks + 1;
        let mut stop = false;
        if (now_left != self.prev_left) && (now_right != self.prev_right) {
            self.edges_left = self.edges_left + 1;
            self.prev_left = now_left;
            self.edges_right = self.edges_right + 1;
            self.prev_right = now_right;
            if self.edges_left == EDGES_PER_CELL || self.edges_right == EDGES_PER_CELL {
                stop = true;
            }
        }
        stop
    }
}

} // verus!
