# snake

Navigation logic of a small maze-solving robot, verified with Verus.

The robot explores a 5 x 5 grid maze. After each forward scan it records the
walls its three distance sensors see, recomputes a flood-fill distance field
from the goal, and turns towards the open neighbour closest to the goal.

- `src/heading.rs`: compass headings and the shortest rotation between them.
- `src/maze.rs`: the maze map, wall recording, pose updates, rotations and
  the two decision steps of a forward scan.
- `src/flood.rs`: the breadth-first flood fill and its proof that every cell
  receives its least number of open moves from the goal.
- `src/policy.rs`: the greedy policy step and the decisions of one round of
  the control loop.
- `src/drive.rs`, `src/encoders.rs`, `src/sensor.rs`: the motor commands, the
  one-cell forward motion driven by the wheel encoders, and sensor readings.
- `app/main.rs`: the ESP32 firmware that samples pins, drives the motors
  and runs the control loop on top of the library.
