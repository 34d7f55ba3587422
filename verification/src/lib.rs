//! Navigation logic of a maze-solving robot: the compass heading model, the
//! wall map and flood-fill distance field of a small grid maze, the
//! greedy policy that walks the distance field towards the goal, and the
//! decision steps of the drive, encoder and control loops.

pub mod heading;
pub mod drive;
pub mod maze;
pub mod sensor;
pub mod flood;
pub mod policy;
pub mod encoders;
